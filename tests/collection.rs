use slotvec::{Collection, CollectionState, TakeError};

fn shared_values(c: &Collection) -> Vec<u8> {
    let mut out = Vec::new();
    let mut it = c.iter();
    while let Some(v) = it.next() {
        out.push(*v);
    }
    out
}

#[test]
fn basic_operations_doesnt_panic() {
    let mut mycoll = Collection::new();

    mycoll.add(1);
    mycoll.add(2);
    mycoll.add(3);

    println!("{:?}", mycoll);

    let test = mycoll[1];

    println!("test = {:?}", test);

    let test2 = mycoll.take(1);
    println!("{:?}", mycoll);
    println!("test = {:?}", test2);

    let index = mycoll.add(4);
    mycoll.add(5);
    println!("test = {:?}", mycoll);

    let _ = mycoll.take(index);
    println!("test = {:?}", mycoll);
    let mut items = mycoll.into_iter();
    while let Some(item) = items.next() {
        println!("{}", item);
    }
}

#[test]
fn insert_reuses_lowest_vacant_slot() {
    let mut c = Collection::new();
    assert_eq!(c.add(b'A'), 0);
    assert_eq!(c.add(b'B'), 1);
    assert_eq!(c.add(b'C'), 2);
    assert_eq!(c.take(1), Ok(b'B'));
    assert_eq!(c.add(b'D'), 1);
    assert_eq!(c.len(), 3);
    assert_eq!(c[1], Some(b'D'));
}

#[test]
fn insert_prefers_lower_of_two_vacancies() {
    let mut c = Collection::new();
    for v in 0..5u8 {
        c.add(v);
    }
    assert_eq!(c.take(3), Ok(3));
    assert_eq!(c.take(1), Ok(1));
    assert_eq!(c.add(10), 1);
    assert_eq!(c.add(11), 3);
    assert_eq!(c.add(12), 5);
    assert_eq!(shared_values(&c), vec![0, 10, 2, 11, 4, 12]);
}

#[test]
fn insert_fills_vacancy_at_the_last_slot() {
    let mut c = Collection::new();
    c.add(1);
    c.add(2);
    c.add(3);
    assert_eq!(c.take(2), Ok(3));
    assert_eq!(c.state(), CollectionState::NotFull(2, 1));
    assert_eq!(c.add(4), 2);
    assert_eq!(c.state(), CollectionState::Full(3));
    assert_eq!(shared_values(&c), vec![1, 2, 4]);
}

#[test]
fn indices_stay_with_their_values() {
    let mut c = Collection::new();
    let a = c.add(7);
    let b = c.add(8);
    let d = c.add(9);
    assert_eq!(c.take(b), Ok(8));
    let e = c.add(6);
    let f = c.add(5);
    assert_eq!(c.get(a), Some(&7));
    assert_eq!(c.get(d), Some(&9));
    assert_eq!(c.get(e), Some(&6));
    assert_eq!(c.get(f), Some(&5));
    assert_eq!(c.take(a), Ok(7));
    assert_eq!(c.get(d), Some(&9));
    assert_eq!(c.get(a), None);
}

#[test]
fn length_counts_occupied_slots() {
    let mut c = Collection::new();
    assert_eq!(c.len(), 0);
    assert!(c.is_empty());
    for v in 0..10u8 {
        c.add(v);
    }
    assert_eq!(c.len(), 10);
    for i in [0usize, 3, 5, 9] {
        assert!(c.take(i).is_ok());
    }
    assert_eq!(c.len(), 6);
    assert!(!c.is_empty());
    assert_eq!(c.take(3), Err(TakeError::Vacant));
    assert_eq!(c.len(), 6);
}

#[test]
fn removing_every_value_leaves_an_empty_not_full_collection() {
    let mut c = Collection::new();
    c.add(1);
    c.add(2);
    assert_eq!(c.take(0), Ok(1));
    assert_eq!(c.take(1), Ok(2));
    assert_eq!(c.len(), 0);
    assert!(c.is_empty());
    assert_eq!(c.state(), CollectionState::NotFull(0, 2));
    assert_eq!(c.add(3), 0);
    assert_eq!(c.state(), CollectionState::NotFull(1, 1));
}

#[test]
fn state_transitions() {
    let mut c = Collection::new();
    assert_eq!(c.state(), CollectionState::Empty);
    c.add(1);
    assert_eq!(c.state(), CollectionState::Full(1));
    c.add(2);
    c.add(3);
    assert_eq!(c.state(), CollectionState::Full(3));
    assert!(c.take(0).is_ok());
    assert_eq!(c.state(), CollectionState::NotFull(2, 1));
    assert!(c.take(1).is_ok());
    assert_eq!(c.state(), CollectionState::NotFull(1, 2));
    c.add(4);
    assert_eq!(c.state(), CollectionState::NotFull(2, 1));
    c.add(5);
    assert_eq!(c.state(), CollectionState::Full(3));
}

#[test]
fn occupancy_matches_storage_after_every_operation() {
    let mut c = Collection::new();
    let mut model: Vec<Option<u8>> = Vec::new();
    let mut seed: u32 = 12345;
    for step in 0..400u32 {
        seed = seed.wrapping_mul(1103515245).wrapping_add(12345);
        let pick = (seed >> 16) as usize;
        if pick % 3 == 0 && !model.is_empty() {
            let i = pick % (model.len() + 2);
            let r = c.take(i);
            if i >= model.len() {
                assert_eq!(r, Err(TakeError::OutOfBounds));
            } else if let Some(v) = model[i].take() {
                assert_eq!(r, Ok(v));
            } else {
                assert_eq!(r, Err(TakeError::Vacant));
            }
        } else {
            let v = (step % 251) as u8;
            let i = c.add(v);
            let expected = model.iter().position(|s| s.is_none()).unwrap_or(model.len());
            assert_eq!(i, expected);
            if i == model.len() {
                model.push(Some(v));
            } else {
                model[i] = Some(v);
            }
        }
        let count = model.iter().filter(|s| s.is_some()).count() as u32;
        let free = model.len() as u32 - count;
        assert_eq!(c.len(), count);
        match c.state() {
            CollectionState::Empty => assert!(model.is_empty()),
            CollectionState::Full(n) => {
                assert_eq!(n, count);
                assert_eq!(free, 0);
            }
            CollectionState::NotFull(n, f) => {
                assert_eq!(n, count);
                assert_eq!(f, free);
                assert!(f >= 1);
            }
        }
        let expected: Vec<u8> = model.iter().filter_map(|s| *s).collect();
        assert_eq!(c.values(), expected);
    }
}

#[test]
fn every_traversal_skips_vacant_slots_in_order() {
    let mut c = Collection::new();
    for v in 1..=5u8 {
        c.add(v);
    }
    assert_eq!(c.take(1), Ok(2));
    assert_eq!(c.take(3), Ok(4));
    assert_eq!(shared_values(&c), vec![1, 3, 5]);
    assert_eq!(c.values(), vec![1, 3, 5]);

    let mut seen = Vec::new();
    let mut it = c.iter_mut();
    while let Some(v) = it.next() {
        seen.push(*v);
    }
    assert_eq!(seen, vec![1, 3, 5]);

    let mut owned = Vec::new();
    let mut it = c.into_iter();
    while let Some(v) = it.next() {
        owned.push(v);
    }
    assert_eq!(owned, vec![1, 3, 5]);
}

#[test]
fn traversal_of_new_collection_is_empty() {
    let c = Collection::new();
    assert_eq!(shared_values(&c), Vec::<u8>::new());
    assert_eq!(c.values(), Vec::<u8>::new());
    let mut it = c.into_iter();
    assert_eq!(it.next(), None);
    assert_eq!(it.next(), None);
}

#[test]
fn traversal_after_removing_everything_is_empty() {
    let mut c = Collection::new();
    c.add(1);
    c.add(2);
    assert!(c.take(0).is_ok());
    assert!(c.take(1).is_ok());
    assert_eq!(shared_values(&c), Vec::<u8>::new());
    let mut it = c.iter_mut();
    assert!(it.next().is_none());
}

#[test]
fn double_take_is_rejected() {
    let mut c = Collection::new();
    c.add(10);
    c.add(20);
    let first = c.take(1);
    assert_eq!(first, Ok(20));
    assert_eq!(c.take(1), Err(TakeError::Vacant));
    assert_eq!(first, Ok(20));
    assert_eq!(c.len(), 1);
    assert_eq!(c.state(), CollectionState::NotFull(1, 1));
}

#[test]
fn out_of_bounds_take_is_rejected() {
    let mut c = Collection::new();
    c.add(1);
    c.add(2);
    c.add(3);
    assert_eq!(c.take(100), Err(TakeError::OutOfBounds));
    assert_eq!(c.take(3), Err(TakeError::OutOfBounds));
    assert_eq!(c.len(), 3);
    assert_eq!(c.state(), CollectionState::Full(3));
    assert_eq!(c.values(), vec![1, 2, 3]);
}

#[test]
fn take_from_new_collection_is_rejected() {
    let mut c = Collection::new();
    assert_eq!(c.take(0), Err(TakeError::OutOfBounds));
    assert_eq!(c.state(), CollectionState::Empty);
}

#[test]
fn exclusive_traversal_changes_each_value_once() {
    let mut c = Collection::new();
    for v in [1u8, 2, 3, 4, 5] {
        c.add(v);
    }
    assert!(c.take(0).is_ok());
    assert!(c.take(2).is_ok());
    let mut visits = 0;
    let mut it = c.iter_mut();
    while let Some(v) = it.next() {
        *v += 1;
        visits += 1;
    }
    assert_eq!(visits, 3);
    assert_eq!(c.values(), vec![3, 5, 6]);
    assert_eq!(c[0], None);
    assert_eq!(c[2], None);
    assert_eq!(c.len(), 3);
}

#[test]
fn insert_remove_insert_round_trip() {
    let mut c = Collection::new();
    c.add(10);
    c.add(20);
    c.add(30);
    assert_eq!(c.take(1), Ok(20));
    assert_eq!(c.add(40), 1);
    assert_eq!(c.values(), vec![10, 40, 30]);
    assert_eq!(c.len(), 3);
}

#[test]
fn checked_access() {
    let mut c = Collection::new();
    c.add(4);
    c.add(5);
    assert!(c.take(0).is_ok());
    assert_eq!(c.get(0), None);
    assert_eq!(c.get(1), Some(&5));
    assert_eq!(c.get(2), None);
    assert_eq!(c.get(usize::MAX), None);
    assert!(c.get_mut(0).is_none());
    assert!(c.get_mut(2).is_none());
    if let Some(v) = c.get_mut(1) {
        *v = 9;
    }
    assert_eq!(c.get(1), Some(&9));
    assert_eq!(c.state(), CollectionState::NotFull(1, 1));
    assert_eq!(c.len_slots(), 2);
}


#[test]
fn exclusive_traversal_writes_land_in_the_collection() {
    let mut c = Collection::new();
    c.add(1);
    c.add(2);
    c.add(3);
    assert_eq!(c.take(1), Ok(2));
    let before = c.state();
    let mut it = c.iter_mut();
    while let Some(x) = it.next() {
        *x += 1;
    }
    assert_eq!(c[0], Some(2));
    assert_eq!(c[1], None);
    assert_eq!(c[2], Some(4));
    assert_eq!(c.len(), 2);
    assert_eq!(c.state(), before);
}
