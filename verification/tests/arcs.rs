use concurrent_arena::arcs::extended;
use concurrent_arena::arcs::Arcs;

use parking_lot::Mutex;
use rayon::iter::IntoParallelIterator;
use rayon::iter::ParallelIterator;
use std::sync::Arc;

#[test]
fn arcs_test() {
    let bag: Arc<Arcs<Arc<Mutex<u32>>>> = Arc::new(Arcs::new());
    assert_eq!(bag.len(), 0);
    assert!(bag.is_empty());

    {
        let slice = bag.as_slice();
        assert!(slice.is_empty());
        assert_eq!(slice.len(), 0);
    }

    bag.grow(10, Arc::default);
    {
        let slice = bag.as_slice();
        assert!(!slice.is_empty());

        for (i, arc) in slice.as_items().iter().enumerate() {
            *arc.lock() = i as u32;
        }
    }

    let bag_cloned = bag.clone();
    (0..u8::MAX).into_par_iter().for_each(move |_i| {
        bag_cloned.grow(bag_cloned.len() + 32, Arc::default);
    });

    {
        let slice = bag.as_slice();
        assert!(!slice.is_empty());

        for (i, arc) in slice.as_items().iter().take(10).enumerate() {
            *arc.lock() = i as u32;
        }
    }
}

#[test]
fn grow_keeps_what_is_there() {
    let bag: Arcs<Arc<Mutex<u32>>> = Arcs::new();
    bag.grow(3, Arc::default);
    assert_eq!(bag.len(), 3);
    let before = bag.as_slice();
    for (i, arc) in before.as_items().iter().enumerate() {
        *arc.lock() = 100 + i as u32;
    }
    bag.grow(5, || Arc::new(Mutex::new(7)));
    assert_eq!(before.len(), 3);
    let after = bag.as_slice();
    assert_eq!(after.len(), 5);
    for i in 0..3 {
        assert!(Arc::ptr_eq(&before.as_items()[i], &after.as_items()[i]));
        assert_eq!(*after.as_items()[i].lock(), 100 + i as u32);
    }
    assert_eq!(*after.as_items()[3].lock(), 7);
    assert_eq!(*after.as_items()[4].lock(), 7);
}

#[test]
fn grow_never_shrinks() {
    let bag: Arcs<Arc<u32>> = Arcs::new();
    bag.grow(0, Arc::default);
    assert!(bag.is_empty());
    bag.grow(4, Arc::default);
    assert_eq!(bag.len(), 4);
    bag.grow(2, Arc::default);
    assert_eq!(bag.len(), 4);
    bag.grow(4, Arc::default);
    assert_eq!(bag.len(), 4);
    assert_eq!(bag.try_grow(1, Arc::default), Ok(()));
    assert_eq!(bag.len(), 4);
    assert_eq!(bag.try_grow(6, Arc::default), Ok(()));
    assert_eq!(bag.len(), 6);
    assert_eq!(bag.try_grow(0, Arc::default), Ok(()));
    assert_eq!(bag.len(), 6);
}

#[test]
fn extended_copies_and_fills() {
    let old = vec![1u32, 2, 3];
    assert_eq!(extended(&old, 5, &|| 9), vec![1, 2, 3, 9, 9]);
    assert_eq!(extended(&old, 3, &|| 9), vec![1, 2, 3]);
    assert_eq!(extended(&old, 1, &|| 9), vec![1, 2, 3]);
    assert_eq!(extended(&[], 2, &|| 4u8), vec![4, 4]);
    assert_eq!(extended(&[], 0, &|| 4u8), Vec::<u8>::new());
}
