use concurrent_arena::ArenaArc;

use rayon::iter::IndexedParallelIterator;
use rayon::iter::IntoParallelIterator;
use rayon::iter::IntoParallelRefIterator;
use rayon::iter::ParallelIterator;
use std::sync::atomic::AtomicUsize;
use std::sync::atomic::Ordering;
use triomphe::Arc;

type Bucket<T> = concurrent_arena::bucket::Bucket<T, 1, 64>;

/// Counts how often it is dropped.
struct Counted {
    id: u32,
    drops: std::sync::Arc<AtomicUsize>,
}

impl Drop for Counted {
    fn drop(&mut self) {
        self.drops.fetch_add(1, Ordering::SeqCst);
    }
}

#[test]
fn test_basic() {
    let bucket: Arc<Bucket<u32>> = Arc::new(Bucket::new());

    let arcs: Vec<_> = (0..64)
        .into_par_iter()
        .map(|i| {
            let arc = Bucket::try_insert(&bucket, 0, i).unwrap();

            assert_eq!(ArenaArc::strong_count(&arc), 1);
            assert_eq!(*arc, i);

            arc
        })
        .collect();

    assert!(Bucket::try_insert(&bucket, 0, 0).is_err());

    for (i, each) in arcs.iter().enumerate() {
        assert_eq!((**each) as usize, i);
    }

    let arcs_get: Vec<_> = (&arcs)
        .into_par_iter()
        .enumerate()
        .map(|(i, orig_arc)| {
            let arc = Bucket::get(Arc::clone(&bucket), 0, ArenaArc::index(orig_arc)).unwrap();

            assert_eq!(ArenaArc::strong_count(&arc), 2);
            assert_eq!(*arc as usize, i);

            arc
        })
        .collect();

    for (i, each) in arcs_get.iter().enumerate() {
        assert_eq!((**each) as usize, i);
    }
}

#[test]
fn test_clone() {
    let bucket: Arc<Bucket<u32>> = Arc::new(Bucket::new());

    let arcs: Vec<_> = (0..64)
        .into_par_iter()
        .map(|i| {
            let arc = Bucket::try_insert(&bucket, 0, i).unwrap();

            assert_eq!(ArenaArc::strong_count(&arc), 1);
            assert_eq!(*arc, i);

            arc
        })
        .collect();

    let arcs_cloned: Vec<_> = arcs
        .iter()
        .map(|arc| {
            let new_arc = ArenaArc::try_clone(arc).unwrap();
            assert_eq!(ArenaArc::strong_count(&new_arc), 2);
            assert_eq!(ArenaArc::strong_count(arc), 2);

            new_arc
        })
        .collect();

    drop(arcs);
    drop(bucket);

    // The bucket is dropped, but as long as the handles are alive, the
    // values are kept alive.
    for (i, each) in arcs_cloned.iter().enumerate() {
        assert_eq!((**each) as usize, i);
    }
}

#[test]
fn test_reuse() {
    let bucket: Arc<Bucket<u32>> = Arc::new(Bucket::new());

    let mut arcs: Vec<_> = (0..64)
        .into_par_iter()
        .map(|i| {
            let arc = Bucket::try_insert(&bucket, 0, i).unwrap();

            assert_eq!(ArenaArc::strong_count(&arc), 1);
            assert_eq!(*arc, i);

            arc
        })
        .collect();

    for arc in arcs.drain(arcs.len() / 2..) {
        assert_eq!(ArenaArc::strong_count(&arc), 1);
        let new_arc = Bucket::remove(bucket.clone(), 0, ArenaArc::index(&arc)).unwrap();
        assert_eq!(ArenaArc::strong_count(&arc), 1);

        assert!(ArenaArc::is_removed(&new_arc));

        drop(new_arc);
        assert_eq!(ArenaArc::strong_count(&arc), 1);
    }

    let new_arcs: Vec<_> = (64..64 + 32)
        .into_par_iter()
        .map(|i| {
            let arc = Bucket::try_insert(&bucket, 0, i).unwrap();

            assert_eq!(ArenaArc::strong_count(&arc), 1);
            assert_eq!(*arc, i);

            arc
        })
        .collect();

    assert!(Bucket::try_insert(&bucket, 0, 0).is_err());

    arcs.into_par_iter().enumerate().for_each(|(i, each)| {
        assert_eq!((*each) as usize, i);
    });

    new_arcs.into_par_iter().zip(64..64 + 32).for_each(|(each, i)| {
        assert_eq!((*each) as usize, i);
    });
}

#[test]
fn test_reuse2() {
    let bucket: Arc<Bucket<u32>> = Arc::new(Bucket::new());

    let mut arcs: Vec<_> = (0..64)
        .into_par_iter()
        .map(|i| {
            let arc = Bucket::try_insert(&bucket, 0, i).unwrap();

            assert_eq!(ArenaArc::strong_count(&arc), 1);
            assert_eq!(*arc, i);

            arc
        })
        .collect();

    for arc in arcs.drain(arcs.len() / 2..) {
        let second = ArenaArc::try_clone(&arc).unwrap();
        assert_eq!(ArenaArc::strong_count(&arc), 2);
        assert!(ArenaArc::remove(&arc));
        assert!(ArenaArc::is_removed(&arc));
        assert!(ArenaArc::is_removed(&second));
        assert_eq!(ArenaArc::strong_count(&arc), 1);
        drop(second);
    }

    let new_arcs: Vec<_> = (64..64 + 32)
        .into_par_iter()
        .map(|i| {
            let arc = Bucket::try_insert(&bucket, 0, i).unwrap();

            assert_eq!(ArenaArc::strong_count(&arc), 1);
            assert_eq!(*arc, i);

            arc
        })
        .collect();

    arcs.into_par_iter().enumerate().for_each(|(i, each)| {
        assert_eq!((*each) as usize, i);
    });

    new_arcs.into_par_iter().zip(64..64 + 32).for_each(|(each, i)| {
        assert_eq!((*each) as usize, i);
    });
}

#[test]
fn test_concurrent_remove() {
    let bucket: Arc<Bucket<u32>> = Arc::new(Bucket::new());

    let arcs: Vec<_> = (0..64)
        .into_par_iter()
        .map(|i| {
            let arc = Bucket::try_insert(&bucket, 0, i).unwrap();

            assert_eq!(ArenaArc::strong_count(&arc), 1);
            assert_eq!(*arc, i);

            arc
        })
        .collect();

    arcs.into_par_iter().for_each(|arc| {
        assert_eq!(ArenaArc::strong_count(&arc), 1);
        let new_arc = Bucket::remove(bucket.clone(), 0, ArenaArc::index(&arc)).unwrap();
        assert!(ArenaArc::is_removed(&new_arc));
        assert_eq!(ArenaArc::strong_count(&arc), 1);

        drop(new_arc);
        assert_eq!(ArenaArc::strong_count(&arc), 1);
    });
}

#[test]
fn test_concurrent_remove2() {
    let bucket: Arc<Bucket<u32>> = Arc::new(Bucket::new());

    let arcs: Vec<_> = (0..64)
        .into_par_iter()
        .map(|i| {
            let arc = Bucket::try_insert(&bucket, 0, i).unwrap();

            assert_eq!(ArenaArc::strong_count(&arc), 1);
            assert_eq!(*arc, i);

            arc
        })
        .collect();

    arcs.into_par_iter().for_each(|arc| {
        let second = ArenaArc::try_clone(&arc).unwrap();
        assert_eq!(ArenaArc::strong_count(&arc), 2);
        assert!(ArenaArc::remove(&arc));
        assert!(ArenaArc::is_removed(&arc));
        assert_eq!(ArenaArc::strong_count(&arc), 1);
        assert!(!ArenaArc::remove(&second));
    });
}

#[test]
fn bucket_realworld_test() {
    let bucket: Arc<Bucket<parking_lot::Mutex<u32>>> = Arc::new(Bucket::new());

    (0..64).into_par_iter().for_each(|i| {
        let arc = Bucket::try_insert(&bucket, 0, parking_lot::Mutex::new(i)).unwrap();

        assert_eq!(ArenaArc::strong_count(&arc), 1);
        assert_eq!(*arc.lock(), i);

        let arc_cloned = ArenaArc::try_clone(&arc).unwrap();

        let f = move |mut guard: parking_lot::MutexGuard<'_, u32>| {
            if *guard == i {
                *guard = i + 1;
            } else if *guard == i + 1 {
                *guard = i + 2;
            } else {
                panic!("");
            }
        };

        rayon::join(|| f(arc_cloned.lock()), || f(arc.lock()));

        assert_eq!(*arc.lock(), i + 2);
    });
}

#[test]
fn handle_of_a_removal_does_not_count() {
    let bucket: Arc<Bucket<u32>> = Arc::new(Bucket::new());
    let kept = Bucket::try_insert(&bucket, 0, 12).unwrap();
    let removed = Bucket::remove(bucket.clone(), 0, 0).unwrap();
    assert_eq!(*removed, 12);
    assert_eq!(ArenaArc::slot(&removed), 0);
    assert!(ArenaArc::is_removed(&removed));
    assert!(ArenaArc::is_removed(&kept));
    assert_eq!(ArenaArc::strong_count(&kept), 1);
    assert!(!ArenaArc::remove(&removed));
    assert!(!ArenaArc::remove(&kept));
    let copy = ArenaArc::try_clone(&removed).unwrap();
    assert_eq!(*copy, 12);
    assert!(ArenaArc::is_removed(&copy));
    assert_eq!(ArenaArc::strong_count(&kept), 1);
    let counted = ArenaArc::try_clone(&kept).unwrap();
    assert_eq!(ArenaArc::strong_count(&kept), 2);
    drop(copy);
    drop(removed);
    assert_eq!(ArenaArc::strong_count(&kept), 2);
    drop(counted);
    assert_eq!(ArenaArc::strong_count(&kept), 1);
    assert!(Bucket::get(bucket.clone(), 0, 0).is_none());
    assert!(Bucket::remove(bucket.clone(), 0, 0).is_none());
    drop(kept);
    let next = Bucket::try_insert(&bucket, 0, 13).unwrap();
    assert_eq!(ArenaArc::index(&next), 0);
    assert!(!ArenaArc::is_removed(&next));
    assert_eq!(*Bucket::get(bucket.clone(), 0, 0).unwrap(), 13);
}

#[test]
fn handle_that_removed_lives_on() {
    let bucket: Arc<Bucket<u32>> = Arc::new(Bucket::new());
    let first = Bucket::try_insert(&bucket, 0, 30).unwrap();
    let second = ArenaArc::try_clone(&first).unwrap();
    assert!(ArenaArc::remove(&first));
    assert!(!ArenaArc::remove(&first));
    assert!(!ArenaArc::remove(&second));
    assert_eq!(ArenaArc::strong_count(&second), 1);
    drop(second);
    assert_eq!(*first, 30);
    assert!(ArenaArc::is_removed(&first));
    let next = Bucket::try_insert(&bucket, 0, 31).unwrap();
    assert_eq!(ArenaArc::index(&next), 0);
    drop(first);
    assert_eq!(ArenaArc::strong_count(&next), 1);
    assert_eq!(*Bucket::get(bucket.clone(), 0, 0).unwrap(), 31);
}

#[test]
fn remove_through_the_only_handle_is_refused() {
    let bucket: Arc<Bucket<u32>> = Arc::new(Bucket::new());
    let arc = Bucket::try_insert(&bucket, 0, 7).unwrap();
    assert!(!ArenaArc::remove(&arc));
    assert!(!ArenaArc::is_removed(&arc));
    assert_eq!(ArenaArc::strong_count(&arc), 1);
    assert_eq!(*Bucket::get(bucket.clone(), 0, ArenaArc::index(&arc)).unwrap(), 7);
}

#[test]
fn slot_names_bucket_and_entry() {
    let bucket: Arc<Bucket<u32>> = Arc::new(Bucket::new());
    let first = Bucket::try_insert(&bucket, 3, 10).unwrap();
    let second = Bucket::try_insert(&bucket, 3, 11).unwrap();
    assert_eq!(ArenaArc::index(&first), 0);
    assert_eq!(ArenaArc::slot(&first), 192);
    assert_eq!(ArenaArc::index(&second), 1);
    assert_eq!(ArenaArc::slot(&second), 193);
    let again = Bucket::get(bucket.clone(), 3, 1).unwrap();
    assert_eq!(ArenaArc::slot(&again), 193);
    assert_eq!(*again, 11);
}

#[test]
fn bucket_beyond_the_limit_takes_nothing() {
    let bucket: Arc<Bucket<u32>> = Arc::new(Bucket::new());
    assert_eq!(Bucket::try_insert(&bucket, 67108863, 5).err(), Some(5));
    assert_eq!(Bucket::try_insert(&bucket, u32::MAX, 6).err(), Some(6));
    let last = Bucket::try_insert(&bucket, 67108862, 7).unwrap();
    assert_eq!(ArenaArc::slot(&last), 4294967168);
    assert!(Bucket::get(bucket.clone(), 67108864, 0).is_none());
    assert!(Bucket::remove(bucket.clone(), 67108864, 0).is_none());
}

#[test]
fn entry_outside_the_bucket_is_absent() {
    let bucket: Arc<Bucket<u32>> = Arc::new(Bucket::new());
    let _kept = Bucket::try_insert(&bucket, 0, 1).unwrap();
    assert!(Bucket::get(bucket.clone(), 0, 64).is_none());
    assert!(Bucket::get(bucket.clone(), 0, u32::MAX).is_none());
    assert!(Bucket::remove(bucket.clone(), 0, 64).is_none());
    assert!(Bucket::get(bucket.clone(), 0, 1).is_none());
    assert!(Bucket::remove(bucket.clone(), 0, 1).is_none());
}

#[test]
fn clone_stops_at_the_limit() {
    let bucket: Arc<Bucket<u32>> = Arc::new(Bucket::new());
    let first = Bucket::try_insert(&bucket, 0, 9).unwrap();
    let mut handles = Vec::new();
    for count in 2..=127u8 {
        let next = ArenaArc::try_clone(&first).unwrap();
        assert_eq!(ArenaArc::strong_count(&next), count);
        handles.push(next);
    }
    assert_eq!(ArenaArc::strong_count(&first), concurrent_arena::MAX_REFCNT);
    assert!(ArenaArc::try_clone(&first).is_none());
    assert!(Bucket::get(bucket.clone(), 0, 0).is_none());
    assert_eq!(ArenaArc::strong_count(&first), 127);
    handles.pop();
    assert_eq!(ArenaArc::strong_count(&first), 126);
    let again = ArenaArc::try_clone(&first).unwrap();
    assert_eq!(*again, 9);
    assert_eq!(ArenaArc::strong_count(&first), 127);
}

#[test]
fn handle_of_a_removal_clones_at_the_limit() {
    let bucket: Arc<Bucket<u32>> = Arc::new(Bucket::new());
    let first = Bucket::try_insert(&bucket, 0, 9).unwrap();
    let mut handles = Vec::new();
    for _ in 2..=127u8 {
        handles.push(ArenaArc::try_clone(&first).unwrap());
    }
    assert_eq!(ArenaArc::strong_count(&first), 127);
    assert!(ArenaArc::try_clone(&first).is_none());
    let removed = Bucket::remove(bucket.clone(), 0, 0).unwrap();
    assert_eq!(ArenaArc::strong_count(&first), 127);
    let copy = ArenaArc::try_clone(&removed).unwrap();
    assert_eq!(*copy, 9);
    assert!(ArenaArc::is_removed(&copy));
    assert!(!ArenaArc::remove(&copy));
    assert_eq!(ArenaArc::strong_count(&first), 127);
    assert!(ArenaArc::try_clone(&first).is_none());
    drop(copy);
    drop(removed);
    assert_eq!(ArenaArc::strong_count(&first), 127);
}

#[test]
fn value_is_dropped_once_with_its_last_handle() {
    let drops = std::sync::Arc::new(AtomicUsize::new(0));
    let bucket: Arc<Bucket<Counted>> = Arc::new(Bucket::new());
    let first = Bucket::try_insert(&bucket, 0, Counted { id: 4, drops: drops.clone() })
        .ok()
        .unwrap();
    let second = ArenaArc::try_clone(&first).unwrap();
    let third = Bucket::get(bucket.clone(), 0, 0).unwrap();
    assert_eq!(ArenaArc::strong_count(&first), 3);
    drop(first);
    assert_eq!(drops.load(Ordering::SeqCst), 0);
    drop(second);
    assert_eq!(drops.load(Ordering::SeqCst), 0);
    assert_eq!(third.id, 4);
    assert_eq!(ArenaArc::strong_count(&third), 1);
    drop(third);
    assert_eq!(drops.load(Ordering::SeqCst), 1);
    assert!(Bucket::get(bucket.clone(), 0, 0).is_none());
    let refused = Bucket::try_insert(&bucket, u32::MAX, Counted { id: 5, drops: drops.clone() });
    assert_eq!(drops.load(Ordering::SeqCst), 1);
    drop(refused);
    assert_eq!(drops.load(Ordering::SeqCst), 2);
}

#[test]
fn handle_points_to_the_same_place() {
    let bucket: Arc<Bucket<u32>> = Arc::new(Bucket::new());
    let first = Bucket::try_insert(&bucket, 0, 21).unwrap();
    let place: &u32 = &*first;
    let second = ArenaArc::try_clone(&first).unwrap();
    let third = Bucket::get(bucket.clone(), 0, 0).unwrap();
    for value in 0..63 {
        let _other = Bucket::try_insert(&bucket, 0, value).unwrap();
    }
    assert!(std::ptr::eq(&*first, place));
    assert!(std::ptr::eq(&*second, place));
    assert!(std::ptr::eq(&*third, place));
}
