use std::collections::VecDeque;
use std::sync::atomic::{AtomicUsize, Ordering};
use std::sync::Arc;

use deadpool::array_queue::{ArrayQueue, Flow, Pause};

#[test]
fn starts_empty() {
    let mut q: ArrayQueue<u32> = ArrayQueue::new(4);
    assert_eq!(q.capacity(), 4);
    assert_eq!(q.len(), 0);
    assert_eq!(q.head(), 0);
    assert_eq!(q.tail(), 0);
    assert_eq!(q.pop(), None);
    assert_eq!(q.len(), 0);
}

#[test]
fn push_then_pop_gives_the_value_back() {
    let mut q = ArrayQueue::new(1);
    assert_eq!(q.push_blocking(7u8), Ok(()));
    assert_eq!(q.len(), 1);
    assert_eq!(q.pop(), Some(7));
    assert_eq!(q.len(), 0);
    assert_eq!(q.pop(), None);
}

#[test]
fn first_in_first_out() {
    let mut q = ArrayQueue::new(3);
    assert_eq!(q.push_blocking('a'), Ok(()));
    assert_eq!(q.push_blocking('b'), Ok(()));
    assert_eq!(q.push_blocking('c'), Ok(()));
    assert_eq!(q.pop(), Some('a'));
    assert_eq!(q.push_blocking('d'), Ok(()));
    assert_eq!(q.pop(), Some('b'));
    assert_eq!(q.pop(), Some('c'));
    assert_eq!(q.pop(), Some('d'));
    assert_eq!(q.pop(), None);
}

#[test]
fn full_queue_hands_the_value_back() {
    let mut q = ArrayQueue::new(2);
    assert_eq!(q.push_blocking(1), Ok(()));
    assert_eq!(q.push_blocking(2), Ok(()));
    assert_eq!(q.len(), 2);
    assert_eq!(q.push_blocking(3), Err(3));
    assert_eq!(q.len(), 2);
    assert_eq!(q.pop(), Some(1));
    assert_eq!(q.push_blocking(3), Ok(()));
    assert_eq!(q.push_blocking(4), Err(4));
    assert_eq!(q.pop(), Some(2));
    assert_eq!(q.pop(), Some(3));
}

#[test]
fn stamps_pack_lap_and_index() {
    // Two slots: one lap is four.
    let mut q = ArrayQueue::new(2);
    assert_eq!(q.tail(), 0);
    q.push_blocking(()).unwrap();
    assert_eq!(q.tail(), 1);
    q.push_blocking(()).unwrap();
    assert_eq!(q.tail(), 4);
    assert_eq!(q.head(), 0);
    q.pop().unwrap();
    assert_eq!(q.head(), 1);
    q.pop().unwrap();
    assert_eq!(q.head(), 4);
    q.push_blocking(()).unwrap();
    assert_eq!(q.tail(), 5);

    // Five slots: one lap is eight.
    let mut q = ArrayQueue::new(5);
    for _ in 0..5 {
        q.push_blocking(()).unwrap();
    }
    assert_eq!(q.tail(), 8);
    for _ in 0..5 {
        q.pop().unwrap();
    }
    assert_eq!(q.head(), 8);

    // Four slots: four is a power of two, so one lap is eight.
    let mut q = ArrayQueue::new(4);
    for _ in 0..4 {
        q.push_blocking(()).unwrap();
    }
    assert_eq!(q.tail(), 8);
}

#[test]
fn len_in_every_position() {
    let mut q = ArrayQueue::new(3);
    for start in 0..7 {
        for fill in 0..=3 {
            for i in 0..fill {
                assert_eq!(q.len(), i);
                q.push_blocking(start * 10 + i).unwrap();
            }
            assert_eq!(q.len(), fill);
            for i in 0..fill {
                assert_eq!(q.pop(), Some(start * 10 + i));
                assert_eq!(q.len(), fill - i - 1);
            }
        }
        // move the head on by one
        q.push_blocking(0).unwrap();
        q.pop().unwrap();
    }
}

#[test]
fn many_laps() {
    let mut q = ArrayQueue::new(3);
    let mut next_in = 0u32;
    let mut next_out = 0u32;
    for round in 0..10_000u32 {
        let pushes = round % 4;
        for _ in 0..pushes {
            if q.push_blocking(next_in).is_ok() {
                next_in += 1;
            }
        }
        let pops = (round / 4) % 3 + 1;
        for _ in 0..pops {
            if let Some(v) = q.pop() {
                assert_eq!(v, next_out);
                next_out += 1;
            }
        }
        assert_eq!(q.len() as u32, next_in - next_out);
        assert!(q.len() <= q.capacity());
    }
}

#[test]
fn behaves_like_a_bounded_deque() {
    let mut q = ArrayQueue::new(5);
    let mut model: VecDeque<u64> = VecDeque::new();
    let mut pushed = Vec::new();
    let mut popped = Vec::new();
    let mut seed = 0x2545_f491_4f6c_dd1du64;
    for _ in 0..20_000 {
        seed ^= seed << 13;
        seed ^= seed >> 7;
        seed ^= seed << 17;
        if seed % 3 != 0 {
            let res = q.push_blocking(seed);
            if model.len() < 5 {
                assert_eq!(res, Ok(()));
                model.push_back(seed);
                pushed.push(seed);
            } else {
                assert_eq!(res, Err(seed));
            }
        } else {
            let got = q.pop();
            assert_eq!(got, model.pop_front());
            if let Some(v) = got {
                popped.push(v);
            }
        }
        assert_eq!(q.len(), model.len());
    }
    assert!(popped.len() <= pushed.len());
    let rest = q.into_vec();
    popped.extend(rest);
    assert_eq!(popped, pushed);
}

#[test]
fn push_at_an_outdated_tail() {
    let mut q = ArrayQueue::new(2);
    let old_tail = q.tail();
    q.push_blocking(10).unwrap();

    // The slot was written for the position before: wait for its owner.
    assert!(matches!(
        q.try_push(old_tail, 11),
        Flow::Continue(Pause::Yield, None, 11)
    ));
    // The slot of a later position is free, but the tail is not there yet.
    let mut fresh: ArrayQueue<i32> = ArrayQueue::new(2);
    assert!(matches!(
        fresh.try_push(1, 5),
        Flow::Continue(Pause::Spin, Some(0), 5)
    ));
    assert_eq!(fresh.len(), 0);

    q.push_blocking(12).unwrap();
    // Full: the slot at the tail still holds the value of the lap before.
    let tail = q.tail();
    assert_eq!(tail, 4);
    assert!(matches!(q.try_push(tail, 13), Flow::Break(Err(13))));
    // One position further the slot is taken too, but the head is elsewhere.
    assert!(matches!(
        q.try_push(5, 14),
        Flow::Continue(Pause::Spin, None, 14)
    ));
    assert_eq!(q.len(), 2);
    assert_eq!(q.pop(), Some(10));
    // Now the attempt at the current tail is claimed.
    assert!(matches!(q.try_push(tail, 13), Flow::Break(Ok(()))));
    assert_eq!(q.pop(), Some(12));
    assert_eq!(q.pop(), Some(13));
}

#[test]
fn pop_at_an_outdated_head() {
    let mut q: ArrayQueue<i32> = ArrayQueue::new(2);
    // Empty at the current head.
    assert!(matches!(q.try_pop(0), Flow::Break(None)));
    // A free slot further on, while the tail is elsewhere.
    assert!(matches!(
        q.try_pop(1),
        Flow::Continue(Pause::Spin, None, ())
    ));

    q.push_blocking(1).unwrap();
    q.push_blocking(2).unwrap();
    // The slot of the second value holds it, but the head is not there yet.
    assert!(matches!(
        q.try_pop(1),
        Flow::Continue(Pause::Spin, Some(0), ())
    ));
    assert_eq!(q.len(), 2);
    assert!(matches!(q.try_pop(0), Flow::Break(Some(1))));
    // The slot was emptied for the next lap.
    assert!(matches!(
        q.try_pop(0),
        Flow::Continue(Pause::Yield, None, ())
    ));
    assert_eq!(q.len(), 1);
    let head = q.head();
    assert_eq!(head, 1);
    assert!(matches!(q.try_pop(head), Flow::Break(Some(2))));
    assert!(matches!(q.try_pop(q.head()), Flow::Break(None)));
}

#[test]
fn into_vec_keeps_the_order() {
    let mut q = ArrayQueue::new(4);
    for v in 0..4 {
        q.push_blocking(v).unwrap();
    }
    q.pop().unwrap();
    q.pop().unwrap();
    q.push_blocking(4).unwrap();
    q.push_blocking(5).unwrap();
    // the values now wrap around the end of the ring
    assert_eq!(q.into_vec(), vec![2, 3, 4, 5]);

    let q: ArrayQueue<u8> = ArrayQueue::new(3);
    assert_eq!(q.into_vec(), Vec::<u8>::new());
}

struct Counted(Arc<AtomicUsize>);

impl Drop for Counted {
    fn drop(&mut self) {
        self.0.fetch_add(1, Ordering::SeqCst);
    }
}

#[test]
fn every_value_is_dropped_once() {
    let drops = Arc::new(AtomicUsize::new(0));
    {
        let mut q = ArrayQueue::new(4);
        for _ in 0..4 {
            assert!(q.push_blocking(Counted(drops.clone())).is_ok());
        }
        // a value that the full queue hands back is dropped by the caller
        assert!(q.push_blocking(Counted(drops.clone())).is_err());
        assert_eq!(drops.load(Ordering::SeqCst), 1);
        drop(q.pop());
        assert_eq!(drops.load(Ordering::SeqCst), 2);
        assert!(q.push_blocking(Counted(drops.clone())).is_ok());
        assert_eq!(drops.load(Ordering::SeqCst), 2);
    }
    // the queue held four values when it went
    assert_eq!(drops.load(Ordering::SeqCst), 6);

    let drops = Arc::new(AtomicUsize::new(0));
    let mut q = ArrayQueue::new(3);
    for _ in 0..3 {
        assert!(q.push_blocking(Counted(drops.clone())).is_ok());
    }
    drop(q.pop());
    let rest = q.into_vec();
    assert_eq!(rest.len(), 2);
    assert_eq!(drops.load(Ordering::SeqCst), 1);
    drop(rest);
    assert_eq!(drops.load(Ordering::SeqCst), 3);
}

#[test]
fn pauses_turn_into_yields_after_six_attempts() {
    for step in 0..=6 {
        assert!(!Pause::Yield.gives_way(step));
        assert!(!Pause::Spin.gives_way(step));
    }
    assert!(Pause::Yield.gives_way(7));
    assert!(Pause::Yield.gives_way(usize::MAX));
    assert!(!Pause::Spin.gives_way(7));
    assert!(!Pause::Spin.gives_way(usize::MAX));
}

#[test]
fn stamps_with_and_without_a_slot() {
    // Five slots: the indices five to seven of each lap of eight are unused.
    let q: ArrayQueue<u8> = ArrayQueue::new(5);
    for lap in [0usize, 8, 16, 8 * 1000, usize::MAX - 7] {
        for index in 0..5 {
            assert!(q.has_slot(lap + index));
        }
        for index in 5..8 {
            assert!(!q.has_slot(lap + index));
        }
    }
    assert!(q.has_slot(q.head()));
    assert!(q.has_slot(q.tail()));
}

#[test]
fn one_slot_takes_a_lap_for_each_value() {
    // One slot: one lap is two, and every push starts a new lap.
    let mut q = ArrayQueue::new(1);
    for round in 0..1000usize {
        assert_eq!(q.tail(), 2 * round);
        assert_eq!(q.head(), 2 * round);
        assert!(q.has_slot(2 * round));
        assert!(!q.has_slot(2 * round + 1));
        assert_eq!(q.push_blocking(round), Ok(()));
        assert_eq!(q.push_blocking(round), Err(round));
        assert_eq!(q.len(), 1);
        assert_eq!(q.pop(), Some(round));
    }
}

#[test]
fn outdated_stamps_do_not_mislead() {
    let mut q = ArrayQueue::new(3);
    let mut model: VecDeque<u32> = VecDeque::new();
    let mut tails = vec![q.tail()];
    let mut heads = vec![q.head()];
    let mut seed = 0x1234_5678u32;
    for step in 0..20_000u32 {
        seed = seed.wrapping_mul(1_664_525).wrapping_add(1_013_904_223);
        let age = (seed >> 8) as usize % 40;
        if seed >> 31 == 0 {
            let tail = tails[tails.len().saturating_sub(1 + age)];
            let was_current = tail == q.tail();
            match q.try_push(tail, step) {
                Flow::Break(Ok(())) => {
                    assert!(was_current);
                    assert!(model.len() < 3);
                    model.push_back(step);
                }
                Flow::Break(Err(back)) => {
                    assert_eq!(back, step);
                    assert_eq!(model.len(), 3);
                }
                Flow::Continue(_, next, back) => {
                    assert!(!was_current);
                    assert_eq!(back, step);
                    if let Some(next) = next {
                        assert_eq!(next, q.tail());
                    }
                }
            }
        } else {
            let head = heads[heads.len().saturating_sub(1 + age)];
            let was_current = head == q.head();
            match q.try_pop(head) {
                Flow::Break(Some(value)) => {
                    assert!(was_current);
                    assert_eq!(Some(value), model.pop_front());
                }
                Flow::Break(None) => {
                    assert!(model.is_empty());
                }
                Flow::Continue(_, next, ()) => {
                    assert!(!was_current);
                    if let Some(next) = next {
                        assert_eq!(next, q.head());
                    }
                }
            }
        }
        assert_eq!(q.len(), model.len());
        tails.push(q.tail());
        heads.push(q.head());
    }
}
