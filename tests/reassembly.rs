use soft_matrix::reassembly::Reassembler;

// A fixed pseudo-random permutation of 0..n (a linear congruential shuffle).
fn shuffled(n: usize, seed: u64) -> Vec<usize> {
    let mut v: Vec<usize> = (0..n).collect();
    let mut state = seed;
    for i in (1..n).rev() {
        state = state.wrapping_mul(6364136223846793005).wrapping_add(1442695040888963407);
        let j = ((state >> 33) as usize) % (i + 1);
        v.swap(i, j);
    }
    v
}

fn ordered(r: &Reassembler<u64>) -> Vec<u64> {
    (0..r.ordered_len()).map(|i| *r.entry(i)).collect()
}

#[test]
fn out_of_order_completions_come_out_sorted() {
    for (n, seed) in [(1usize, 1u64), (17, 2), (100, 3), (257, 4)] {
        for skip_every in [1usize, 2, 5, 1000] {
            let mut r: Reassembler<u64> = Reassembler::new(4);
            for (step, index) in shuffled(n, seed).into_iter().enumerate() {
                assert!(r.insert(index, 1000 + index as u64).is_ok());
                if step % skip_every == 0 {
                    r.drain();
                }
            }
            r.drain();
            let expected: Vec<u64> = (0..n as u64).map(|i| 1000 + i).collect();
            assert_eq!(ordered(&r), expected);
            assert_eq!(r.next_index(), n);
        }
    }
}

#[test]
fn drain_stops_at_first_gap() {
    let mut r: Reassembler<u64> = Reassembler::new(2);
    r.insert(1, 11).unwrap();
    r.insert(3, 33).unwrap();
    assert_eq!(r.drain(), 0);
    r.insert(0, 0).unwrap();
    assert_eq!(r.drain(), 2);
    assert_eq!(ordered(&r), vec![0, 11]);
    assert_eq!(r.next_index(), 2);
    r.insert(2, 22).unwrap();
    assert_eq!(r.drain(), 2);
    assert_eq!(ordered(&r), vec![0, 11, 22, 33]);
}

#[test]
fn stale_and_duplicate_indices_are_refused() {
    let mut r: Reassembler<u64> = Reassembler::new(2);
    r.insert(0, 5).unwrap();
    r.drain();
    assert_eq!(r.insert(0, 6), Err(6));
    r.insert(4, 7).unwrap();
    assert_eq!(r.insert(4, 8), Err(8));
    assert_eq!(r.insert(usize::MAX, 9), Err(9));
}

#[test]
fn averaging_window_slides_one_at_a_time() {
    let mut r: Reassembler<u64> = Reassembler::new(4);
    for i in 0..5 {
        r.insert(i, i as u64 * 10).unwrap();
    }
    r.drain();
    assert!(r.window_ready());
    assert_eq!(r.window_center(), 2);
    assert_eq!(r.slide(), 0);
    assert!(r.window_ready());
    assert_eq!(r.window_center(), 3);
    assert_eq!(*r.entry(0), 10);
    assert_eq!(r.slide(), 10);
    assert!(!r.window_ready());
    assert_eq!(r.ordered_len(), 3);
}

#[test]
fn empty_reassembler_is_not_ready() {
    let mut r: Reassembler<u64> = Reassembler::new(1);
    assert!(!r.window_ready());
    assert_eq!(r.drain(), 0);
    assert_eq!(r.next_index(), 0);
}

#[test]
fn every_full_window_averaged_once_in_any_order() {
    // each completion is followed by a pass that may be skipped; a final pass ends the run
    for (n, window_size, seed) in [(30usize, 8usize, 7u64), (8, 8, 8), (5, 8, 9), (64, 1, 10)] {
        for skip_every in [1usize, 3, 1000] {
            let mut r: Reassembler<u64> = Reassembler::new(window_size);
            let mut centers = Vec::new();
            let pass = |r: &mut Reassembler<u64>, centers: &mut Vec<usize>| {
                r.drain();
                while r.window_ready() {
                    centers.push(r.window_center());
                    r.slide();
                }
            };
            for (step, index) in shuffled(n, seed).into_iter().enumerate() {
                r.insert(index, index as u64).unwrap();
                if step % skip_every == 0 {
                    pass(&mut r, &mut centers);
                }
            }
            pass(&mut r, &mut centers);
            let half = window_size / 2;
            let expected: Vec<usize> = if n >= window_size {
                (half..=n - window_size + half).collect()
            } else {
                Vec::new()
            };
            assert_eq!(centers, expected);
            assert_eq!(r.next_index(), n);
            assert_eq!(r.ordered_len(), if n >= window_size { window_size - 1 } else { n });
        }
    }
}
