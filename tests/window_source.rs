use soft_matrix::window_source::WindowSource;

// Feeds the source from `left`/`right` until a window is available.
fn next_window(
    source: &mut WindowSource<i32>,
    left: &[i32],
    right: &[i32],
) -> Option<(usize, Vec<i32>, Vec<i32>)> {
    while let Some(i) = source.sample_to_read() {
        source.push_input(left[i], right[i]);
    }
    source.take_window()
}

#[test]
fn windows_are_centered_and_padded_with_silence() {
    let left: Vec<i32> = (1..=6).collect();
    let right: Vec<i32> = (1..=6).map(|x| -x).collect();
    let mut source = WindowSource::new(4, left.len(), 0);
    let (c, l, r) = next_window(&mut source, &left, &right).unwrap();
    assert_eq!(c, 0);
    assert_eq!(l, vec![0, 0, 1, 2]);
    assert_eq!(r, vec![0, 0, -1, -2]);
    let (c, l, _) = next_window(&mut source, &left, &right).unwrap();
    assert_eq!(c, 1);
    assert_eq!(l, vec![0, 1, 2, 3]);
    let mut last = None;
    while let Some(w) = next_window(&mut source, &left, &right) {
        last = Some(w);
    }
    let (c, l, r) = last.unwrap();
    assert_eq!(c, 5);
    assert_eq!(l, vec![4, 5, 6, 0]);
    assert_eq!(r, vec![-4, -5, -6, 0]);
    assert!(source.take_window().is_none());
}

#[test]
fn one_window_per_sample() {
    for (len, window_size) in [(1usize, 8usize), (10, 3), (33, 8), (8, 8)] {
        let left: Vec<i32> = (0..len as i32).collect();
        let mut source = WindowSource::new(window_size, len, -1);
        let mut centers = Vec::new();
        while let Some((c, l, _)) = next_window(&mut source, &left, &left) {
            assert_eq!(l.len(), window_size);
            for (p, v) in l.iter().enumerate() {
                let i = c as i64 - (window_size / 2) as i64 + p as i64;
                let expected = if i >= 0 && (i as usize) < len { i as i32 } else { -1 };
                assert_eq!(*v, expected);
            }
            centers.push(c);
        }
        assert_eq!(centers, (0..len).collect::<Vec<_>>());
    }
}

#[test]
fn silent_input_gives_silent_windows() {
    let zeros = vec![0i32; 12];
    let mut source = WindowSource::new(6, zeros.len(), 0);
    while let Some((_, l, r)) = next_window(&mut source, &zeros, &zeros) {
        assert!(l.iter().all(|&x| x == 0));
        assert!(r.iter().all(|&x| x == 0));
    }
}

#[test]
fn empty_input_has_no_window() {
    let mut source: WindowSource<i32> = WindowSource::new(4, 0, 0);
    assert_eq!(source.sample_to_read(), None);
    assert!(source.take_window().is_none());
    assert_eq!(source.len_samples(), 0);
}
