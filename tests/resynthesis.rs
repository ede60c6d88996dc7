use soft_matrix::resynthesis::{emission, output_file_lengths, output_location, Emission, WritePlan};

#[test]
fn first_middle_and_last_windows() {
    // 20 samples, windows of 8: centers 4 ..= 16.
    assert_eq!(emission(4, 20, 8), Emission { first_sample: 0, first_position: 0, count: 5 });
    assert_eq!(emission(9, 20, 8), Emission { first_sample: 9, first_position: 4, count: 1 });
    assert_eq!(emission(16, 20, 8), Emission { first_sample: 16, first_position: 4, count: 4 });
}

#[test]
fn single_window_writes_everything() {
    assert_eq!(emission(4, 8, 8), Emission { first_sample: 0, first_position: 0, count: 8 });
    assert_eq!(emission(2, 5, 5), Emission { first_sample: 0, first_position: 0, count: 5 });
}

#[test]
fn every_sample_written_exactly_once() {
    for (len, window_size) in [(20usize, 8usize), (8, 8), (9, 8), (101, 7), (64, 2), (5, 1)] {
        let mut plan = WritePlan::new(len, window_size, 1000);
        let mut written = vec![0u32; len];
        let mut center = window_size / 2;
        while !plan.is_complete() {
            let e = plan.write_window(center).unwrap();
            for k in 0..e.count {
                let s = e.first_sample + k;
                // position p of the window holds sample center - window_size / 2 + p
                assert_eq!(e.first_position + k + center, s + window_size / 2);
                written[s] += 1;
            }
            center += 1;
        }
        assert!(written.iter().all(|&n| n == 1));
        assert_eq!(plan.get_total_samples_written(), len);
    }
}

#[test]
fn windows_out_of_turn_are_refused() {
    let mut plan = WritePlan::new(20, 8, 7);
    assert_eq!(plan.write_window(5), None);
    assert_eq!(plan.get_total_samples_written(), 0);
    assert!(plan.write_window(4).is_some());
    assert_eq!(plan.write_window(4), None);
    assert_eq!(plan.get_total_samples_written(), 5);
}

#[test]
fn input_shorter_than_a_window_writes_nothing() {
    let mut plan = WritePlan::new(3, 8, 10);
    assert!(plan.is_complete());
    assert_eq!(plan.write_window(4), None);
    assert_eq!(plan.get_total_samples_written(), 0);
}

#[test]
fn two_and_a_half_files() {
    let cap = 1000;
    let total = 2500;
    assert_eq!(output_file_lengths(total, cap), vec![1000, 1000, 500]);
    for i in [0usize, 999, 1000, 1999, 2000, 2499] {
        assert_eq!(output_location(i, cap), (i / cap, i % cap));
    }
    assert_eq!(output_location(2499, cap), (2, 499));
    let plan = WritePlan::new(total, 8, cap);
    assert_eq!(plan.locate(1500), (1, 500));
}

#[test]
fn file_lengths_edges() {
    assert_eq!(output_file_lengths(0, 10), Vec::<usize>::new());
    assert_eq!(output_file_lengths(10, 10), vec![10]);
    assert_eq!(output_file_lengths(11, 10), vec![10, 1]);
    assert_eq!(output_file_lengths(3, 1), vec![1, 1, 1]);
}

use soft_matrix::resynthesis::OrderedWriter;

#[test]
fn ordered_writer_restores_center_order() {
    // 20 samples, windows of 8: centers 4 ..= 16, handed in back to front.
    let mut w: OrderedWriter<u32> = OrderedWriter::new(20, 8, 6);
    for center in (5..=16).rev() {
        assert!(w.submit(center, center as u32 * 100).is_ok());
        assert!(w.next_ready().is_none());
    }
    assert!(w.submit(4, 400).is_ok());
    let mut written = vec![0u32; 20];
    let mut centers = Vec::new();
    while let Some((center, item, e)) = w.next_ready() {
        assert_eq!(item, center as u32 * 100);
        centers.push(center);
        for s in e.first_sample..e.first_sample + e.count {
            written[s] += 1;
        }
    }
    assert_eq!(centers, (4..=16).collect::<Vec<_>>());
    assert!(written.iter().all(|&n| n == 1));
    assert!(w.is_complete());
    assert_eq!(w.get_total_samples_written(), 20);
    assert_eq!(w.locate(13), (2, 1));
}

#[test]
fn ordered_writer_refuses_foreign_centers() {
    let mut w: OrderedWriter<u32> = OrderedWriter::new(20, 8, 6);
    assert_eq!(w.submit(3, 1), Err(1));
    assert_eq!(w.submit(17, 2), Err(2));
    assert!(w.submit(6, 3).is_ok());
    assert_eq!(w.submit(6, 4), Err(4));
    assert!(!w.is_complete());
    let mut short: OrderedWriter<u32> = OrderedWriter::new(5, 8, 6);
    assert_eq!(short.submit(4, 5), Err(5));
    assert!(short.is_complete());
}
