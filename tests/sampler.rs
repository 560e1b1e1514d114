use mandellib::{sample_offset_numerator, sample_order};

#[test]
fn single_sample_is_the_center() {
    assert_eq!(sample_order(1), vec![(1, 1)]);
}

#[test]
fn three_by_three_starts_in_the_middle() {
    assert_eq!(
        sample_order(3),
        vec![(2, 2), (2, 3), (3, 1), (3, 2), (3, 3), (1, 1), (1, 2), (1, 3), (2, 1)]
    );
}

#[test]
fn two_by_two_order() {
    assert_eq!(sample_order(2), vec![(2, 1), (2, 2), (1, 1), (1, 2)]);
}

#[test]
fn every_cell_is_visited_once() {
    for n in [1u8, 2, 3, 4, 7, 16, 255] {
        let mut order = sample_order(n);
        assert_eq!(order.len(), usize::from(n) * usize::from(n));
        order.sort();
        let mut expected = Vec::new();
        for i in 1..=n {
            for j in 1..=n {
                expected.push((i, j));
            }
        }
        assert_eq!(order, expected);
    }
}

#[test]
fn offsets_are_centered_and_even() {
    assert_eq!(sample_offset_numerator(1, 1), 0);
    assert_eq!(sample_offset_numerator(1, 3), -2);
    assert_eq!(sample_offset_numerator(2, 3), 0);
    assert_eq!(sample_offset_numerator(3, 3), 2);
    assert_eq!(sample_offset_numerator(1, 2), -1);
    assert_eq!(sample_offset_numerator(2, 2), 1);
    assert_eq!(sample_offset_numerator(1, 255), -254);
    assert_eq!(sample_offset_numerator(255, 255), 254);
    for n in 1..=255u8 {
        for i in 1..=n {
            assert_eq!(sample_offset_numerator(i, n), -sample_offset_numerator(n + 1 - i, n));
        }
    }
}
