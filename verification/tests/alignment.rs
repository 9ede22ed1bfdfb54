use kan_tts::model::alignment::{align, AlignmentError};

#[test]
fn frames_are_laid_out() {
    // Two sequences of three tokens: durations 2, 0, 1 and 1, 1, 3.
    let a = align(2, 3, &vec![3, 5], &vec![2, 2, 3, 1, 2, 5]).unwrap();
    assert_eq!(a.lengths, vec![3, 5]);
    assert_eq!(a.max_length, 5);
    let mask: Vec<u8> = a.output_mask.iter().map(|&f| f as u8).collect();
    assert_eq!(mask, vec![1, 1, 1, 0, 0, 1, 1, 1, 1, 1]);
    let valid: Vec<u8> = a.valid.iter().map(|&f| f as u8).collect();
    assert_eq!(
        valid,
        vec![
            1, 1, 0, 0, 0, 1, 1, 0, 0, 0, 1, 1, 1, 0, 0, // first sequence
            1, 0, 0, 0, 0, 1, 1, 0, 0, 0, 1, 1, 1, 1, 1, // second sequence
        ]
    );
}

#[test]
fn every_frame_belongs_to_one_token() {
    let a = align(1, 4, &vec![7], &vec![3, 3, 4, 7]).unwrap();
    let tokens: Vec<Vec<usize>> = (0..7)
        .map(|t| {
            (0..4)
                .filter(|&i| {
                    let here = a.valid[i * a.max_length + t];
                    let before = i > 0 && a.valid[(i - 1) * a.max_length + t];
                    here && !before
                })
                .collect()
        })
        .collect();
    assert_eq!(
        tokens,
        vec![vec![0], vec![0], vec![0], vec![2], vec![3], vec![3], vec![3]]
    );
}

#[test]
fn every_sequence_has_a_frame() {
    let a = align(2, 1, &vec![0, -4], &vec![0, 0]).unwrap();
    assert_eq!(a.lengths, vec![1, 1]);
    assert_eq!(a.max_length, 1);
    assert_eq!(a.output_mask, vec![true, true]);
    assert_eq!(a.valid, vec![false, false]);
}

#[test]
fn no_sequences_have_no_frames() {
    let a = align(0, 3, &vec![], &vec![]).unwrap();
    assert_eq!(a.max_length, 0);
    assert!(a.lengths.is_empty() && a.output_mask.is_empty() && a.valid.is_empty());
}

#[test]
fn wrong_numbers_of_values_are_refused() {
    assert_eq!(align(2, 1, &vec![1], &vec![1, 1]).unwrap_err(), AlignmentError::Count);
    assert_eq!(align(1, 2, &vec![1], &vec![1]).unwrap_err(), AlignmentError::Count);
    assert_eq!(align(usize::MAX, 2, &vec![], &vec![]).unwrap_err(), AlignmentError::Count);
}

#[test]
fn too_many_frames_are_refused() {
    let sums = vec![i64::MAX, 1, 1];
    let ends = vec![1, 1, 1];
    assert_eq!(align(3, 1, &sums, &ends).unwrap_err(), AlignmentError::Size);
}
