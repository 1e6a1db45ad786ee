use laya_rust::rows::{gather_rows, key_mask, marker_rows, with_features};

#[test]
fn gathering_rows_copies_them_in_order() {
    let table: Vec<u32> = (0..12).collect();
    assert_eq!(gather_rows(&table, 3, &vec![2, 0, 2]), vec![6, 7, 8, 0, 1, 2, 6, 7, 8]);
    assert_eq!(gather_rows(&table, 3, &vec![]), Vec::<u32>::new());
}

#[test]
fn markers_point_into_their_own_sequence() {
    assert_eq!(marker_rows(&[1, 3, 0, 2], 2, 5), vec![1, 3, 5, 7]);
}

#[test]
fn the_key_mask_drops_padding_and_far_keys() {
    let att = [1, 1, 0, 1, 1, 1];
    let global = key_mask(&att, 2, 3, None);
    assert_eq!(global.len(), 18);
    assert_eq!(&global[0..3], &[true, true, false]);
    assert_eq!(&global[9..12], &[true, true, true]);
    let local = key_mask(&att, 2, 3, Some(1));
    assert_eq!(&local[0..3], &[true, true, false]);
    assert_eq!(&local[9..12], &[true, true, false]);
    assert_eq!(&local[15..18], &[false, true, true]);
}

#[test]
fn features_follow_each_first_row() {
    let x: Vec<u32> = (0..12).collect();
    let feats = vec![100, 101, 200, 201];
    assert_eq!(with_features(&x, 2, 3, &feats, 2, 2), vec![0, 1, 100, 101, 6, 7, 200, 201]);
}

#[test]
fn window_mask_marks_padding_and_distant_keys() {
    let m = key_mask(&[1, 1, 0, 1], 1, 4, None);
    assert_eq!(m.len(), 16);
    for s in 0..4 {
        assert!(!m[s * 4 + 2], "row {} padding column", s);
        for t in [0, 3] {
            assert!(m[s * 4 + t], "row {} column {}", s, t);
        }
    }
    let m = key_mask(&[1, 1, 1, 1], 1, 4, Some(1));
    for s in 0..4usize {
        for t in 0..4usize {
            assert_eq!(m[s * 4 + t], s.abs_diff(t) <= 1, "window row {} col {}", s, t);
        }
    }
}

#[test]
fn embedding_copies_rows() {
    let table = vec![1.0f32, 2.0, 3.0, 4.0, 5.0, 6.0];
    assert_eq!(gather_rows(&table, 2, &vec![2, 0]), vec![5.0, 6.0, 1.0, 2.0]);
}

#[test]
fn gather_markers_picks_the_right_rows() {
    let mut data = Vec::new();
    for b in 0..2 {
        for s in 0..3 {
            data.push((b * 100 + s) as f32);
            data.push((b * 100 + s) as f32 + 0.5);
        }
    }
    let rows = marker_rows(&[2, 0, 1, 1], 2, 3);
    assert_eq!(gather_rows(&data, 2, &rows), vec![2.0, 2.5, 0.0, 0.5, 101.0, 101.5, 101.0, 101.5]);
}

#[test]
fn act_input_concatenates_first_token_with_features() {
    let x = vec![1.0f32, 2.0, 3.0, 4.0, 5.0, 6.0, 7.0, 8.0];
    let feats = vec![0.25f32, 0.75];
    assert_eq!(with_features(&x, 2, 2, &feats, 1, 2), vec![1.0, 2.0, 0.25, 5.0, 6.0, 0.75]);
}
