use suono::history::{record_volume, AUDIO_HISTORY_LEN};
use suono::timeline::history_in_order;

#[test]
fn recording_fills_slots_in_turn() {
    let mut h = vec![0; 5];
    record_volume(&mut h, 7);
    assert_eq!(h, vec![7, 0, 0, 0, 0]);
    record_volume(&mut h, 8);
    assert_eq!(h, vec![7, 8, 0, 0, 0]);
    assert_eq!(history_in_order(&h), vec![0, 0, 0, 7, 8]);
}

#[test]
fn recording_wraps_around() {
    let mut h = vec![1, 2, 3, 0];
    record_volume(&mut h, 9);
    assert_eq!(h, vec![0, 2, 3, 9]);
    assert_eq!(history_in_order(&h), vec![0, 2, 3, 9]);
    record_volume(&mut h, 10);
    assert_eq!(h, vec![10, 0, 3, 9]);
    assert_eq!(history_in_order(&h), vec![0, 3, 9, 10]);
}

#[test]
fn history_without_marker_starts_over() {
    let mut h = vec![1, 2, 3];
    assert_eq!(history_in_order(&h), vec![1, 2, 3]);
    record_volume(&mut h, 5);
    assert_eq!(h, vec![5, 0, 3]);
}

#[test]
fn single_slot_history() {
    let mut h = vec![4];
    record_volume(&mut h, 5);
    assert_eq!(h, vec![0]);
}

#[test]
fn timeline_scrolls_by_one() {
    let mut h = vec![0; AUDIO_HISTORY_LEN];
    for v in 1..1000 {
        let before = history_in_order(&h);
        record_volume(&mut h, v);
        let after = history_in_order(&h);
        assert_eq!(after.len(), AUDIO_HISTORY_LEN);
        assert_eq!(after[0], 0);
        assert_eq!(&after[1..AUDIO_HISTORY_LEN - 1], &before[2..]);
        assert_eq!(after[AUDIO_HISTORY_LEN - 1], v);
    }
}
