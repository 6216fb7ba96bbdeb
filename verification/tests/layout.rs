use porterm::layout::{ContentId, LayoutState};

#[test]
fn initial_layout_is_identity_permutation() {
    let l = LayoutState::new();
    assert_eq!(l.slots, vec![1, 2, 3, 4]);
    assert_eq!(l.active_main_id, 1);
}

#[test]
fn promote_swaps_target_into_main() {
    let mut l = LayoutState::new();
    l.promote(3);
    assert_eq!(l.slots, vec![3, 2, 1, 4]);
    assert_eq!(l.active_main_id, 3);
}

#[test]
fn promote_current_main_is_noop() {
    let mut l = LayoutState::new();
    l.promote(1);
    assert_eq!(l.slots, vec![1, 2, 3, 4]);
    assert_eq!(l.active_main_id, 1);
}

#[test]
fn promote_absent_id_is_noop() {
    let mut l = LayoutState::new();
    l.promote(9);
    assert_eq!(l.slots, vec![1, 2, 3, 4]);
    assert_eq!(l.active_main_id, 1);
}

#[test]
fn promote_twice_restores_arrangement() {
    let mut l = LayoutState::new();
    l.promote(4);
    assert_eq!(l.slots, vec![4, 2, 3, 1]);
    assert_eq!(l.active_main_id, 4);
    l.promote(1);
    assert_eq!(l.slots, vec![1, 2, 3, 4]);
    assert_eq!(l.active_main_id, 1);
}

#[test]
fn promote_keeps_permutation() {
    let mut l = LayoutState::new();
    for id in [2usize, 4, 3, 2, 1, 4, 2] {
        l.promote(id);
        let mut seen = l.slots.clone();
        seen.sort();
        assert_eq!(seen, vec![1, 2, 3, 4]);
        assert_eq!(l.slots[0], id);
        assert_eq!(l.active_main_id, id);
    }
}

#[test]
fn content_of_each_identifier() {
    assert_eq!(ContentId::from(1usize), ContentId::Profile);
    assert_eq!(ContentId::from(2usize), ContentId::Github);
    assert_eq!(ContentId::from(3usize), ContentId::Contact);
    assert_eq!(ContentId::from(4usize), ContentId::Future);
    assert_eq!(ContentId::from(0usize), ContentId::Profile);
    assert_eq!(ContentId::from(7usize), ContentId::Profile);
}
