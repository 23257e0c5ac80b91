use pods::search::{backward_cursor, forward_cursor, occurrences_count_info, search_info, SearchInfo, SearchState};

#[test]
fn cursor_offsets() {
    assert_eq!(backward_cursor(5), 5);
    assert_eq!(backward_cursor(0), 0);
    assert_eq!(backward_cursor(-1), i32::MAX);
    assert_eq!(forward_cursor(5), 5);
    assert_eq!(forward_cursor(0), 0);
    assert_eq!(forward_cursor(-1), 0);
}

#[test]
fn origins_without_match_are_the_cursor() {
    let s = SearchState::new();
    assert_eq!(s.current(), None);
    assert_eq!(s.backward_origin(7), 7);
    assert_eq!(s.forward_origin(7), 7);
}

#[test]
fn forward_search_continues_past_match() {
    let mut s = SearchState::new();
    assert_eq!(s.finish_forward(Some((10, 14))), Some(14));
    assert_eq!(s.current(), Some((10, 14)));
    assert_eq!(s.forward_origin(14), 14);
    assert_eq!(s.forward_origin(12), 14);
    assert_eq!(s.forward_origin(20), 20);
}

#[test]
fn backward_search_continues_past_match() {
    let mut s = SearchState::new();
    assert_eq!(s.finish_backward(Some((10, 14))), Some(10));
    assert_eq!(s.backward_origin(10), 10);
    assert_eq!(s.backward_origin(12), 10);
    assert_eq!(s.backward_origin(3), 3);
}

#[test]
fn turning_around_on_a_match() {
    let mut s = SearchState::new();
    s.finish_forward(Some((10, 14)));
    assert_eq!(s.backward_origin(14), 10);
    assert_eq!(s.forward_origin(10), 14);
}

#[test]
fn no_match_clears_current() {
    let mut s = SearchState::new();
    s.finish_forward(Some((1, 2)));
    assert_eq!(s.finish_backward(None), None);
    assert_eq!(s.current(), None);
    assert_eq!(s.finish_forward(None), None);
}

#[test]
fn info_texts() {
    assert_eq!(search_info(3, Some(2)), SearchInfo::Position { current: 2, total: 3 });
    assert_eq!(search_info(3, None), SearchInfo::Position { current: 0, total: 3 });
    assert_eq!(search_info(0, Some(1)), SearchInfo::Empty);
    assert_eq!(search_info(-1, None), SearchInfo::Empty);
    assert_eq!(occurrences_count_info(4), SearchInfo::Position { current: 0, total: 4 });
    assert_eq!(occurrences_count_info(0), SearchInfo::Position { current: 0, total: 0 });
}
