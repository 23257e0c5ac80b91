//! Navigation between the matches of a text search in a source view.
//!
//! Text positions are character offsets into the buffer, as `i32`, the way
//! the text buffer numbers them; a match is the pair of the offsets of its
//! start and of its end. The search itself, and moving the cursor, are left
//! to the caller: it hands over the offsets it reads and gets back the
//! offsets to use.

use vstd::prelude::*;

verus! {

/// The offset at which a backward search looks from the cursor: the cursor
/// itself, or the largest offset (the end of the buffer) when the buffer
/// reports a negative cursor position.
pub open spec fn spec_backward_cursor(pos: i32) -> i32 {
    if pos >= 0 { pos } else { i32::MAX }
}

/// The offset at which a forward search looks from the cursor: the cursor
/// itself, or the start of the buffer when the buffer reports no positive
/// cursor position.
pub open spec fn spec_forward_cursor(pos: i32) -> i32 {
    if pos > 0 { pos } else { 0 }
}

/// Where a search starts, given the cursor and the current match: from the
/// cursor, unless the cursor lies within the current match (bounds
/// included), where a backward search starts at the match's start and a
/// forward search at its end, so that the match itself is passed over.
pub open spec fn spec_origin(current: Option<(i32, i32)>, cursor: i32, forward: bool) -> i32 {
    match current {
        Some((start, end)) => if start <= cursor && cursor <= end {
            if forward { end } else { start }
        } else {
            cursor
        },
        None => cursor,
    }
}

/// The offset of the cursor for a backward search.
pub fn backward_cursor(pos: i32) -> (r: i32)
    ensures
        r == spec_backward_cursor(pos),
{
    if pos >= 0 {
        pos
    } else {
        i32::MAX
    }
}

/// The offset of the cursor for a forward search.
pub fn forward_cursor(pos: i32) -> (r: i32)
    ensures
        r == spec_forward_cursor(pos),
{
    if pos > 0 {
        pos
    } else {
        0
    }
}

/// What the search entry shows of the matches.
#[derive(Debug, Clone, Copy, PartialEq, Eq, Structural)]
pub enum SearchInfo {
    /// Nothing.
    Empty,
    /// "`current` of `total`".
    Position { current: i32, total: i32 },
}

/// What the search entry shows when the number of matches becomes `count`:
/// none of them is current yet.
pub fn occurrences_count_info(count: i32) -> (r: SearchInfo)
    ensures
        r == (SearchInfo::Position { current: 0, total: count }),
{
    SearchInfo::Position { current: 0, total: count }
}

/// What the search entry shows after a search, given the number of matches
/// and the position among them of the current match (where there is one;
/// otherwise none is counted as current).
pub fn search_info(count: i32, current_position: Option<i32>) -> (r: SearchInfo)
    ensures
        count > 0 ==> r == (SearchInfo::Position {
            current: match current_position { Some(p) => p, None => 0 },
            total: count,
        }),
        count <= 0 ==> r == SearchInfo::Empty,
{
    if count > 0 {
        let current = match current_position {
            Some(p) => p,
            None => 0,
        };
        SearchInfo::Position { current, total: count }
    } else {
        SearchInfo::Empty
    }
}

/// The match that the last search found, if it found one.
pub struct SearchState {
    current: Option<(i32, i32)>,
}

impl SearchState {
    /// The offsets of the start and end of the current match.
    pub closed spec fn current_match(&self) -> Option<(i32, i32)> {
        self.current
    }

    /// No search has been made.
    pub fn new() -> (s: Self)
        ensures
            s.current_match() is None,
    {
        SearchState { current: None }
    }

    /// The current match.
    pub fn current(&self) -> (r: Option<(i32, i32)>)
        ensures
            r == self.current_match(),
    {
        self.current
    }

    /// Where a backward search starts from the cursor at offset `cursor`.
    pub fn backward_origin(&self, cursor: i32) -> (r: i32)
        ensures
            r == spec_origin(self.current_match(), cursor, false),
    {
        match self.current {
            Some((start, end)) => if cursor >= start && cursor <= end {
                start
            } else {
                cursor
            },
            None => cursor,
        }
    }

    /// Where a forward search starts from the cursor at offset `cursor`.
    pub fn forward_origin(&self, cursor: i32) -> (r: i32)
        ensures
            r == spec_origin(self.current_match(), cursor, true),
    {
        match self.current {
            Some((start, end)) => if cursor >= start && cursor <= end {
                end
            } else {
                cursor
            },
            None => cursor,
        }
    }

    /// Takes what a backward search found: the found match becomes the
    /// current one, and the cursor goes (and the view scrolls) to its start.
    pub fn finish_backward(&mut self, found: Option<(i32, i32)>) -> (cursor: Option<i32>)
        ensures
            final(self).current_match() == found,
            cursor == match found { Some((start, _)) => Some(start), None => None::<i32> },
    {
        self.current = found;
        match found {
            Some((start, _)) => Some(start),
            None => None,
        }
    }

    /// Takes what a forward search found: the found match becomes the
    /// current one, and the cursor goes (and the view scrolls) to its end.
    pub fn finish_forward(&mut self, found: Option<(i32, i32)>) -> (cursor: Option<i32>)
        ensures
            final(self).current_match() == found,
            cursor == match found { Some((_, end)) => Some(end), None => None::<i32> },
    {
        self.current = found;
        match found {
            Some((_, end)) => Some(end),
            None => None,
        }
    }
}

/// A forward search never starts before the cursor, a backward search never
/// after it.
pub proof fn law_origin_bounds(current: Option<(i32, i32)>, cursor: i32)
    ensures
        spec_origin(current, cursor, true) >= cursor,
        spec_origin(current, cursor, false) <= cursor,
{
}

/// Searching forward again goes past the match just found: after
/// `finish_forward` of a match, which leaves the cursor at its end, the next
/// forward search starts at that end.
pub proof fn law_forward_continues(start: i32, end: i32)
    requires
        start <= end,
    ensures
        spec_origin(Some((start, end)), end, true) == end,
{
}

/// Searching backward again goes past the match just found: after
/// `finish_backward` of a match, which leaves the cursor at its start, the
/// next backward search starts at that start.
pub proof fn law_backward_continues(start: i32, end: i32)
    requires
        start <= end,
    ensures
        spec_origin(Some((start, end)), start, false) == start,
{
}

/// Turning back at a match: with the cursor on the current match, a
/// backward search starts at its start and a forward search at its end.
pub proof fn law_turn_around(start: i32, end: i32, cursor: i32)
    requires
        start <= cursor <= end,
    ensures
        spec_origin(Some((start, end)), cursor, false) == start,
        spec_origin(Some((start, end)), cursor, true) == end,
{
}

/// A search starts at the cursor itself unless the cursor lies within the
/// current match: with no current match, or with the cursor before its start
/// or after its end, forward and backward searches both start at the cursor.
pub proof fn law_origin_outside_match(current: Option<(i32, i32)>, cursor: i32)
    requires
        current matches Some((start, end)) ==> cursor < start || cursor > end,
    ensures
        spec_origin(current, cursor, true) == cursor,
        spec_origin(current, cursor, false) == cursor,
{
}

/// Where a search starts is always the cursor, or, with the cursor within
/// the current match, the end of that match (forward) or its start
/// (backward).
pub proof fn law_origin_cases(current: Option<(i32, i32)>, cursor: i32)
    ensures
        spec_origin(current, cursor, true) == cursor || (current matches Some((start, end))
            && start <= cursor <= end && spec_origin(current, cursor, true) == end),
        spec_origin(current, cursor, false) == cursor || (current matches Some((start, end))
            && start <= cursor <= end && spec_origin(current, cursor, false) == start),
{
}

} // verus!
