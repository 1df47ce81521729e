//! Windows onto lists and texts.

#![verifier::loop_isolation(false)]

use vstd::prelude::*;

use crate::strings::{concat2, concat7, decimal_text};
use crate::text::decimal;

verus! {

broadcast use crate::text::group_text;

pub open spec fn at_least_one(n: int) -> int {
    if n < 1 {
        1
    } else {
        n
    }
}

pub open spec fn lesser(a: int, b: int) -> int {
    if a < b {
        a
    } else {
        b
    }
}

/// `a` less `b`, but never below zero.
pub open spec fn less_by(a: int, b: int) -> int {
    if a < b {
        0
    } else {
        a - b
    }
}

/// The lines that fit between the borders of a block.
pub open spec fn lines_in(height: int) -> int {
    at_least_one(less_by(height, 2))
}

pub fn block_viewport_lines(area_height: u16) -> (r: usize)
    ensures
        r == lines_in(area_height as int),
        1 <= r <= u16::MAX,
{
    if area_height > 3 {
        (area_height - 2) as usize
    } else {
        1
    }
}

/// The items of two lines each that fit into a block.
pub open spec fn items_in(height: int) -> int {
    at_least_one(lines_in(height) / 2)
}

pub fn host_list_viewport_items(area_height: u16) -> (r: usize)
    ensures
        r == items_in(area_height as int),
        1 <= r <= u16::MAX,
{
    let items: usize = block_viewport_lines(area_height) / 2;
    if items < 1 {
        1
    } else {
        items
    }
}

/// How far a page goes: one line of the page before stays.
pub open spec fn page_of(viewport: int) -> int {
    at_least_one(viewport - 1)
}

pub fn page_step(viewport: usize) -> (r: usize)
    ensures
        r == page_of(viewport as int),
{
    if viewport > 2 {
        viewport - 1
    } else {
        1
    }
}

/// How far a text can be scrolled: until its last line is the last that is shown.
pub open spec fn max_scroll(total: int, viewport: int) -> int {
    lesser(less_by(total, at_least_one(viewport)), u16::MAX as int)
}

pub fn max_scroll_offset(total_lines: usize, viewport_lines: usize) -> (r: u16)
    ensures
        r == max_scroll(total_lines as int, viewport_lines as int),
{
    let shown: usize = if viewport_lines < 1 {
        1
    } else {
        viewport_lines
    };
    if total_lines <= shown {
        0
    } else if total_lines - shown >= 65535 {
        65535
    } else {
        (total_lines - shown) as u16
    }
}

/// The first item that is shown and the one behind the last.
pub open spec fn window_of(total: int, offset: int, viewport: int) -> Option<(int, int)> {
    if total == 0 {
        None
    } else {
        let start = lesser(offset, total - 1);
        Some((start, lesser(start + at_least_one(viewport), total)))
    }
}

pub fn visible_window(total: usize, offset: usize, viewport: usize) -> (r: Option<(usize, usize)>)
    ensures
        match r {
            Some(w) => window_of(total as int, offset as int, viewport as int) == Some(
                (w.0 as int, w.1 as int),
            ) && w.0 < w.1 <= total,
            None => window_of(total as int, offset as int, viewport as int) is None,
        },
{
    if total == 0 {
        return None;
    }
    let start: usize = if offset < total - 1 {
        offset
    } else {
        total - 1
    };
    let shown: usize = if viewport < 1 {
        1
    } else {
        viewport
    };
    let end: usize = if shown < total - start {
        start + shown
    } else {
        total
    };
    Some((start, end))
}

/// Which of how many items are shown.
pub open spec fn window_text(label: Seq<char>, total: int, offset: int, viewport: int) -> Seq<char> {
    match window_of(total, offset, viewport) {
        Some((start, end)) => label + " "@ + decimal((start + 1) as nat) + "-"@ + decimal(
            end as nat,
        ) + "/"@ + decimal(total as nat),
        None => label + " 0/0"@,
    }
}

pub fn format_visible_window(label: &str, total: usize, offset: usize, viewport: usize) -> (r: String)
    ensures
        r@ == window_text(label@, total as int, offset as int, viewport as int),
{
    match visible_window(total, offset, viewport) {
        Some((start, end)) => concat7(
            label,
            " ",
            &decimal_text(start + 1),
            "-",
            &decimal_text(end),
            "/",
            &decimal_text(total),
        ),
        None => concat2(label, " 0/0"),
    }
}

/// Where the window of a list begins after the item `selected` has been chosen: where it was,
/// or so far from there that the item is the first or the last that is shown; and not
/// so far that there is room behind the last item.
pub open spec fn window_start(selected: int, offset: int, viewport: int, len: int) -> int {
    let page = at_least_one(viewport);
    let o = lesser(offset, less_by(len, page));
    if selected < o {
        selected
    } else if selected >= o + page {
        selected + 1 - page
    } else {
        o
    }
}

/// The window shows the item `selected` of a list, and no more room behind the list than
/// it must.
pub open spec fn shows(selected: int, offset: int, viewport: int, len: int) -> bool {
    &&& offset <= selected < offset + at_least_one(viewport)
    &&& 0 <= offset <= less_by(len, at_least_one(viewport))
}

/// Wherever the window was, it shows the item that was chosen.
pub proof fn law_selected_item_is_shown(selected: int, offset: int, viewport: int, len: int)
    requires
        0 <= selected < len,
        0 <= offset,
    ensures
        shows(selected, window_start(selected, offset, viewport, len), viewport, len),
{
}

/// A window that shows the chosen item stays where it is.
pub proof fn law_window_stays(selected: int, offset: int, viewport: int, len: int)
    requires
        shows(selected, offset, viewport, len),
    ensures
        window_start(selected, offset, viewport, len) == offset,
{
}

pub fn clamp_window(selected: usize, offset: usize, viewport: usize, len: usize) -> (r: usize)
    requires
        selected < len,
    ensures
        r == window_start(selected as int, offset as int, viewport as int, len as int),
        shows(selected as int, r as int, viewport as int, len as int),
{
    let page: usize = if viewport < 1 {
        1
    } else {
        viewport
    };
    let max_offset: usize = if len < page {
        0
    } else {
        len - page
    };
    let o: usize = if offset < max_offset {
        offset
    } else {
        max_offset
    };
    if selected < o {
        selected
    } else if selected - o >= page {
        selected - page + 1
    } else {
        o
    }
}

/// The place one step up or down from `current`, where the list has it.
pub open spec fn neighbour(current: int, up: bool, len: int) -> Option<int> {
    if up {
        if current > 0 {
            Some(current - 1)
        } else {
            None
        }
    } else if current + 1 < len {
        Some(current + 1)
    } else {
        None
    }
}

pub fn offset_index(current: usize, up: bool, len: usize) -> (r: Option<usize>)
    ensures
        match r {
            Some(i) => neighbour(current as int, up, len as int) == Some(i as int),
            None => neighbour(current as int, up, len as int) is None,
        },
{
    if up {
        if current > 0 {
            Some(current - 1)
        } else {
            None
        }
    } else if current < len && len - current > 1 {
        Some(current + 1)
    } else {
        None
    }
}

/// The list with the item at `from` taken out and put in at `to`.
pub open spec fn moved<T>(v: Seq<T>, from: int, to: int) -> Seq<T> {
    if from == to {
        v
    } else {
        v.remove(from).insert(to, v[from])
    }
}

pub fn move_item<T>(items: &mut Vec<T>, from: usize, to: usize)
    requires
        from < old(items)@.len(),
        to < old(items)@.len(),
    ensures
        final(items)@ == moved(old(items)@, from as int, to as int),
        final(items)@.len() == old(items)@.len(),
{
    if from == to {
        return;
    }
    let item: T = items.remove(from);
    items.insert(to, item);
}

/// An item that was moved is brought back by moving it the other way.
pub proof fn law_move_back<T>(v: Seq<T>, from: int, to: int)
    requires
        0 <= from < v.len(),
        0 <= to < v.len(),
    ensures
        moved(moved(v, from, to), to, from) == v,
{
    if from != to {
        let w = v.remove(from);
        assert(w.insert(to, v[from]).remove(to) =~= w);
        assert(w.insert(from, v[from]) =~= v);
    }
}

} // verus!
