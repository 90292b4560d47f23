//! The render pipeline: a pure projection of view state and line buffer
//! into a frame description — visible rows with centering padding, the
//! fixed mid-viewport highlight row, the match span to invert, a status
//! row for an active text-entry buffer, and the percentage indicator.
//! The surrounding terminal loop only draws what stands here.

use vstd::prelude::*;
use crate::editor::{Editor, EditorMode};
use crate::progress::{percent_round, spec_percent_round};
use vstd::string::StringExecFns;

verus! {

/// One visible row: the line's text, the leading spaces that center it,
/// whether the line highlighter covers it, and the span of the current
/// search match within it (positions in the case-folded line), if any.
pub struct RenderRow {
    pub padding: usize,
    pub text: String,
    pub match_span: Option<(usize, usize)>,
    pub highlighted: bool,
}

/// A full frame: the visible rows, the status row for an active
/// text-entry mode, and the rounded percentage when the indicator is on.
pub struct Frame {
    pub rows: Vec<RenderRow>,
    pub status: Option<String>,
    pub percent: Option<u64>,
}

/// The leading spaces that center a column of width `col` in a viewport
/// of width `width`.
pub open spec fn spec_center_pad(width: int, col: int) -> int {
    if width > col {
        width / 2 - col / 2
    } else {
        0
    }
}

/// How many rows a frame shows: a full viewport, or what is left of the
/// document below the offset.
pub open spec fn spec_visible_rows(offset: int, height: int, total: int) -> int {
    if total - offset >= height {
        height
    } else if total >= offset {
        total - offset
    } else {
        0
    }
}

/// What the frame for an editor must hold; [`render`] is its executable
/// form. Row `i` shows line `offset + i` with the centering padding; the
/// highlighter covers the mid-viewport row when enabled; the remembered
/// match is marked on its row; the status row echoes the text-entry
/// buffer behind its mode's prefix; the percentage indicator appears
/// exactly when it is switched on and the document is nonempty.
pub open spec fn spec_frame(e: Editor, f: Frame) -> bool {
    &&& f.rows@.len() == spec_visible_rows(e.offset as int, e.height as int, e.total_lines as int)
    &&& forall|i: int|
        0 <= i < f.rows@.len() ==> (#[trigger] f.rows@[i]).text@ == e.lines@[e.offset + i]@
    &&& forall|i: int|
        0 <= i < f.rows@.len() ==> (#[trigger] f.rows@[i]).padding == spec_center_pad(
            e.width as int,
            e.col as int,
        )
    &&& forall|i: int|
        0 <= i < f.rows@.len() ==> (#[trigger] f.rows@[i]).highlighted == (e.show_highlighter && i
            == e.height as int / 2)
    &&& forall|i: int|
        0 <= i < f.rows@.len() ==> (#[trigger] f.rows@[i]).match_span == (match e
            .editor_state
            .current_match {
            Some((li, s, en)) => if li == e.offset + i {
                Some((s, en))
            } else {
                None
            },
            None => None,
        })
    &&& match e.editor_state.mode {
        EditorMode::Normal => f.status is None,
        EditorMode::Command => f.status matches Some(st) && st@ == ":"@
            + e.editor_state.command_buffer@,
        EditorMode::Search => f.status matches Some(st) && st@ == "/"@
            + e.editor_state.command_buffer@,
        EditorMode::ReverseSearch => f.status matches Some(st) && st@ == "?"@
            + e.editor_state.command_buffer@,
    }
    &&& f.percent == (if e.show_progress && e.total_lines > 0 {
        Some(
            spec_percent_round(e.offset as int, e.total_lines as int) as u64,
        )
    } else {
        None::<u64>
    })
}

/// Projects the editor into a frame.
pub fn render(e: &Editor) -> (f: Frame)
    requires
        e.wf(),
    ensures
        spec_frame(*e, f),
{
    let count = if e.total_lines - e.offset >= e.height {
        e.height
    } else {
        e.total_lines - e.offset
    };
    let pad = if e.width > e.col {
        e.width / 2 - e.col / 2
    } else {
        0
    };
    let mut rows: Vec<RenderRow> = Vec::new();
    let mut i: usize = 0;
    while i < count
        invariant
            i <= count,
            e.wf(),
            count == spec_visible_rows(e.offset as int, e.height as int, e.total_lines as int),
            e.offset + count <= e.total_lines,
            pad == spec_center_pad(e.width as int, e.col as int),
            rows@.len() == i,
            forall|k: int|
                0 <= k < i ==> (#[trigger] rows@[k]).text@ == e.lines@[e.offset + k]@,
            forall|k: int| 0 <= k < i ==> (#[trigger] rows@[k]).padding == pad,
            forall|k: int|
                0 <= k < i ==> (#[trigger] rows@[k]).highlighted == (e.show_highlighter && k
                    == e.height as int / 2),
            forall|k: int|
                0 <= k < i ==> (#[trigger] rows@[k]).match_span == (match e
                    .editor_state
                    .current_match {
                    Some((li, s, en)) => if li == e.offset + k {
                        Some((s, en))
                    } else {
                        None
                    },
                    None => None,
                }),
        decreases count - i,
    {
        let text = e.lines[e.offset + i].clone();
        let highlighted = e.show_highlighter && i == e.height / 2;
        let match_span = match e.editor_state.current_match {
            Some((li, s, en)) => if li == e.offset + i {
                Some((s, en))
            } else {
                None
            },
            None => None,
        };
        rows.push(RenderRow { padding: pad, text, match_span, highlighted });
        i += 1;
    }
    let status = match e.editor_state.mode {
        EditorMode::Normal => None,
        EditorMode::Command => {
            let mut st = String::from_str(":");
            st.append(e.editor_state.command_buffer.as_str());
            Some(st)
        },
        EditorMode::Search => {
            let mut st = String::from_str("/");
            st.append(e.editor_state.command_buffer.as_str());
            Some(st)
        },
        EditorMode::ReverseSearch => {
            let mut st = String::from_str("?");
            st.append(e.editor_state.command_buffer.as_str());
            Some(st)
        },
    };
    let percent = if e.show_progress && e.total_lines > 0 {
        Some(percent_round(e.offset as u64, e.total_lines as u64))
    } else {
        None
    };
    Frame { rows, status, percent }
}

} // verus!
