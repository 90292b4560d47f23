//! The view state machine: sole owner of viewport geometry, scroll offset
//! and input mode. Every key event is dispatched through [`Editor::handle_event`],
//! whose contract is the full transition table, case by case.

use vstd::prelude::*;
use crate::progress::{generate_hash, spec_document_hash};
use crate::search::{find, found_match, line_matches};
use crate::text::{spec_trim, trimmed_eq};

verus! {

/// The pager's input-interpretation context.
#[derive(Clone, Copy, PartialEq, Eq, Structural, Debug)]
pub enum EditorMode {
    Normal,
    Command,
    Search,
    ReverseSearch,
}

/// Mode, text-entry buffer and search state of a session.
pub struct EditorState {
    pub mode: EditorMode,
    pub command_buffer: String,
    pub search_query: String,
    /// `true` searches forward, `false` backward.
    pub search_direction: bool,
    pub last_search_index: Option<usize>,
    /// `(line_index, start, end)` of the match last found; `start` and
    /// `end` are positions within the case-folded line.
    pub current_match: Option<(usize, usize, usize)>,
}

impl EditorState {
    /// The initial state: normal mode, empty buffers, forward direction.
    pub fn new() -> (r: Self)
        ensures
            r.mode == EditorMode::Normal,
            r.command_buffer@ =~= Seq::<char>::empty(),
            r.search_query@ =~= Seq::<char>::empty(),
            r.search_direction == true,
            r.last_search_index is None,
            r.current_match is None,
    {
        EditorState {
            mode: EditorMode::Normal,
            command_buffer: String::new(),
            search_query: String::new(),
            search_direction: true,
            last_search_index: None,
            current_match: None,
        }
    }
}

/// One input event, as the surrounding terminal loop hands it in.
#[derive(Clone, Copy, PartialEq, Eq, Structural, Debug)]
pub enum InputEvent {
    Char(char),
    Up,
    Down,
    PageUp,
    PageDown,
    Enter,
    Backspace,
    Esc,
    Resize(u16, u16),
    Other,
}

/// What the surrounding loop must do after an event was dispatched.
#[derive(Clone, Copy, PartialEq, Eq, Structural, Debug)]
pub enum EditorAction {
    /// Render and wait for the next event.
    Redraw,
    /// The session is over.
    Quit,
    /// Show the tutorial overlay, then continue.
    ShowTutorial,
}

/// The pager: the immutable line buffer plus all mutable view state.
pub struct Editor {
    pub lines: Vec<String>,
    pub col: usize,
    pub offset: usize,
    pub width: usize,
    pub height: usize,
    pub show_highlighter: bool,
    pub editor_state: EditorState,
    pub document_hash: u64,
    pub total_lines: usize,
    pub show_progress: bool,
}

impl Editor {
    /// The view-state invariant: the cached line count is the line
    /// buffer's, the viewport is at least one row high, the offset stays
    /// inside the document (at zero for an empty one), and a remembered
    /// match points at an existing line.
    pub open spec fn wf(self) -> bool {
        &&& self.total_lines == self.lines@.len()
        &&& self.height >= 1
        &&& if self.total_lines == 0 {
            self.offset == 0
        } else {
            self.offset < self.total_lines
        }
        &&& match self.editor_state.current_match {
            Some((li, s, e)) => li < self.total_lines,
            None => true,
        }
    }

    /// A fresh session over `lines`: offset zero, normal mode, line
    /// highlighter on, progress indicator off, identity derived from the
    /// content.
    pub fn new(lines: Vec<String>, col: usize, width: usize, height: usize) -> (r: Self)
        ensures
            r.wf(),
            r.lines@ == lines@,
            r.col == col,
            r.offset == 0,
            r.width == width,
            r.height == (if height == 0 { 1 } else { height as int }),
            r.show_highlighter == true,
            r.show_progress == false,
            r.document_hash == spec_document_hash(lines.deep_view()),
            r.total_lines == lines@.len(),
            r.editor_state.mode == EditorMode::Normal,
            r.editor_state.command_buffer@ =~= Seq::<char>::empty(),
            r.editor_state.search_query@ =~= Seq::<char>::empty(),
            r.editor_state.search_direction == true,
            r.editor_state.current_match is None,
    {
        let document_hash = generate_hash(&lines);
        let total_lines = lines.len();
        let height = if height == 0 {
            1
        } else {
            height
        };
        Editor {
            lines,
            col,
            offset: 0,
            width,
            height,
            show_highlighter: true,
            editor_state: EditorState::new(),
            document_hash,
            total_lines,
            show_progress: false,
        }
    }

    /// Adopts a previously recorded offset, or stays at the top when none
    /// is given or the recorded offset no longer lies inside the document.
    pub fn apply_progress(&mut self, prior: Option<u64>)
        requires
            old(self).wf(),
        ensures
            final(self).wf(),
            spec_same_except_offset(*old(self), *final(self)),
            final(self).offset == (match prior {
                Some(o) => if o < old(self).total_lines { o as int } else { 0 },
                None => 0,
            }),
    {
        match prior {
            Some(o) => {
                if o < self.total_lines as u64 {
                    self.offset = o as usize;
                } else {
                    self.offset = 0;
                }
            },
            None => {
                self.offset = 0;
            },
        }
    }
}

/// All fields of the two editors agree except possibly the scroll offset.
pub open spec fn spec_same_except_offset(pre: Editor, post: Editor) -> bool {
    &&& post.lines == pre.lines
    &&& post.col == pre.col
    &&& post.width == pre.width
    &&& post.height == pre.height
    &&& post.show_highlighter == pre.show_highlighter
    &&& post.editor_state == pre.editor_state
    &&& post.document_hash == pre.document_hash
    &&& post.total_lines == pre.total_lines
    &&& post.show_progress == pre.show_progress
}

/// All fields agree except possibly mode, buffers and search state.
pub open spec fn spec_same_except_state(pre: Editor, post: Editor) -> bool {
    &&& post.lines == pre.lines
    &&& post.col == pre.col
    &&& post.offset == pre.offset
    &&& post.width == pre.width
    &&& post.height == pre.height
    &&& post.show_highlighter == pre.show_highlighter
    &&& post.document_hash == pre.document_hash
    &&& post.total_lines == pre.total_lines
    &&& post.show_progress == pre.show_progress
}

/// All fields agree except possibly the search state and the offset.
pub open spec fn spec_same_except_search(pre: Editor, post: Editor) -> bool {
    &&& post.lines == pre.lines
    &&& post.col == pre.col
    &&& post.width == pre.width
    &&& post.height == pre.height
    &&& post.show_highlighter == pre.show_highlighter
    &&& post.document_hash == pre.document_hash
    &&& post.total_lines == pre.total_lines
    &&& post.show_progress == pre.show_progress
    &&& post.editor_state.mode == pre.editor_state.mode
    &&& post.editor_state.command_buffer == pre.editor_state.command_buffer
    &&& post.editor_state.search_query == pre.editor_state.search_query
    &&& post.editor_state.search_direction == pre.editor_state.search_direction
    &&& post.editor_state.last_search_index == pre.editor_state.last_search_index
}

/// The line a search starts from: the line of the current match when one
/// is remembered, else the top of the viewport.
pub open spec fn spec_start_index(e: Editor) -> int {
    match e.editor_state.current_match {
        Some((li, s, en)) => li as int,
        None => e.offset as int,
    }
}

/// Centering a match: the offset that puts line `li` mid-viewport,
/// clamped to the scrollable range.
pub open spec fn spec_center_offset(li: int, height: int, total: int) -> int {
    let max_off = if total > height {
        total - height
    } else {
        0
    };
    let want = li - height / 2;
    if want < 0 {
        0
    } else if want > max_off {
        max_off
    } else {
        want
    }
}

/// What a search leaves behind in `current_match` and `offset`: on an
/// empty query or an empty document nothing changes; when some line
/// matches, the first match in scan order is remembered and centered;
/// when none matches, both stay as they were.
pub open spec fn spec_search_outcome(
    pre: Editor,
    query: Seq<char>,
    forward: bool,
    m: Option<(usize, usize, usize)>,
    off: int,
) -> bool {
    if query.len() == 0 || pre.total_lines == 0 {
        m == pre.editor_state.current_match && off == pre.offset
    } else if exists|i: int| 0 <= i < pre.lines@.len() && line_matches(#[trigger] pre.lines@[i]@, query) {
        match m {
            Some((li, s, e)) => {
                &&& found_match(pre.lines@, query, spec_start_index(pre), forward, li as int, s as int, e as int)
                &&& off == spec_center_offset(li as int, pre.height as int, pre.total_lines as int)
            },
            None => false,
        }
    } else {
        m == pre.editor_state.current_match && off == pre.offset
    }
}

impl Editor {
    /// Puts the line of the current match mid-viewport (when a match is
    /// remembered; otherwise nothing moves).
    pub fn center_on_match(&mut self)
        requires
            old(self).wf(),
        ensures
            final(self).wf(),
            spec_same_except_offset(*old(self), *final(self)),
            final(self).offset == (match old(self).editor_state.current_match {
                Some((li, s, e)) => spec_center_offset(
                    li as int,
                    old(self).height as int,
                    old(self).total_lines as int,
                ),
                None => old(self).offset as int,
            }),
    {
        if let Some((li, _s, _e)) = self.editor_state.current_match {
            let half = self.height / 2;
            let max_off = if self.total_lines > self.height {
                self.total_lines - self.height
            } else {
                0
            };
            let want = if li > half {
                li - half
            } else {
                0
            };
            self.offset = if want > max_off {
                max_off
            } else {
                want
            };
        }
    }

    /// Repeats or starts a search with the given query and direction,
    /// from the current position, and centers the viewport on the match
    /// found, per [`spec_search_outcome`]. Everything else stays.
    fn search_and_center(&mut self, query: &String, forward: bool)
        requires
            old(self).wf(),
            query@ == old(self).editor_state.search_query@,
        ensures
            final(self).wf(),
            spec_same_except_search(*old(self), *final(self)),
            spec_search_outcome(
                *old(self),
                query@,
                forward,
                final(self).editor_state.current_match,
                final(self).offset as int,
            ),
    {
        if query.as_str().is_empty() {
            return ;
        }
        if self.total_lines == 0 {
            return ;
        }
        let start_index = match self.editor_state.current_match {
            Some((li, _s, _e)) => li,
            None => self.offset,
        };
        let r = find(&self.lines, query.as_str(), start_index, forward);
        if let Some((li, s, e)) = r {
            self.editor_state.current_match = Some((li, s, e));
            self.center_on_match();
        }
    }

    /// The search repeat keys: `n` keeps the original direction, `N`
    /// reverses it; with no committed query nothing happens.
    pub fn find_next_match(&mut self, forward: bool)
        requires
            old(self).wf(),
        ensures
            final(self).wf(),
            spec_same_except_search(*old(self), *final(self)),
            spec_search_outcome(
                *old(self),
                old(self).editor_state.search_query@,
                forward,
                final(self).editor_state.current_match,
                final(self).offset as int,
            ),
    {
        let query = self.editor_state.search_query.clone();
        self.search_and_center(&query, forward);
    }

    /// Enter in a search mode: the buffer becomes the committed query,
    /// the search runs from the current position in the commanded
    /// direction, and the mode falls back to normal with the buffer
    /// cleared.
    pub fn commit_search(&mut self)
        requires
            old(self).wf(),
            old(self).editor_state.mode == EditorMode::Search || old(self).editor_state.mode
                == EditorMode::ReverseSearch,
        ensures
            final(self).wf(),
            spec_commit_search(*old(self), *final(self)),
    {
        let forward = match self.editor_state.mode {
            EditorMode::Search => true,
            _ => false,
        };
        let query = self.editor_state.command_buffer.clone();
        self.editor_state.search_query = self.editor_state.command_buffer.clone();
        self.search_and_center(&query, forward);
        self.editor_state.mode = EditorMode::Normal;
        self.editor_state.command_buffer = String::new();
    }
}

impl Editor {
    /// One line down, when there is scroll room: the offset moves only
    /// while a full viewport still fits below it.
    pub fn nav_down(&mut self)
        requires
            old(self).wf(),
        ensures
            final(self).wf(),
            spec_same_except_offset(*old(self), *final(self)),
            final(self).offset == spec_nav_down_offset(
                old(self).offset as int,
                old(self).height as int,
                old(self).total_lines as int,
            ),
    {
        if self.total_lines - self.offset > self.height {
            self.offset = self.offset + 1;
        }
    }

    /// One line up, stopping at the top.
    pub fn nav_up(&mut self)
        requires
            old(self).wf(),
        ensures
            final(self).wf(),
            spec_same_except_offset(*old(self), *final(self)),
            final(self).offset == (if old(self).offset > 0 {
                old(self).offset - 1
            } else {
                0int
            }),
    {
        if self.offset > 0 {
            self.offset = self.offset - 1;
        }
    }

    /// One page down: a `height - 3` step (keeping overlap context),
    /// clamped to the last full viewport, and only when there is scroll
    /// room at all.
    pub fn page_down(&mut self)
        requires
            old(self).wf(),
        ensures
            final(self).wf(),
            spec_same_except_offset(*old(self), *final(self)),
            final(self).offset == spec_page_down_offset(
                old(self).offset as int,
                old(self).height as int,
                old(self).total_lines as int,
            ),
    {
        if self.total_lines - self.offset > self.height {
            let step = if self.height >= 3 {
                self.height - 3
            } else {
                0
            };
            let max_off = self.total_lines - self.height;
            self.offset = if step > max_off - self.offset {
                max_off
            } else {
                self.offset + step
            };
        }
    }

    /// One page up: a `height - 3` step, snapping to the top when the
    /// step would underflow.
    pub fn page_up(&mut self)
        requires
            old(self).wf(),
        ensures
            final(self).wf(),
            spec_same_except_offset(*old(self), *final(self)),
            final(self).offset == spec_page_up_offset(
                old(self).offset as int,
                old(self).height as int,
            ),
    {
        let step = if self.height >= 3 {
            self.height - 3
        } else {
            0
        };
        if self.offset >= step {
            self.offset = self.offset - step;
        } else {
            self.offset = 0;
        }
    }

    /// A terminal resize: the new geometry is adopted as reported (with a
    /// floor of one row); the offset is not renormalized — the next
    /// navigation corrects it.
    pub fn resize(&mut self, w: u16, h: u16)
        requires
            old(self).wf(),
        ensures
            final(self).wf(),
            spec_resize(*old(self), *final(self), w, h),
    {
        self.width = w as usize;
        self.height = if h == 0 {
            1
        } else {
            h as usize
        };
    }

    /// Enter in command mode: dispatches the buffer as a command and
    /// falls back to normal mode with the buffer cleared.
    pub fn execute_command(&mut self) -> (r: EditorAction)
        requires
            old(self).wf(),
        ensures
            final(self).wf(),
            spec_command_effect(*old(self), *final(self), r),
    {
        proof {
            reveal_strlit("p");
            reveal_strlit("q");
            reveal_strlit("z");
            reveal_strlit("help");
            reveal_strlit("tutorial");
            assert("p"@.len() == 1 && "q"@.len() == 1 && "z"@.len() == 1 && "help"@.len() == 4
                && "tutorial"@.len() == 8);
            assert("p"@[0] != "q"@[0] && "p"@[0] != "z"@[0] && "q"@[0] != "z"@[0]);
        }
        let cmd = self.editor_state.command_buffer.clone();
        let r = if trimmed_eq(cmd.as_str(), "p") {
            self.show_progress = !self.show_progress;
            EditorAction::Redraw
        } else if trimmed_eq(cmd.as_str(), "help") || trimmed_eq(cmd.as_str(), "tutorial") {
            EditorAction::ShowTutorial
        } else {
            if handle_command(cmd.as_str(), &mut self.show_highlighter) {
                EditorAction::Quit
            } else {
                EditorAction::Redraw
            }
        };
        self.editor_state.mode = EditorMode::Normal;
        self.editor_state.command_buffer = String::new();
        r
    }

    /// Dispatches one input event according to the current mode. The
    /// contract, [`spec_step`], is the pager's full transition table.
    pub fn handle_event(&mut self, ev: InputEvent) -> (r: EditorAction)
        requires
            old(self).wf(),
        ensures
            final(self).wf(),
            spec_step(*old(self), ev, *final(self), r),
    {
        match ev {
            InputEvent::Resize(w, h) => {
                self.resize(w, h);
                EditorAction::Redraw
            },
            _ => {
                match self.editor_state.mode {
                    EditorMode::Normal => {
                        match ev {
                            InputEvent::Char(c) => {
                                if c == ':' {
                                    self.editor_state.mode = EditorMode::Command;
                                    self.editor_state.command_buffer = String::new();
                                } else if c == '/' {
                                    self.editor_state.mode = EditorMode::Search;
                                    self.editor_state.command_buffer = String::new();
                                    self.editor_state.search_direction = true;
                                } else if c == '?' {
                                    self.editor_state.mode = EditorMode::ReverseSearch;
                                    self.editor_state.command_buffer = String::new();
                                    self.editor_state.search_direction = false;
                                } else if c == 'n' {
                                    let d = self.editor_state.search_direction;
                                    self.find_next_match(d);
                                } else if c == 'N' {
                                    let d = self.editor_state.search_direction;
                                    self.find_next_match(!d);
                                } else if c == 'j' {
                                    self.nav_down();
                                } else if c == 'k' {
                                    self.nav_up();
                                }
                            },
                            InputEvent::Down => self.nav_down(),
                            InputEvent::Up => self.nav_up(),
                            InputEvent::PageDown => self.page_down(),
                            InputEvent::PageUp => self.page_up(),
                            _ => {},
                        }
                        EditorAction::Redraw
                    },
                    EditorMode::Command => {
                        match ev {
                            InputEvent::Esc => {
                                self.editor_state.mode = EditorMode::Normal;
                                self.editor_state.command_buffer = String::new();
                                EditorAction::Redraw
                            },
                            InputEvent::Enter => self.execute_command(),
                            InputEvent::Backspace => {
                                self.editor_state.command_buffer.pop();
                                EditorAction::Redraw
                            },
                            InputEvent::Char(c) => {
                                self.editor_state.command_buffer.push(c);
                                EditorAction::Redraw
                            },
                            _ => EditorAction::Redraw,
                        }
                    },
                    EditorMode::Search | EditorMode::ReverseSearch => {
                        match ev {
                            InputEvent::Esc => {
                                self.editor_state.mode = EditorMode::Normal;
                                self.editor_state.command_buffer = String::new();
                                EditorAction::Redraw
                            },
                            InputEvent::Enter => {
                                self.commit_search();
                                EditorAction::Redraw
                            },
                            InputEvent::Backspace => {
                                self.editor_state.command_buffer.pop();
                                EditorAction::Redraw
                            },
                            InputEvent::Char(c) => {
                                self.editor_state.command_buffer.push(c);
                                EditorAction::Redraw
                            },
                            _ => EditorAction::Redraw,
                        }
                    },
                }
            },
        }
    }
}

/// Dispatches a command string: `q` quits; `z` toggles the line
/// highlighter; everything else (including `p`, `help` and `tutorial`,
/// which the editor handles before delegating here) is a no-op.
/// Commands are matched whitespace-trimmed and case-sensitively.
pub fn handle_command(command: &str, show_highlighter: &mut bool) -> (r: bool)
    ensures
        r == (spec_trim(command@) == "q"@),
        *final(show_highlighter) == (if spec_trim(command@) == "z"@ {
            !*old(show_highlighter)
        } else {
            *old(show_highlighter)
        }),
{
    proof {
        reveal_strlit("q");
        reveal_strlit("z");
        assert("q"@[0] != "z"@[0]);
    }
    if trimmed_eq(command, "q") {
        true
    } else if trimmed_eq(command, "z") {
        *show_highlighter = !*show_highlighter;
        false
    } else {
        false
    }
}

/// The involution behind the `z` command: applying a command's effect on
/// the highlighter flag twice always restores the flag, whatever the
/// command.
pub proof fn lemma_highlighter_toggle_involution(command: Seq<char>, flag: bool)
    ensures
        spec_command_highlighter(command, spec_command_highlighter(command, flag)) == flag,
{
}

/// What a command does to the line-highlighter flag: `z` toggles it,
/// everything else leaves it.
pub open spec fn spec_command_highlighter(command: Seq<char>, flag: bool) -> bool {
    if spec_trim(command) == "z"@ {
        !flag
    } else {
        flag
    }
}

/// The offset after a one-line-down request.
pub open spec fn spec_nav_down_offset(off: int, height: int, total: int) -> int {
    if off + height < total {
        off + 1
    } else {
        off
    }
}

/// The offset after a one-page-down request: a `height - 3` step, only
/// when a full viewport still fits below, clamped to the last one.
pub open spec fn spec_page_down_offset(off: int, height: int, total: int) -> int {
    if off + height < total {
        let step = if height >= 3 {
            height - 3
        } else {
            0
        };
        let max_off = total - height;
        if off + step > max_off {
            max_off
        } else {
            off + step
        }
    } else {
        off
    }
}

/// The offset after a one-page-up request: a `height - 3` step, snapping
/// to the top when it would underflow.
pub open spec fn spec_page_up_offset(off: int, height: int) -> int {
    let step = if height >= 3 {
        height - 3
    } else {
        0
    };
    if off >= step {
        off - step
    } else {
        0
    }
}

/// A resize only adopts the reported geometry (height floored at one row).
pub open spec fn spec_resize(pre: Editor, post: Editor, w: u16, h: u16) -> bool {
    &&& post.width == w as int
    &&& post.height == (if h == 0 {
        1int
    } else {
        h as int
    })
    &&& post.lines == pre.lines
    &&& post.col == pre.col
    &&& post.offset == pre.offset
    &&& post.show_highlighter == pre.show_highlighter
    &&& post.editor_state == pre.editor_state
    &&& post.document_hash == pre.document_hash
    &&& post.total_lines == pre.total_lines
    &&& post.show_progress == pre.show_progress
}

/// The Enter transition in command mode: the trimmed buffer decides the
/// action (`q` quits, `help`/`tutorial` raise the overlay, all else only
/// redraws), `z` and `p` toggle their flags, and the mode is normal again
/// with an empty buffer. Nothing else changes.
pub open spec fn spec_command_effect(pre: Editor, post: Editor, r: EditorAction) -> bool {
    let t = spec_trim(pre.editor_state.command_buffer@);
    &&& r == (if t == "q"@ {
        EditorAction::Quit
    } else if t == "help"@ || t == "tutorial"@ {
        EditorAction::ShowTutorial
    } else {
        EditorAction::Redraw
    })
    &&& post.show_highlighter == (if t == "z"@ {
        !pre.show_highlighter
    } else {
        pre.show_highlighter
    })
    &&& post.show_progress == (if t == "p"@ {
        !pre.show_progress
    } else {
        pre.show_progress
    })
    &&& post.editor_state.mode == EditorMode::Normal
    &&& post.editor_state.command_buffer@.len() == 0
    &&& post.editor_state.search_query == pre.editor_state.search_query
    &&& post.editor_state.search_direction == pre.editor_state.search_direction
    &&& post.editor_state.last_search_index == pre.editor_state.last_search_index
    &&& post.editor_state.current_match == pre.editor_state.current_match
    &&& post.lines == pre.lines
    &&& post.col == pre.col
    &&& post.offset == pre.offset
    &&& post.width == pre.width
    &&& post.height == pre.height
    &&& post.document_hash == pre.document_hash
    &&& post.total_lines == pre.total_lines
}

/// Entering a text-entry mode (`:`, `/` or `?`): the mode is set, the
/// buffer cleared, the search direction as commanded; the committed
/// query, the remembered match and everything else stay.
pub open spec fn spec_enter_entry_mode(pre: Editor, post: Editor, mode: EditorMode, dir: bool) -> bool {
    &&& spec_same_except_state(pre, post)
    &&& post.editor_state.mode == mode
    &&& post.editor_state.command_buffer@.len() == 0
    &&& post.editor_state.search_query == pre.editor_state.search_query
    &&& post.editor_state.search_direction == dir
    &&& post.editor_state.last_search_index == pre.editor_state.last_search_index
    &&& post.editor_state.current_match == pre.editor_state.current_match
}

/// Escape in a text-entry mode: back to normal, buffer discarded.
pub open spec fn spec_cancel_entry(pre: Editor, post: Editor) -> bool {
    spec_enter_entry_mode(pre, post, EditorMode::Normal, pre.editor_state.search_direction)
}

/// A printable character typed in a text-entry mode: appended to the
/// buffer; nothing else changes.
pub open spec fn spec_buffer_push(pre: Editor, post: Editor, c: char) -> bool {
    &&& spec_same_except_state(pre, post)
    &&& post.editor_state.mode == pre.editor_state.mode
    &&& post.editor_state.command_buffer@ == pre.editor_state.command_buffer@.push(c)
    &&& post.editor_state.search_query == pre.editor_state.search_query
    &&& post.editor_state.search_direction == pre.editor_state.search_direction
    &&& post.editor_state.last_search_index == pre.editor_state.last_search_index
    &&& post.editor_state.current_match == pre.editor_state.current_match
}

/// Backspace in a text-entry mode: the last buffered character is
/// dropped (a no-op on an empty buffer); nothing else changes.
pub open spec fn spec_buffer_pop(pre: Editor, post: Editor) -> bool {
    &&& spec_same_except_state(pre, post)
    &&& post.editor_state.mode == pre.editor_state.mode
    &&& post.editor_state.command_buffer@ == (if pre.editor_state.command_buffer@.len() > 0 {
        pre.editor_state.command_buffer@.drop_last()
    } else {
        pre.editor_state.command_buffer@
    })
    &&& post.editor_state.search_query == pre.editor_state.search_query
    &&& post.editor_state.search_direction == pre.editor_state.search_direction
    &&& post.editor_state.last_search_index == pre.editor_state.last_search_index
    &&& post.editor_state.current_match == pre.editor_state.current_match
}

/// The transition table for normal mode.
pub open spec fn spec_step_normal(pre: Editor, ev: InputEvent, post: Editor, r: EditorAction) -> bool {
    &&& r == EditorAction::Redraw
    &&& match ev {
        InputEvent::Char(c) => {
            if c == ':' {
                spec_enter_entry_mode(pre, post, EditorMode::Command, pre.editor_state.search_direction)
            } else if c == '/' {
                spec_enter_entry_mode(pre, post, EditorMode::Search, true)
            } else if c == '?' {
                spec_enter_entry_mode(pre, post, EditorMode::ReverseSearch, false)
            } else if c == 'n' {
                spec_same_except_search(pre, post) && spec_search_outcome(
                    pre,
                    pre.editor_state.search_query@,
                    pre.editor_state.search_direction,
                    post.editor_state.current_match,
                    post.offset as int,
                )
            } else if c == 'N' {
                spec_same_except_search(pre, post) && spec_search_outcome(
                    pre,
                    pre.editor_state.search_query@,
                    !pre.editor_state.search_direction,
                    post.editor_state.current_match,
                    post.offset as int,
                )
            } else if c == 'j' {
                spec_same_except_offset(pre, post) && post.offset == spec_nav_down_offset(
                    pre.offset as int,
                    pre.height as int,
                    pre.total_lines as int,
                )
            } else if c == 'k' {
                spec_same_except_offset(pre, post) && post.offset == (if pre.offset > 0 {
                    pre.offset - 1
                } else {
                    0int
                })
            } else {
                post == pre
            }
        },
        InputEvent::Down => spec_same_except_offset(pre, post) && post.offset == spec_nav_down_offset(
            pre.offset as int,
            pre.height as int,
            pre.total_lines as int,
        ),
        InputEvent::Up => spec_same_except_offset(pre, post) && post.offset == (if pre.offset > 0 {
            pre.offset - 1
        } else {
            0int
        }),
        InputEvent::PageDown => spec_same_except_offset(pre, post) && post.offset
            == spec_page_down_offset(pre.offset as int, pre.height as int, pre.total_lines as int),
        InputEvent::PageUp => spec_same_except_offset(pre, post) && post.offset
            == spec_page_up_offset(pre.offset as int, pre.height as int),
        _ => post == pre,
    }
}

/// The transition table for command mode.
pub open spec fn spec_step_command(pre: Editor, ev: InputEvent, post: Editor, r: EditorAction) -> bool {
    match ev {
        InputEvent::Esc => r == EditorAction::Redraw && spec_cancel_entry(pre, post),
        InputEvent::Enter => spec_command_effect(pre, post, r),
        InputEvent::Backspace => r == EditorAction::Redraw && spec_buffer_pop(pre, post),
        InputEvent::Char(c) => r == EditorAction::Redraw && spec_buffer_push(pre, post, c),
        _ => r == EditorAction::Redraw && post == pre,
    }
}

/// The transition table for the two search-entry modes.
pub open spec fn spec_step_search_entry(pre: Editor, ev: InputEvent, post: Editor, r: EditorAction) -> bool {
    &&& r == EditorAction::Redraw
    &&& match ev {
        InputEvent::Esc => spec_cancel_entry(pre, post),
        InputEvent::Enter => spec_commit_search(pre, post),
        InputEvent::Backspace => spec_buffer_pop(pre, post),
        InputEvent::Char(c) => spec_buffer_push(pre, post, c),
        _ => post == pre,
    }
}

/// The pager's full transition table: a resize is adopted in any mode;
/// every other event is interpreted according to the current mode.
pub open spec fn spec_step(pre: Editor, ev: InputEvent, post: Editor, r: EditorAction) -> bool {
    match ev {
        InputEvent::Resize(w, h) => r == EditorAction::Redraw && spec_resize(pre, post, w, h),
        _ => match pre.editor_state.mode {
            EditorMode::Normal => spec_step_normal(pre, ev, post, r),
            EditorMode::Command => spec_step_command(pre, ev, post, r),
            EditorMode::Search => spec_step_search_entry(pre, ev, post, r),
            EditorMode::ReverseSearch => spec_step_search_entry(pre, ev, post, r),
        },
    }
}

/// The Enter transition out of a search mode: the query is committed,
/// the mode is normal again with an empty buffer, direction and search
/// bookkeeping stay, and match and offset follow [`spec_search_outcome`]
/// for the committed query.
pub open spec fn spec_commit_search(pre: Editor, post: Editor) -> bool {
    &&& post.lines == pre.lines
    &&& post.col == pre.col
    &&& post.width == pre.width
    &&& post.height == pre.height
    &&& post.show_highlighter == pre.show_highlighter
    &&& post.document_hash == pre.document_hash
    &&& post.total_lines == pre.total_lines
    &&& post.show_progress == pre.show_progress
    &&& post.editor_state.mode == EditorMode::Normal
    &&& post.editor_state.command_buffer@.len() == 0
    &&& post.editor_state.search_query@ == pre.editor_state.command_buffer@
    &&& post.editor_state.search_direction == pre.editor_state.search_direction
    &&& post.editor_state.last_search_index == pre.editor_state.last_search_index
    &&& spec_search_outcome(
        pre,
        pre.editor_state.command_buffer@,
        pre.editor_state.mode == EditorMode::Search,
        post.editor_state.current_match,
        post.offset as int,
    )
}

} // verus!
