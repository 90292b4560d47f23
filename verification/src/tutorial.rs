//! The tutorial overlay: a static help screen with the same scrolling
//! keys as the pager. The overlay's scroll state is one offset; every
//! key that is not a scroll key leaves the overlay.

use vstd::prelude::*;
use crate::editor::InputEvent;
use vstd::string::StringExecFns;

verus! {

/// The fixed lines of the help screen, in order.
pub open spec fn spec_tutorial_lines() -> Seq<Seq<char>> {
    seq![
        "Welcome to the text reader!"@,
        ""@,
        "Navigation:"@,
        "j or Down = scroll down"@,
        "k or Up = scroll up"@,
        "PageDown = scroll down one page"@,
        "PageUp = scroll up one page"@,
        ""@,
        "Search:"@,
        "/ = search forward"@,
        "? = search backward"@,
        "n = next match"@,
        "N = previous match"@,
        ""@,
        "Commands:"@,
        ": then type command:"@,
        "q = quit"@,
        "z = toggle line highlighter"@,
        "p = toggle progress"@,
        "help or tutorial = show this tutorial"@,
        ""@,
        "Press any key to continue..."@,
    ]
}

/// The help screen: always the same fixed lines, [`spec_tutorial_lines`].
#[verifier::rlimit(30)]
pub fn get_tutorial_text() -> (r: Vec<String>)
    ensures
        r@.len() == 22,
        r.deep_view() == spec_tutorial_lines(),
{
    let mut v: Vec<String> = Vec::new();
    v.push(String::from_str("Welcome to the text reader!"));
    v.push(String::from_str(""));
    v.push(String::from_str("Navigation:"));
    v.push(String::from_str("j or Down = scroll down"));
    v.push(String::from_str("k or Up = scroll up"));
    v.push(String::from_str("PageDown = scroll down one page"));
    v.push(String::from_str("PageUp = scroll up one page"));
    v.push(String::from_str(""));
    v.push(String::from_str("Search:"));
    v.push(String::from_str("/ = search forward"));
    v.push(String::from_str("? = search backward"));
    v.push(String::from_str("n = next match"));
    v.push(String::from_str("N = previous match"));
    v.push(String::from_str(""));
    v.push(String::from_str("Commands:"));
    v.push(String::from_str(": then type command:"));
    v.push(String::from_str("q = quit"));
    v.push(String::from_str("z = toggle line highlighter"));
    v.push(String::from_str("p = toggle progress"));
    v.push(String::from_str("help or tutorial = show this tutorial"));
    v.push(String::from_str(""));
    v.push(String::from_str("Press any key to continue..."));
    proof {
        assert forall|i: int| 0 <= i < 22 implies v.deep_view()[i] == spec_tutorial_lines()[i] by {
            assert(v.deep_view()[i] == v@[i]@);
        }
        assert(v.deep_view() =~= spec_tutorial_lines());
    }
    v
}

/// One step of the overlay's scroll loop: `Some` carries the next
/// offset, `None` leaves the overlay. `j`/Down and `k`/Up move one line
/// (clamped), the page keys a full viewport (clamped); a resize changes
/// nothing; any other key exits.
pub fn tutorial_step(offset: usize, height: usize, total: usize, ev: InputEvent) -> (r: Option<
    usize,
>)
    ensures
        r == (match ev {
            InputEvent::Char(c) => {
                if c == 'j' {
                    Some((if offset + height < total {
                        offset + 1
                    } else {
                        offset as int
                    }) as usize)
                } else if c == 'k' {
                    Some((if offset > 0 {
                        offset - 1
                    } else {
                        0int
                    }) as usize)
                } else {
                    None::<usize>
                }
            },
            InputEvent::Down => Some((if offset + height < total {
                offset + 1
            } else {
                offset as int
            }) as usize),
            InputEvent::Up => Some((if offset > 0 {
                offset - 1
            } else {
                0int
            }) as usize),
            InputEvent::PageDown => Some(
                (if offset + height <= spec_tutorial_max(total as int, height as int) {
                    offset + height
                } else {
                    spec_tutorial_max(total as int, height as int)
                }) as usize,
            ),
            InputEvent::PageUp => Some((if offset >= height {
                offset - height
            } else {
                0int
            }) as usize),
            InputEvent::Resize(w, h) => Some(offset),
            _ => None::<usize>,
        }),
{
    match ev {
        InputEvent::Char(c) => {
            if c == 'j' {
                Some(step_down(offset, height, total))
            } else if c == 'k' {
                Some(if offset > 0 {
                    offset - 1
                } else {
                    0
                })
            } else {
                None
            }
        },
        InputEvent::Down => Some(step_down(offset, height, total)),
        InputEvent::Up => Some(
            if offset > 0 {
                offset - 1
            } else {
                0
            },
        ),
        InputEvent::PageDown => {
            let max_off = if total > height {
                total - height
            } else {
                0
            };
            Some(
                if offset <= max_off && max_off - offset >= height {
                    offset + height
                } else {
                    max_off
                },
            )
        },
        InputEvent::PageUp => Some(
            if offset >= height {
                offset - height
            } else {
                0
            },
        ),
        InputEvent::Resize(_w, _h) => Some(offset),
        _ => None,
    }
}

/// The overlay's largest page-aligned offset.
pub open spec fn spec_tutorial_max(total: int, height: int) -> int {
    if total > height {
        total - height
    } else {
        0
    }
}

/// One line down when a full overlay page still fits below.
fn step_down(offset: usize, height: usize, total: usize) -> (r: usize)
    ensures
        r == (if offset + height < total {
            offset + 1
        } else {
            offset as int
        }),
{
    if total > offset && total - offset > height {
        offset + 1
    } else {
        offset
    }
}

} // verus!
