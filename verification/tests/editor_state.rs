use hygg::editor::{handle_command, Editor, EditorAction, EditorMode, EditorState, InputEvent};
use hygg::config::{config_value, effective_highlighter, wants_tutorial, AppConfig};
use hygg::progress::ProgressLog;
use hygg::render::render;
use hygg::tutorial::{get_tutorial_text, tutorial_step};

fn lines_of(words: &[&str]) -> Vec<String> {
    words.iter().map(|w| w.to_string()).collect()
}

fn type_command(e: &mut Editor, cmd: &str) -> EditorAction {
    assert_eq!(e.handle_event(InputEvent::Char(':')), EditorAction::Redraw);
    for c in cmd.chars() {
        assert_eq!(e.handle_event(InputEvent::Char(c)), EditorAction::Redraw);
    }
    e.handle_event(InputEvent::Enter)
}

#[test]
fn fresh_state_is_normal_and_empty() {
    let s = EditorState::new();
    assert_eq!(s.mode, EditorMode::Normal);
    assert_eq!(s.command_buffer, "");
    assert_eq!(s.search_query, "");
    assert!(s.search_direction);
    assert!(s.last_search_index.is_none());
    assert!(s.current_match.is_none());
}

#[test]
fn navigation_clamps_when_viewport_covers_document() {
    let lines: Vec<String> = (0..10).map(|i| format!("line {}", i)).collect();
    let mut e = Editor::new(lines, 80, 100, 10);
    e.handle_event(InputEvent::Char('j'));
    assert_eq!(e.offset, 0, "no scroll room with height == total");
}

#[test]
fn navigation_stops_at_the_last_full_viewport() {
    let lines: Vec<String> = (0..10).map(|i| format!("line {}", i)).collect();
    let mut e = Editor::new(lines, 80, 100, 5);
    for _ in 0..20 {
        e.handle_event(InputEvent::Char('j'));
    }
    assert_eq!(e.offset, 5, "repeated j stops at total - height");
    e.handle_event(InputEvent::Char('k'));
    assert_eq!(e.offset, 4);
    for _ in 0..20 {
        e.handle_event(InputEvent::Up);
    }
    assert_eq!(e.offset, 0);
}

#[test]
fn page_keys_step_by_height_minus_three() {
    let lines: Vec<String> = (0..10).map(|i| format!("line {}", i)).collect();
    let mut e = Editor::new(lines, 80, 100, 5);
    e.handle_event(InputEvent::PageDown);
    assert_eq!(e.offset, 2);
    e.handle_event(InputEvent::PageDown);
    assert_eq!(e.offset, 4);
    e.handle_event(InputEvent::PageDown);
    assert_eq!(e.offset, 5, "page down clamps to the last full viewport");
    e.handle_event(InputEvent::PageDown);
    assert_eq!(e.offset, 5, "no scroll room left");
    e.handle_event(InputEvent::PageUp);
    assert_eq!(e.offset, 3);
    e.handle_event(InputEvent::PageUp);
    e.handle_event(InputEvent::PageUp);
    assert_eq!(e.offset, 0, "page up snaps to the top");
}

#[test]
fn toggling_z_twice_restores_the_highlighter() {
    let mut flag = true;
    let quit1 = handle_command("z", &mut flag);
    assert!(!quit1);
    assert!(!flag);
    let quit2 = handle_command("z", &mut flag);
    assert!(!quit2);
    assert!(flag, "two z toggles restore the original value");
}

#[test]
fn toggling_z_twice_restores_the_highlighter_in_the_editor() {
    let mut e = Editor::new(lines_of(&["one", "two"]), 80, 100, 5);
    let before = e.show_highlighter;
    assert_eq!(type_command(&mut e, "z"), EditorAction::Redraw);
    assert_eq!(e.show_highlighter, !before);
    assert_eq!(type_command(&mut e, "z"), EditorAction::Redraw);
    assert_eq!(e.show_highlighter, before);
}

#[test]
fn quit_commands_terminate() {
    let mut flag = true;
    assert!(handle_command("q", &mut flag), "plain q quits");
    assert!(handle_command("  q ", &mut flag), "commands are trimmed");
    assert!(!handle_command("quit", &mut flag), "unknown commands are no-ops");
    let mut e = Editor::new(lines_of(&["one", "two"]), 80, 100, 5);
    assert_eq!(type_command(&mut e, "q"), EditorAction::Quit, ":q quits the loop");
}

#[test]
fn end_to_end_two_steps_down_then_quit() {
    let lines = lines_of(&["one", "two", "three", "four", "five"]);
    let mut e = Editor::new(lines, 40, 100, 3);
    let hash = e.document_hash;
    let mut log = ProgressLog::new();
    let mut last_action = EditorAction::Redraw;
    let script = [
        InputEvent::Char('j'),
        InputEvent::Char('j'),
        InputEvent::Char(':'),
        InputEvent::Char('q'),
        InputEvent::Enter,
    ];
    for ev in script {
        last_action = e.handle_event(ev);
        if last_action == EditorAction::Quit {
            break;
        }
        log.record(hash, e.offset as u64, e.total_lines as u64);
    }
    assert_eq!(last_action, EditorAction::Quit);
    assert_eq!(e.offset, 2);
    let p = log.latest(hash).expect("progress was persisted");
    assert_eq!(p.offset, 2);
    let pct = 100.0 * (p.offset as f64) / (p.total_lines as f64);
    assert!((pct - 40.0).abs() < 1e-9);
}

#[test]
fn unknown_commands_and_p_and_help_do_not_quit() {
    let mut e = Editor::new(lines_of(&["one", "two"]), 80, 100, 5);
    assert!(!e.show_progress);
    assert_eq!(type_command(&mut e, "p"), EditorAction::Redraw);
    assert!(e.show_progress, "p toggles the percentage display");
    assert_eq!(type_command(&mut e, "help"), EditorAction::ShowTutorial);
    assert_eq!(type_command(&mut e, "tutorial"), EditorAction::ShowTutorial);
    assert_eq!(type_command(&mut e, "nonsense"), EditorAction::Redraw);
    assert_eq!(e.editor_state.mode, EditorMode::Normal);
}

#[test]
fn search_commits_centers_and_repeats() {
    let lines = lines_of(&["one", "two", "three", "four", "five"]);
    let mut e = Editor::new(lines, 40, 100, 3);
    e.handle_event(InputEvent::Char('/'));
    assert_eq!(e.editor_state.mode, EditorMode::Search);
    for c in "three".chars() {
        e.handle_event(InputEvent::Char(c));
    }
    e.handle_event(InputEvent::Enter);
    assert_eq!(e.editor_state.mode, EditorMode::Normal);
    assert_eq!(e.editor_state.search_query, "three");
    assert_eq!(e.editor_state.command_buffer, "");
    assert_eq!(e.editor_state.current_match, Some((2, 0, 5)));
    assert_eq!(e.offset, 1, "the match line sits mid-viewport");
    // n repeats in the same direction; the only hit is found again
    e.handle_event(InputEvent::Char('n'));
    assert_eq!(e.editor_state.current_match, Some((2, 0, 5)));
    // N reverses; still the same single hit
    e.handle_event(InputEvent::Char('N'));
    assert_eq!(e.editor_state.current_match, Some((2, 0, 5)));
}

#[test]
fn escape_discards_the_buffer_and_backspace_pops() {
    let mut e = Editor::new(lines_of(&["one", "two"]), 80, 100, 5);
    e.handle_event(InputEvent::Char(':'));
    e.handle_event(InputEvent::Char('x'));
    e.handle_event(InputEvent::Char('y'));
    assert_eq!(e.editor_state.command_buffer, "xy");
    e.handle_event(InputEvent::Backspace);
    assert_eq!(e.editor_state.command_buffer, "x");
    e.handle_event(InputEvent::Esc);
    assert_eq!(e.editor_state.mode, EditorMode::Normal);
    assert_eq!(e.editor_state.command_buffer, "");
    // a reverse search entry sets the direction
    e.handle_event(InputEvent::Char('?'));
    assert_eq!(e.editor_state.mode, EditorMode::ReverseSearch);
    assert!(!e.editor_state.search_direction);
    e.handle_event(InputEvent::Esc);
    e.handle_event(InputEvent::Char('/'));
    assert!(e.editor_state.search_direction);
}

#[test]
fn resize_updates_geometry_without_renormalizing() {
    let mut e = Editor::new(lines_of(&["one", "two", "three"]), 80, 100, 2);
    e.handle_event(InputEvent::Char('j'));
    assert_eq!(e.offset, 1);
    e.handle_event(InputEvent::Resize(50, 40));
    assert_eq!(e.width, 50);
    assert_eq!(e.height, 40);
    assert_eq!(e.offset, 1, "resize leaves the offset alone");
    e.handle_event(InputEvent::Resize(50, 0));
    assert_eq!(e.height, 1, "a zero-height report is floored at one row");
}

#[test]
fn progress_resume_clamps_to_the_document() {
    let mut e = Editor::new(lines_of(&["one", "two", "three"]), 80, 100, 2);
    e.apply_progress(Some(2));
    assert_eq!(e.offset, 2);
    e.apply_progress(Some(7));
    assert_eq!(e.offset, 0, "a stale offset past the end falls back to the top");
    e.apply_progress(None);
    assert_eq!(e.offset, 0);
}

#[test]
fn render_projects_the_visible_window() {
    let lines = lines_of(&["one", "two", "three", "four", "five"]);
    let mut e = Editor::new(lines, 10, 20, 3);
    e.handle_event(InputEvent::Char('j'));
    let f = render(&e);
    assert_eq!(f.rows.len(), 3);
    assert_eq!(f.rows[0].text, "two");
    assert_eq!(f.rows[1].text, "three");
    assert_eq!(f.rows[2].text, "four");
    assert_eq!(f.rows[0].padding, 5, "centering pads (20/2 - 10/2) spaces");
    assert!(!f.rows[0].highlighted);
    assert!(f.rows[1].highlighted, "the mid-viewport row carries the highlighter");
    assert!(f.status.is_none());
    assert!(f.percent.is_none());
}

#[test]
fn render_marks_match_status_and_percent() {
    let lines = lines_of(&["one", "two", "three", "four", "five"]);
    let mut e = Editor::new(lines, 10, 20, 3);
    e.handle_event(InputEvent::Char('/'));
    for c in "three".chars() {
        e.handle_event(InputEvent::Char(c));
    }
    let f = render(&e);
    assert_eq!(f.status.as_deref(), Some("/three"));
    e.handle_event(InputEvent::Enter);
    let f2 = render(&e);
    assert_eq!(f2.rows[1].match_span, Some((0, 5)), "the match row carries its span");
    assert_eq!(f2.rows[0].match_span, None);
    assert_eq!(type_command(&mut e, "p"), EditorAction::Redraw);
    let f3 = render(&e);
    assert_eq!(f3.percent, Some(20), "offset 1 of 5 lines reads as 20 percent");
    e.handle_event(InputEvent::Char(':'));
    e.handle_event(InputEvent::Char('q'));
    let f4 = render(&e);
    assert_eq!(f4.status.as_deref(), Some(":q"));
}

#[test]
fn tutorial_scrolls_and_any_other_key_leaves() {
    assert_eq!(tutorial_step(0, 5, 22, InputEvent::Char('j')), Some(1));
    assert_eq!(tutorial_step(17, 5, 22, InputEvent::Char('j')), Some(17));
    assert_eq!(tutorial_step(0, 5, 22, InputEvent::Char('k')), Some(0));
    assert_eq!(tutorial_step(3, 5, 22, InputEvent::Up), Some(2));
    assert_eq!(tutorial_step(0, 5, 22, InputEvent::PageDown), Some(5));
    assert_eq!(tutorial_step(15, 5, 22, InputEvent::PageDown), Some(17));
    assert_eq!(tutorial_step(4, 5, 22, InputEvent::PageUp), Some(0));
    assert_eq!(tutorial_step(2, 5, 22, InputEvent::Resize(10, 10)), Some(2));
    assert_eq!(tutorial_step(2, 5, 22, InputEvent::Char('x')), None);
    assert_eq!(tutorial_step(2, 5, 22, InputEvent::Enter), None);
    let text = get_tutorial_text();
    assert_eq!(text.len(), 22);
    assert_eq!(text[0], "Welcome to the text reader!");
    assert_eq!(text.last().unwrap(), "Press any key to continue...");
    assert_eq!(text, get_tutorial_text(), "the help screen is fixed");
}

#[test]
fn configuration_defaults_and_values() {
    let c = AppConfig::default();
    assert!(effective_highlighter(&c), "the highlighter defaults to on");
    assert!(wants_tutorial(&c, false, false), "no prior progress shows the tutorial");
    assert!(!wants_tutorial(&c, false, true));
    assert!(wants_tutorial(&c, true, true), "an empty document shows the tutorial");
    let off = AppConfig { enable_tutorial: Some(false), enable_line_highlighter: Some(false) };
    assert!(!wants_tutorial(&off, true, false), "the configuration can turn it off");
    assert!(!effective_highlighter(&off));
    assert!(config_value("true"));
    assert!(config_value("TRUE"));
    assert!(!config_value("false"));
    assert!(!config_value("yes"));
}
