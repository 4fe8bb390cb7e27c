use pcf_parser::tui::build_lines;
use pcf_parser::tui::visible_range;
use pcf_parser::tui::MenuItem;
use pcf_parser::tui::UiEvent;
use pcf_parser::tui::ViewerMode;
use pcf_parser::tui::ViewerState;

fn fresh_state() -> ViewerState {
    ViewerState {
        scroll: 0,
        bytes_per_line: 16,
        mode: ViewerMode::View,
        goto_input: String::new(),
        menu_selected: 0,
    }
}

#[test]
fn hex_dump_does_not_panic() {
    let buf = format!("Hello, PCF!\n").into_bytes();
    let lines = build_lines(&buf, None, 8);
    assert_eq!(lines.len(), 2);
    assert_eq!(lines[0].off, 0);
    assert_eq!(lines[1].off, 8);
    assert_eq!(lines[0].vals, b"Hello, P".to_vec());
    // the final partial row pads with zeros
    assert_eq!(lines[1].vals, vec![b'C', b'F', b'!', b'\n', 0, 0, 0, 0]);
}

#[test]
fn build_lines_flags_differences() {
    let a = b"ABCDEFGH".to_vec();
    let b = b"ABXDEFGH".to_vec();
    let lines = build_lines(&a, Some(&b), 4);
    assert_eq!(lines.len(), 2);
    assert_eq!(lines[0].diffs, vec![false, false, true, false]);
    assert_eq!(lines[1].diffs, vec![false, false, false, false]);
    // without a second buffer nothing is flagged
    let solo = build_lines(&a, None, 4);
    assert_eq!(solo[0].diffs, vec![false, false, false, false]);
}

#[test]
fn menu_items_and_titles() {
    let all = MenuItem::all();
    assert_eq!(all, vec![MenuItem::HexView, MenuItem::DiffView]);
    assert_eq!(MenuItem::HexView.title(), "Hex View");
    assert_eq!(MenuItem::DiffView.title(), "Diff View");
}

#[test]
fn goto_jump_parses_hex_and_decimal() {
    let mut s = fresh_state();
    s.goto_input = "0x20".to_string();
    assert!(s.try_jump());
    assert_eq!(s.scroll, 2);

    s.goto_input = " 48 ".to_string();
    assert!(s.try_jump());
    assert_eq!(s.scroll, 3);

    s.goto_input = "10h".to_string();
    assert!(s.try_jump());
    assert_eq!(s.scroll, 1);

    s.goto_input = "1FH".to_string();
    assert!(s.try_jump());
    assert_eq!(s.scroll, 1);

    // an empty input is accepted and changes nothing
    s.goto_input = "   ".to_string();
    let before = s.scroll;
    assert!(s.try_jump());
    assert_eq!(s.scroll, before);

    // garbage is rejected and changes nothing
    s.goto_input = "0xZZ".to_string();
    assert!(!s.try_jump());
    assert_eq!(s.scroll, before);
}

#[test]
fn visible_range_clamps_the_window() {
    // plenty of lines: the window follows the scroll position
    assert_eq!(visible_range(3, 100, 10), (3, 13));
    // near the end the start is clamped so a full window still fits
    assert_eq!(visible_range(95, 100, 10), (90, 100));
    // fewer lines than rows: everything is shown from the top
    assert_eq!(visible_range(7, 4, 10), (0, 4));
    assert_eq!(visible_range(0, 0, 10), (0, 0));
}

#[test]
fn viewer_events_drive_the_state() {
    let mut s = fresh_state();
    assert!(!s.handle_event(UiEvent::KeyDown));
    assert!(!s.handle_event(UiEvent::MouseScrollDown));
    assert_eq!(s.scroll, 2);
    assert!(!s.handle_event(UiEvent::KeyUp));
    assert_eq!(s.scroll, 1);
    assert!(!s.handle_event(UiEvent::KeyRight));
    assert_eq!(s.menu_selected, 1);
    assert!(!s.handle_event(UiEvent::KeyLeft));
    assert_eq!(s.menu_selected, 0);

    // 'g' opens the goto prompt; characters build the input; enter jumps
    assert!(!s.handle_event(UiEvent::KeyChar('g')));
    assert_eq!(s.mode, ViewerMode::Goto);
    assert!(!s.handle_event(UiEvent::KeyChar('3')));
    assert!(!s.handle_event(UiEvent::KeyChar('4')));
    assert!(!s.handle_event(UiEvent::KeyBackspace));
    assert!(!s.handle_event(UiEvent::KeyChar('2')));
    assert_eq!(s.goto_input, "32");
    assert!(!s.handle_event(UiEvent::KeyEnter));
    assert_eq!(s.mode, ViewerMode::View);
    assert_eq!(s.scroll, 2);

    // 'q' quits only in view mode
    assert!(s.handle_event(UiEvent::KeyChar('q')));
}
