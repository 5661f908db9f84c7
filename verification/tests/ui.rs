use boardswarm::server::ListedItem;
use boardswarm::ui::{
    cursor_at, key_to_bytes, AppAction, AppEvent, AppState, DeviceSelector, KeyCode, KeyEvent,
    RunAction, RunningState, SelectAction, Size, StatusColor, TerminalSizeSetting,
    TerminalSizeSettingError, UiStatus, UiStatusMode,
};
use boardswarm::ui_term::{paint, Area, Cell, CellColor, CellStyle, Paint, Painted, UiTerm};

#[test]
fn terminal_size_setting() {
    // Nominal

    // auto string
    let size = TerminalSizeSetting::from_str("auto");
    assert_eq!(size, Ok(TerminalSizeSetting::Auto));

    // Fixed string
    let size = TerminalSizeSetting::from_str("166x58");
    assert_eq!(
        size,
        Ok(TerminalSizeSetting::Fixed(Size {
            width: 166,
            height: 58
        }))
    );

    // Errors

    // Invalid string
    let size = TerminalSizeSetting::from_str("random");
    assert_eq!(size, Err(TerminalSizeSettingError::ParseError));

    // Only a width
    let size = TerminalSizeSetting::from_str("80");
    assert_eq!(size, Err(TerminalSizeSettingError::ParseError));

    // No height
    let size = TerminalSizeSetting::from_str("80x");
    assert_eq!(size, Err(TerminalSizeSettingError::ParseError));

    // Invalid width format
    let size = TerminalSizeSetting::from_str("80xA");
    assert_eq!(size, Err(TerminalSizeSettingError::ParseError));

    // Invalid height format
    let size = TerminalSizeSetting::from_str("Ax24");
    assert_eq!(size, Err(TerminalSizeSettingError::ParseError));

    // Null width value
    let size = TerminalSizeSetting::from_str("0x24");
    assert_eq!(size, Err(TerminalSizeSettingError::InvalidSizeError));

    // Null height value
    let size = TerminalSizeSetting::from_str("80x0");
    assert_eq!(size, Err(TerminalSizeSettingError::InvalidSizeError));
}

fn render(parser: &vt100::Parser, painted_cols: &mut Vec<u16>) -> Painted {
    let (rows, cols) = parser.screen().size();
    let area = Area { x: 0, y: 0, width: cols, height: rows };
    UiTerm::new(parser.screen()).render(area, painted_cols).unwrap()
}

fn skip(painted: &Painted, col: usize, row: usize) -> bool {
    matches!(painted.rows[row][col], Paint::Skip)
}

fn symbol(painted: &Painted, col: usize, row: usize) -> &str {
    match &painted.rows[row][col] {
        Paint::Show(cell) => cell.contents.as_str(),
        Paint::Blank => " ",
        Paint::Skip => panic!("the cell is skipped"),
    }
}

#[test]
fn trailing_cells_are_skipped() {
    let mut parser = vt100::Parser::new(2, 20, 0);
    parser.process(b"hello");

    let mut painted_cols = Vec::new();
    let buf = render(&parser, &mut painted_cols);

    // The cells holding "hello" are painted.
    for col in 0..5 {
        assert!(!skip(&buf, col, 0), "col {col} should be painted");
    }
    // Everything past the content on both rows is left untouched so copied
    // lines carry no trailing whitespace.
    for col in 5..20 {
        assert!(skip(&buf, col, 0), "col {col} should be skipped");
    }
    for col in 0..20 {
        assert!(skip(&buf, col, 1), "empty row col {col} should be skipped");
    }
}

#[test]
fn shrinking_line_clears_stale_cells() {
    let mut parser = vt100::Parser::new(1, 20, 0);
    parser.process(b"hello world");

    let mut painted_cols = Vec::new();
    render(&parser, &mut painted_cols);

    // Redraw the line as something shorter.
    parser.process(b"\r\x1b[Khi");
    let buf = render(&parser, &mut painted_cols);

    assert_eq!(symbol(&buf, 0, 0), "h");
    assert_eq!(symbol(&buf, 1, 0), "i");
    // Cells that previously held "llo world" are cleared (not skipped) so no
    // stale glyphs remain on the terminal.
    for col in 2..11 {
        assert!(!skip(&buf, col, 0), "stale col {col} should be cleared");
        assert_eq!(symbol(&buf, col, 0), " ");
    }
    // Cells that were never painted stay untouched.
    for col in 11..20 {
        assert!(skip(&buf, col, 0), "col {col} should be skipped");
    }
}

#[test]
fn cells_keep_their_look() {
    let mut parser = vt100::Parser::new(1, 4, 0);
    parser.process(b"\x1b[1;3;4;7;31mx\x1b[0;38;2;1;2;3my");
    let buf = render(&parser, &mut Vec::new());
    match &buf.rows[0][0] {
        Paint::Show(cell) => {
            assert_eq!(cell.contents, "x");
            assert!(cell.style.bold && cell.style.italic);
            assert!(cell.style.underline && cell.style.inverse);
            assert_eq!(cell.style.fg, CellColor::Idx(1));
            assert_eq!(cell.style.bg, CellColor::Default);
        }
        _ => panic!("the cell is painted"),
    }
    match &buf.rows[0][1] {
        Paint::Show(cell) => assert_eq!(cell.style.fg, CellColor::Rgb(1, 2, 3)),
        _ => panic!("the cell is painted"),
    }
}

#[test]
fn scrolling_back_is_shown() {
    let mut parser = vt100::Parser::new(2, 10, 10);
    parser.process(b"a\r\nb\r\nc\r\nd");
    parser.screen_mut().set_scrollback(2);
    let mut painted_cols = Vec::new();
    let buf = render(&parser, &mut painted_cols);
    let overlay = buf.overlay.as_ref().unwrap();
    assert_eq!((overlay.text.as_str(), overlay.x, overlay.y), (" -2 ", 6, 0));
    assert_eq!(symbol(&buf, 0, 0), "a");
    assert_eq!(painted_cols, vec![10, 1]);
    parser.screen_mut().set_scrollback(0);
    let buf = render(&parser, &mut painted_cols);
    assert!(buf.overlay.is_none());
    assert_eq!(symbol(&buf, 9, 0), " ");
    assert_eq!(painted_cols, vec![1, 1]);
}

#[test]
fn a_text_that_does_not_fit_is_not_painted() {
    let mut parser = vt100::Parser::new(2, 3, 10);
    parser.process(b"a\r\nb\r\nc\r\nd");
    parser.screen_mut().set_scrollback(1);
    let area = Area { x: 0, y: 0, width: 3, height: 2 };
    let mut painted_cols = vec![7];
    assert!(UiTerm::new(parser.screen()).render(area, &mut painted_cols).is_none());
    assert_eq!(painted_cols, vec![7]);
}

#[test]
fn blank_cells_within_a_line_are_cleared() {
    let style = CellStyle {
        bold: false,
        italic: false,
        inverse: false,
        underline: false,
        fg: CellColor::Default,
        bg: CellColor::Default,
    };
    let row = vec![None, Some(Cell { contents: "x".to_string(), style }), None];
    let area = Area { x: 0, y: 0, width: 3, height: 1 };
    let mut painted_cols = vec![];
    let painted = paint(vec![row], 0, area, &mut painted_cols);
    assert!(matches!(painted.rows[0][0], Paint::Blank));
    assert!(matches!(painted.rows[0][1], Paint::Show(_)));
    assert!(matches!(painted.rows[0][2], Paint::Skip));
    assert_eq!(painted_cols, vec![2]);
}

fn key(code: KeyCode) -> KeyEvent {
    KeyEvent { code, control: false, press: true }
}

fn control(c: char) -> KeyEvent {
    KeyEvent { code: KeyCode::Char(c), control: true, press: true }
}

fn items(names: &[&str]) -> Vec<ListedItem> {
    names
        .iter()
        .enumerate()
        .map(|(i, n)| ListedItem { id: i as u64 + 10, name: n.to_string(), instance: None })
        .collect()
}

#[test]
fn devices_are_selected_with_keys() {
    let mut selector = DeviceSelector::new(items(&["a", "b"]));
    assert!(selector.handle_key(key(KeyCode::Up)).is_none());
    assert_eq!(selector.list().1, 0);
    assert!(selector.handle_key(key(KeyCode::Char('j'))).is_none());
    assert!(selector.handle_key(key(KeyCode::Down)).is_none());
    assert_eq!(selector.list(), (vec!["a".to_string(), "b".to_string()], 1));
    assert_eq!(selector.handle_key(key(KeyCode::Enter)), Some(SelectAction::Select(11)));
    let released = KeyEvent { code: KeyCode::Enter, control: false, press: false };
    assert!(selector.handle_key(released).is_none());
    assert!(selector.handle_key(key(KeyCode::Char('k'))).is_none());
    assert_eq!(selector.handle_key(key(KeyCode::Enter)), Some(SelectAction::Select(10)));
    assert_eq!(selector.handle_key(key(KeyCode::Esc)), Some(SelectAction::Quit));
    assert_eq!(selector.handle_key(key(KeyCode::Char('q'))), Some(SelectAction::Quit));
}

#[test]
fn keys_become_bytes() {
    assert_eq!(key_to_bytes(key(KeyCode::Char('x'))), Some(b"x".to_vec()));
    assert_eq!(key_to_bytes(key(KeyCode::Char('é'))), Some("é".as_bytes().to_vec()));
    assert_eq!(key_to_bytes(control('c')), Some(vec![3]));
    assert_eq!(key_to_bytes(control('C')), Some(vec![3]));
    assert_eq!(key_to_bytes(control('[')), Some(vec![0xfb]));
    assert_eq!(key_to_bytes(key(KeyCode::Enter)), Some(b"\r".to_vec()));
    assert_eq!(key_to_bytes(key(KeyCode::Backspace)), Some(b"\x7f".to_vec()));
    assert_eq!(key_to_bytes(key(KeyCode::Tab)), Some(b"\t".to_vec()));
    assert_eq!(key_to_bytes(key(KeyCode::BackTab)), Some(b"\x1b[Z".to_vec()));
    assert_eq!(key_to_bytes(key(KeyCode::Esc)), Some(b"\x1b".to_vec()));
    assert_eq!(key_to_bytes(key(KeyCode::Up)), Some(b"\x1b[A".to_vec()));
    assert_eq!(key_to_bytes(key(KeyCode::Down)), Some(b"\x1b[B".to_vec()));
    assert_eq!(key_to_bytes(key(KeyCode::Right)), Some(b"\x1b[C".to_vec()));
    assert_eq!(key_to_bytes(key(KeyCode::Left)), Some(b"\x1b[D".to_vec()));
    assert_eq!(key_to_bytes(key(KeyCode::Home)), Some(b"\x1b[H".to_vec()));
    assert_eq!(key_to_bytes(key(KeyCode::End)), Some(b"\x1b[F".to_vec()));
    assert_eq!(key_to_bytes(key(KeyCode::Insert)), Some(b"\x1b[2~".to_vec()));
    assert_eq!(key_to_bytes(key(KeyCode::Delete)), Some(b"\x1b[3~".to_vec()));
    assert_eq!(key_to_bytes(key(KeyCode::PageUp)), Some(b"\x1b[5~".to_vec()));
    assert_eq!(key_to_bytes(key(KeyCode::PageDown)), Some(b"\x1b[6~".to_vec()));
    let functions: [&[u8]; 12] = [
        b"\x1bOP", b"\x1bOQ", b"\x1bOR", b"\x1bOS", b"\x1b[15~", b"\x1b[17~", b"\x1b[18~",
        b"\x1b[19~", b"\x1b[20~", b"\x1b[21~", b"\x1b[23~", b"\x1b[24~",
    ];
    for (i, bytes) in functions.iter().enumerate() {
        assert_eq!(key_to_bytes(key(KeyCode::F(i as u8 + 1))), Some(bytes.to_vec()));
    }
    assert_eq!(key_to_bytes(key(KeyCode::F(13))), None);
    assert_eq!(key_to_bytes(key(KeyCode::Other)), None);
}

#[test]
fn commands_come_behind_control_a() {
    let mut state = RunningState::new(TerminalSizeSetting::Auto);
    assert!(matches!(state.handle_key(key(KeyCode::Char('q')), 0), RunAction::Send(b) if b == b"q"));
    assert!(matches!(state.handle_key(control('a'), 0), RunAction::Nothing));
    assert!(state.saw_escape);
    assert!(matches!(state.handle_key(key(KeyCode::Char('r')), 0),
        RunAction::ChangeModes(m) if m == ["off", "on"]));
    assert!(!state.saw_escape);
    for (c, scrollback, expected) in [('k', 3, Some(4)), ('j', 3, Some(2)), ('j', 0, None), ('0', 3, Some(0))] {
        state.handle_key(control('a'), 0);
        match state.handle_key(key(KeyCode::Char(c)), scrollback) {
            RunAction::SetScrollback(n) => assert_eq!(Some(n), expected),
            RunAction::Nothing => assert_eq!(None, expected),
            _ => panic!("unexpected action"),
        }
    }
    state.handle_key(control('a'), 0);
    assert!(matches!(state.handle_key(key(KeyCode::Char('o')), 0),
        RunAction::ChangeModes(m) if m == ["on"]));
    state.handle_key(control('a'), 0);
    assert!(matches!(state.handle_key(key(KeyCode::Char('f')), 0),
        RunAction::ChangeModes(m) if m == ["off"]));
    state.handle_key(control('a'), 0);
    assert!(matches!(state.handle_key(key(KeyCode::Enter), 9), RunAction::SetScrollback(0)));
    state.handle_key(control('a'), 0);
    assert!(matches!(state.handle_key(key(KeyCode::Char('q')), 0), RunAction::Exit));
}

#[test]
fn the_user_interface_runs() {
    let setting = TerminalSizeSetting::Auto;
    assert_eq!(
        AppState::start(false, setting, vec![]).unwrap_err(),
        "No devices available on the server"
    );
    let mut app = AppState::start(false, setting, items(&["a", "b"])).unwrap();
    assert!(matches!(app.on_event(AppEvent::Resize(1, 2), 0), AppAction::Draw));
    assert!(matches!(app.on_event(AppEvent::Key(key(KeyCode::Down)), 0), AppAction::Draw));
    assert!(matches!(app.on_event(AppEvent::Key(key(KeyCode::Enter)), 0), AppAction::Open(11)));
    let mut app = AppState::start(true, setting, vec![]).unwrap();
    assert!(matches!(app.on_event(AppEvent::Resize(1, 2), 0),
        AppAction::Resize(Size { width: 1, height: 2 })));
    assert!(matches!(app.on_event(AppEvent::Output(vec![7]), 0), AppAction::Process(d) if d == [7]));
    assert!(matches!(app.on_event(AppEvent::Other, 0), AppAction::Draw));
    assert!(matches!(app.on_event(AppEvent::OutputEnded, 0), AppAction::Exit));
    assert!(matches!(app.on_event(AppEvent::EventsEnded, 0), AppAction::Exit));
    let fixed = TerminalSizeSetting::Fixed(Size { width: 80, height: 24 });
    let mut app = AppState::start(true, fixed, vec![]).unwrap();
    assert!(matches!(app.on_event(AppEvent::Resize(1, 2), 0), AppAction::Draw));
}

#[test]
fn a_terminal_stays_within_the_window() {
    let fixed = TerminalSizeSetting::Fixed(Size { width: 80, height: 24 });
    let window = Size { width: 40, height: 50 };
    assert_eq!(fixed.area_in(window), Area { x: 0, y: 0, width: 40, height: 24 });
    let auto = TerminalSizeSetting::Auto;
    assert_eq!(auto.area_in(window), Area { x: 0, y: 0, width: 40, height: 50 });
    assert_eq!(cursor_at(3, 4, false, 0), Some((4, 3)));
    assert_eq!(cursor_at(3, 4, true, 0), None);
    assert_eq!(cursor_at(3, 4, false, 1), None);
}

#[test]
fn the_status_line_tells_errors() {
    let normal = UiStatus::new(UiStatusMode::Normal);
    assert_eq!(normal.status_text(), "Normal");
    assert_eq!(normal.status_style(), (StatusColor::Black, StatusColor::Gray));
    let error = UiStatus::new(UiStatusMode::Error("lost".to_string()));
    assert_eq!(error.status_text(), "Error: lost");
    assert_eq!(error.status_style(), (StatusColor::Black, StatusColor::LightRed));
    assert_eq!(
        TerminalSizeSettingError::ParseError.message(),
        "unable to parse terminal setting format"
    );
    assert_eq!(
        TerminalSizeSettingError::InvalidSizeError.message(),
        "invalid size, width and height should greater than 0"
    );
}
