use reading_cli::cover::engine::CoverEngine;
use reading_cli::cover::op::CoverOp;
use reading_cli::highlight::analyzer::AnalyzerKind;
use reading_cli::library::BookLibrary;
use reading_cli::metadata::BookMetadata;
use reading_cli::session::ReadingSession;
use reading_cli::text_source::TextSource;
use reading_cli::tui::events::{
    accept_open_path, begin_switch_book, finish_load_annotations, finish_switch_book, handle_cover_key,
    handle_cover_mouse, handle_home_key, handle_open_input_key, handle_reading_key, handle_select_key,
    MouseScroll, ReaderCommand, ReaderKey,
};
use reading_cli::tui::state::{AppMode, TuiState};

fn unresolved(_: &str) -> Option<String> {
    None
}

fn text() -> TextSource {
    TextSource::from_bytes("一二三四五六七八九十".as_bytes())
}

fn session(offset: u64) -> ReadingSession {
    let mut metadata = BookMetadata::new("novel.txt".to_string());
    metadata.current_offset = offset;
    ReadingSession::new(metadata)
}

#[test]
fn state_starts_on_the_home_screen_at_the_saved_page() {
    let state = TuiState::new(&text(), 13, 4, 4);
    assert_eq!(state.app_mode, AppMode::Home);
    assert_eq!(state.body_rows, 2);
    assert_eq!(state.page_index.page_starts, vec![0, 12, 24]);
    assert_eq!(state.current_page_index, 1);
    assert_eq!(state.selected_home_item, 0);
    assert_eq!(state.analyzer_kind, AnalyzerKind::Jieba);
    assert!(state.home_error.is_none() && state.open_error.is_none());

    let tiny = TuiState::new(&text(), 0, 4, 1);
    assert_eq!(tiny.body_rows, 0);
}

#[test]
fn pages_turn_forward_and_back_and_record_the_offset() {
    let mut state = TuiState::new(&text(), 0, 4, 4);
    let mut session = session(0);

    state.next_page(&mut session);
    assert_eq!(state.current_page_index, 1);
    assert_eq!(session.metadata.current_offset, 12);
    state.next_page(&mut session);
    state.next_page(&mut session);
    assert_eq!(state.current_page_index, 2);
    assert_eq!(session.metadata.current_offset, 24);

    state.previous_page(&mut session);
    assert_eq!(state.current_page_index, 1);
    assert_eq!(session.metadata.current_offset, 12);
    state.previous_page(&mut session);
    state.previous_page(&mut session);
    assert_eq!(state.current_page_index, 0);
    assert_eq!(session.metadata.current_offset, 0);
}

#[test]
fn resizing_lays_the_pages_out_again() {
    let source = text();
    let mut state = TuiState::new(&source, 13, 4, 4);
    assert_eq!(state.resize_if_needed(&source, 13, 4, 4), None);
    assert_eq!(state.resize_if_needed(&source, 13, 8, 4), Some(0));
    assert_eq!(state.page_index.page_starts, vec![0, 24]);
    assert_eq!(state.current_page_index, 0);
    assert_eq!(state.resize_if_needed(&source, 25, 8, 4), None);
    assert_eq!(state.resize_if_needed(&source, 25, 8, 3), Some(24));
    assert_eq!(state.current_page_index, 2);
}

#[test]
fn home_menu_moves_round_its_entries() {
    let mut state = TuiState::new(&text(), 0, 4, 4);
    let mut session = session(0);
    assert_eq!(handle_home_key(ReaderKey::Up, &mut session, &mut state), ReaderCommand::Done);
    assert_eq!(state.selected_home_item, 4);
    handle_home_key(ReaderKey::Down, &mut session, &mut state);
    assert_eq!(state.selected_home_item, 0);
    handle_home_key(ReaderKey::Down, &mut session, &mut state);
    assert_eq!(state.selected_home_item, 1);
}

#[test]
fn home_menu_entries_do_what_they_say() {
    let mut session = session(0);

    let mut state = TuiState::new(&text(), 0, 4, 4);
    assert_eq!(handle_home_key(ReaderKey::Enter, &mut session, &mut state), ReaderCommand::LoadAnnotations);
    finish_load_annotations(&mut state, Err("no models".to_string()));
    assert_eq!(state.home_error.as_deref(), Some("no models"));
    assert_eq!(state.app_mode, AppMode::Home);
    finish_load_annotations(&mut state, Ok(()));
    assert_eq!(state.app_mode, AppMode::Reading);
    assert!(state.home_error.is_none());

    let mut state = TuiState::new(&text(), 0, 4, 4);
    state.selected_home_item = 1;
    assert_eq!(handle_home_key(ReaderKey::Enter, &mut session, &mut state), ReaderCommand::ClearInput);
    assert_eq!(state.app_mode, AppMode::OpenInput);

    let mut state = TuiState::new(&text(), 0, 4, 4);
    state.selected_home_item = 2;
    state.selected_book_index = 3;
    handle_home_key(ReaderKey::Enter, &mut session, &mut state);
    assert_eq!(state.app_mode, AppMode::Select);
    assert_eq!(state.selected_book_index, 0);

    let mut state = TuiState::new(&text(), 0, 4, 4);
    state.selected_home_item = 3;
    state.home_error = Some("old".to_string());
    handle_home_key(ReaderKey::Enter, &mut session, &mut state);
    assert_eq!(state.analyzer_kind, AnalyzerKind::LtpLegacyPos);
    assert!(state.home_error.is_none());
    handle_home_key(ReaderKey::Left, &mut session, &mut state);
    assert_eq!(state.analyzer_kind, AnalyzerKind::LtpLegacyNer);
    handle_home_key(ReaderKey::Right, &mut session, &mut state);
    assert_eq!(state.analyzer_kind, AnalyzerKind::Jieba);

    let mut state = TuiState::new(&text(), 0, 4, 4);
    handle_home_key(ReaderKey::Left, &mut session, &mut state);
    assert_eq!(state.analyzer_kind, AnalyzerKind::Jieba);
    state.selected_home_item = 4;
    assert!(session.running);
    handle_home_key(ReaderKey::Enter, &mut session, &mut state);
    assert!(!session.running);

    let mut other = self::session(0);
    handle_home_key(ReaderKey::Char('q'), &mut other, &mut state);
    assert!(!other.running);
}

fn shelf() -> BookLibrary {
    let mut library = BookLibrary::new("default.txt".to_string());
    for (name, at) in [("old.txt", 1), ("new.txt", 3), ("mid.txt", 2)] {
        let mut book = BookMetadata::new(name.to_string());
        book.last_opened_at = at;
        library.upsert_book(book, &unresolved, false);
    }
    library
}

#[test]
fn selection_moves_round_the_books_and_opens_one() {
    let library = shelf();
    let mut session = session(0);
    let mut state = TuiState::new(&text(), 0, 4, 4);
    state.app_mode = AppMode::Select;

    handle_select_key(ReaderKey::Up, &mut session, &library, &mut state);
    assert_eq!(state.selected_book_index, 2);
    handle_select_key(ReaderKey::Down, &mut session, &library, &mut state);
    assert_eq!(state.selected_book_index, 0);
    handle_select_key(ReaderKey::Down, &mut session, &library, &mut state);
    assert_eq!(
        handle_select_key(ReaderKey::Enter, &mut session, &library, &mut state),
        ReaderCommand::SwitchBook("mid.txt".to_string())
    );
    assert_eq!(handle_select_key(ReaderKey::Esc, &mut session, &library, &mut state), ReaderCommand::Done);
    assert_eq!(state.app_mode, AppMode::Home);
    handle_select_key(ReaderKey::Char('q'), &mut session, &library, &mut state);
    assert!(!session.running);
}

#[test]
fn selection_of_an_empty_shelf_does_nothing() {
    let library = BookLibrary::new("default.txt".to_string());
    let mut session = session(0);
    let mut state = TuiState::new(&text(), 0, 4, 4);
    handle_select_key(ReaderKey::Down, &mut session, &library, &mut state);
    assert_eq!(state.selected_book_index, 0);
    assert_eq!(handle_select_key(ReaderKey::Enter, &mut session, &library, &mut state), ReaderCommand::Done);
}

#[test]
fn path_input_checks_what_was_typed() {
    let mut state = TuiState::new(&text(), 0, 4, 4);
    state.app_mode = AppMode::OpenInput;

    assert_eq!(handle_open_input_key(ReaderKey::Enter, "  \"\" ", &mut state), ReaderCommand::Done);
    assert_eq!(state.open_error.as_deref(), Some("path is empty"));
    assert_eq!(handle_open_input_key(ReaderKey::Char('a'), "a", &mut state), ReaderCommand::EditInput);
    assert!(state.open_error.is_none());
    assert_eq!(
        handle_open_input_key(ReaderKey::Enter, " \"/books/a.txt\" ", &mut state),
        ReaderCommand::ResolvePath("/books/a.txt".to_string())
    );

    assert_eq!(accept_open_path(&mut state, None), None);
    assert_eq!(state.open_error.as_deref(), Some("file not found"));
    assert_eq!(accept_open_path(&mut state, Some("/books/a.md".to_string())), None);
    assert_eq!(state.open_error.as_deref(), Some("only .txt is supported"));
    assert_eq!(
        accept_open_path(&mut state, Some("/books/A.TXT".to_string())),
        Some("/books/A.TXT".to_string())
    );

    handle_open_input_key(ReaderKey::Esc, "", &mut state);
    assert_eq!(state.app_mode, AppMode::Home);
    assert!(state.open_error.is_none());
}

#[test]
fn reading_keys_turn_pages_and_start_cover_mode() {
    let mut state = TuiState::new(&text(), 0, 4, 4);
    state.app_mode = AppMode::Reading;
    let mut session = session(0);
    let mut cover: Option<CoverEngine> = None;

    handle_reading_key(ReaderKey::Char('n'), &mut session, &mut state, &mut cover, 0);
    assert_eq!(session.metadata.current_offset, 12);
    handle_reading_key(ReaderKey::Char('p'), &mut session, &mut state, &mut cover, 0);
    assert_eq!(session.metadata.current_offset, 0);
    handle_reading_key(ReaderKey::Char('c'), &mut session, &mut state, &mut cover, 500);
    assert_eq!(state.app_mode, AppMode::Cover);
    let engine = cover.as_ref().unwrap();
    assert!(!engine.has_module());
    assert_eq!(engine.terminal().visible_rows(10, 10), [""]);

    handle_cover_key(ReaderKey::Char('c'), &mut state, &mut cover, 10, 10);
    assert!(cover.is_none());
    assert_eq!(state.app_mode, AppMode::Reading);

    handle_reading_key(ReaderKey::Char('h'), &mut session, &mut state, &mut cover, 0);
    assert_eq!(state.app_mode, AppMode::Home);
    handle_reading_key(ReaderKey::Char('q'), &mut session, &mut state, &mut cover, 0);
    assert!(!session.running);
}

#[test]
fn cover_keys_scroll_the_terminal() {
    let mut state = TuiState::new(&text(), 0, 4, 4);
    state.app_mode = AppMode::Cover;
    let mut engine = CoverEngine::new(100, 0);
    engine.start_module(Some("demo"), 0);
    for line in ["a", "b", "c", "d"] {
        engine.terminal_mut().apply(CoverOp::Write(line.to_string()));
        engine.terminal_mut().apply(CoverOp::NewLine);
    }
    let mut cover = Some(engine);
    let shown = |cover: &Option<CoverEngine>| cover.as_ref().unwrap().terminal().visible_rows(10, 2);
    assert_eq!(shown(&cover), ["d", ""]);
    handle_cover_key(ReaderKey::Up, &mut state, &mut cover, 10, 2);
    assert_eq!(shown(&cover), ["c", "d"]);
    handle_cover_key(ReaderKey::PageUp, &mut state, &mut cover, 10, 2);
    assert_eq!(shown(&cover), ["a", "b"]);
    handle_cover_key(ReaderKey::Down, &mut state, &mut cover, 10, 2);
    assert_eq!(shown(&cover), ["b", "c"]);
    handle_cover_key(ReaderKey::End, &mut state, &mut cover, 10, 2);
    assert_eq!(shown(&cover), ["d", ""]);
    handle_cover_mouse(MouseScroll::Up, cover.as_mut().unwrap(), 10, 2);
    assert_eq!(shown(&cover), ["a", "b"]);
    handle_cover_key(ReaderKey::PageDown, &mut state, &mut cover, 10, 2);
    assert_eq!(shown(&cover), ["c", "d"]);
    handle_cover_mouse(MouseScroll::Down, cover.as_mut().unwrap(), 10, 2);
    assert_eq!(shown(&cover), ["d", ""]);
    assert_eq!(state.app_mode, AppMode::Cover);

    let mut none: Option<CoverEngine> = None;
    handle_cover_key(ReaderKey::Up, &mut state, &mut none, 10, 2);
    assert_eq!(state.app_mode, AppMode::Reading);
}

#[test]
fn switching_books_keeps_the_progress_of_both() {
    let mut library = BookLibrary::new("default.txt".to_string());
    let mut other = BookMetadata::new("other.txt".to_string());
    other.current_offset = 12;
    library.upsert_book(other, &unresolved, false);
    let mut session = session(24);
    let mut state = TuiState::new(&text(), 24, 4, 4);
    state.app_mode = AppMode::Select;
    state.open_error = Some("x".to_string());

    begin_switch_book(&mut session, &mut library, "other.txt".to_string(), 77, &unresolved, false);
    assert_eq!(session.metadata.book_path, "other.txt");
    assert_eq!(session.metadata.current_offset, 12);
    assert_eq!(session.metadata.last_opened_at, 77);
    assert_eq!(library.current_book_path, "other.txt");
    let saved = library.books.iter().find(|b| b.book_path == "novel.txt").unwrap();
    assert_eq!(saved.current_offset, 24);

    let new_text = TextSource::from_bytes("甲乙丙丁戊己庚辛".as_bytes());
    finish_switch_book(&mut state, &mut session, &new_text);
    assert_eq!(session.metadata.file_len, 24);
    assert_eq!(state.page_index.page_starts, vec![0, 12]);
    assert_eq!(state.current_page_index, 1);
    assert_eq!(state.app_mode, AppMode::Reading);
    assert!(state.open_error.is_none());
}

#[test]
fn home_screen_lists_the_entries_and_marks_the_selected_one() {
    let mut state = TuiState::new(&text(), 0, 4, 4);
    state.selected_home_item = 3;
    assert_eq!(
        reading_cli::tui::home::home_screen_text(&state),
        "ReadingCLI\n\n  Continue\n  Open New Book\n  Select\n> Analyzer: jieba\n  Quit\n\
         \nUp/Down: move | Left/Right: switch analyzer | Enter: select | q: quit"
    );
    state.selected_home_item = 0;
    state.analyzer_kind = AnalyzerKind::LtpLegacyNer;
    state.home_error = Some("failed to load ltp legacy analyzer".to_string());
    let text = reading_cli::tui::home::home_screen_text(&state);
    assert!(text.starts_with("ReadingCLI\n\n> Continue\n"));
    assert!(text.contains("  Analyzer: ltp-ner\n  Quit\n\nfailed to load ltp legacy analyzer\n\nUp/Down"));
}

#[test]
fn switching_to_the_same_book_keeps_the_position() {
    let mut library = BookLibrary::new("default.txt".to_string());
    let mut session = ReadingSession::new({
        let mut m = BookMetadata::new("dir/novel.txt".to_string());
        m.current_offset = 12;
        m.file_len = 30;
        m
    });
    begin_switch_book(&mut session, &mut library, "dir\\novel.txt".to_string(), 5, &unresolved, false);
    assert_eq!(session.metadata.book_path, "dir/novel.txt");
    assert_eq!(session.metadata.current_offset, 12);
    assert_eq!(session.metadata.file_len, 30);
    assert_eq!(session.metadata.last_opened_at, 5);
    assert_eq!(library.books.len(), 2);
}
