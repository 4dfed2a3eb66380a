//! What each key does on each screen of the reader. The work that needs the
//! file system or the analyzers is handed back to the caller as a command, and
//! its outcome is handed in again.
use vstd::prelude::*;
use vstd::arithmetic::div_mod::{lemma_add_mod_noop, lemma_mod_add_multiples_vanish, lemma_mod_self_0, lemma_small_mod};
use crate::cover::engine::CoverEngine;
use crate::cover::terminal::{TermState, scroll_down_spec, scroll_up_spec};
use crate::highlight::analyzer::{next_kind_spec, string_from_str};
use crate::library::{
    BookLibrary, book_with_key, books_except, lemma_find_book, lemma_upsert_keeps_others, lemma_upsert_then_lookup,
    newest_first, opened_at, upsert_spec, identity_under, resolver_ok,
};
use crate::metadata::BookMetadata;
use crate::page_index::{PageIndex, page_for_offset};
use crate::path_text::{has_txt_extension, is_txt_path, trim_typed_path, typed_path};
use crate::session::ReadingSession;
use crate::text_source::TextSource;
use crate::tui::state::{AppMode, HOME_ITEM_COUNT, TuiState, page_start_of};

verus! {

broadcast use vstd::string::group_string_axioms;

/// A key the reader reacts to.
#[derive(Debug, Clone, Copy, PartialEq, Eq, Structural)]
pub enum ReaderKey {
    Up,
    Down,
    Left,
    Right,
    Enter,
    Esc,
    PageUp,
    PageDown,
    End,
    Char(char),
    Other,
}

/// A mouse wheel movement.
#[derive(Debug, Clone, Copy, PartialEq, Eq, Structural)]
pub enum MouseScroll {
    Up,
    Down,
    Other,
}

/// What the caller has to do after a key.
#[derive(Debug, Clone, PartialEq, Eq)]
pub enum ReaderCommand {
    /// Nothing.
    Done,
    /// Empty the path input field.
    ClearInput,
    /// Hand the key to the path input field.
    EditInput,
    /// Load or build the current book's annotations with the selected
    /// analyzer, and report with `finish_load_annotations`.
    LoadAnnotations,
    /// Resolve the typed path on disk and report with `accept_open_path`.
    ResolvePath(String),
    /// Switch to the book at this path: `begin_switch_book`, open it, load its
    /// annotations, then `finish_switch_book`.
    SwitchBook(String),
}

/// The path the default book is stored under; it is not listed for selection.
pub const DEFAULT_BOOK_PATH: &'static str = "default.txt";

/// Index one up in a list of `n` entries, wrapping to the last.
pub open spec fn wrap_up(i: usize, n: usize) -> int {
    (i + n - 1) % (n as int)
}

/// Index one down in a list of `n` entries, wrapping to the first.
pub open spec fn wrap_down(i: usize, n: usize) -> int {
    (i + 1) % (n as int)
}

fn cycle_up(i: usize, n: usize) -> (r: usize)
    requires
        n > 0,
    ensures
        r == wrap_up(i, n),
{
    let j: usize = i % n;
    proof {
        lemma_add_mod_noop(i as int, n - 1, n as int);
        lemma_small_mod((n - 1) as nat, n as nat);
        if j > 0 {
            lemma_mod_add_multiples_vanish(j - 1, n as int);
            lemma_small_mod((j - 1) as nat, n as nat);
        }
    }
    if j == 0 {
        n - 1
    } else {
        j - 1
    }
}

fn cycle_down(i: usize, n: usize) -> (r: usize)
    requires
        n > 0,
    ensures
        r == wrap_down(i, n),
{
    let j: usize = i % n;
    proof {
        lemma_add_mod_noop(i as int, 1, n as int);
        if n > 1 {
            lemma_small_mod(1, n as nat);
        } else {
            lemma_mod_self_0(1);
        }
        if j + 1 == n {
            lemma_mod_self_0(n as int);
        } else {
            lemma_small_mod((j + 1) as nat, n as nat);
        }
    }
    if j + 1 == n {
        0
    } else {
        j + 1
    }
}

/// What Enter does on the home menu, by selected entry.
pub open spec fn home_enter(before: TuiState, after: TuiState, cmd: ReaderCommand, was_running: bool, running: bool) -> bool {
    let item = before.selected_home_item;
    if item == 0 {
        &&& cmd == ReaderCommand::LoadAnnotations
        &&& after == before
        &&& running == was_running
    } else if item == 1 {
        &&& cmd == ReaderCommand::ClearInput
        &&& after == (TuiState { open_error: None, app_mode: AppMode::OpenInput, ..before })
        &&& running == was_running
    } else if item == 2 {
        &&& cmd == ReaderCommand::Done
        &&& after == (TuiState { selected_book_index: 0, app_mode: AppMode::Select, ..before })
        &&& running == was_running
    } else if item == 3 {
        &&& cmd == ReaderCommand::Done
        &&& after == (TuiState { analyzer_kind: next_kind_spec(before.analyzer_kind), home_error: None, ..before })
        &&& running == was_running
    } else if item == 4 {
        &&& cmd == ReaderCommand::Done
        &&& after == before
        &&& !running
    } else {
        &&& cmd == ReaderCommand::Done
        &&& after == before
        &&& running == was_running
    }
}

/// The home menu: Up and Down move the selection round the five entries; Enter
/// continues reading (once the annotations are loaded), opens the path input,
/// opens the book selection, switches the analyzer or quits; `q` quits; Left
/// and Right switch the analyzer when its entry is selected.
pub fn handle_home_key(key: ReaderKey, session: &mut ReadingSession, state: &mut TuiState) -> (cmd: ReaderCommand)
    ensures
        final(session).metadata == old(session).metadata,
        match key {
            ReaderKey::Up => {
                &&& cmd == ReaderCommand::Done
                &&& *final(state) == (TuiState {
                    selected_home_item: wrap_up(old(state).selected_home_item, HOME_ITEM_COUNT) as usize,
                    ..*old(state)
                })
                &&& final(session).running == old(session).running
            },
            ReaderKey::Down => {
                &&& cmd == ReaderCommand::Done
                &&& *final(state) == (TuiState {
                    selected_home_item: wrap_down(old(state).selected_home_item, HOME_ITEM_COUNT) as usize,
                    ..*old(state)
                })
                &&& final(session).running == old(session).running
            },
            ReaderKey::Enter => home_enter(*old(state), *final(state), cmd, old(session).running,
                final(session).running),
            ReaderKey::Char('q') => {
                &&& cmd == ReaderCommand::Done
                &&& *final(state) == *old(state)
                &&& !final(session).running
            },
            ReaderKey::Left | ReaderKey::Right => {
                &&& cmd == ReaderCommand::Done
                &&& *final(state) == if old(state).selected_home_item == 3 {
                    TuiState { analyzer_kind: next_kind_spec(old(state).analyzer_kind), home_error: None, ..*old(state) }
                } else {
                    *old(state)
                }
                &&& final(session).running == old(session).running
            },
            _ => {
                &&& cmd == ReaderCommand::Done
                &&& *final(state) == *old(state)
                &&& final(session).running == old(session).running
            },
        },
{
    match key {
        ReaderKey::Up => {
            state.selected_home_item = cycle_up(state.selected_home_item, HOME_ITEM_COUNT);
            ReaderCommand::Done
        },
        ReaderKey::Down => {
            state.selected_home_item = cycle_down(state.selected_home_item, HOME_ITEM_COUNT);
            ReaderCommand::Done
        },
        ReaderKey::Enter => {
            if state.selected_home_item == 0 {
                ReaderCommand::LoadAnnotations
            } else if state.selected_home_item == 1 {
                state.open_error = None;
                state.app_mode = AppMode::OpenInput;
                ReaderCommand::ClearInput
            } else if state.selected_home_item == 2 {
                state.selected_book_index = 0;
                state.app_mode = AppMode::Select;
                ReaderCommand::Done
            } else if state.selected_home_item == 3 {
                state.cycle_analyzer();
                ReaderCommand::Done
            } else if state.selected_home_item == 4 {
                session.quit();
                ReaderCommand::Done
            } else {
                ReaderCommand::Done
            }
        },
        ReaderKey::Char('q') => {
            session.quit();
            ReaderCommand::Done
        },
        ReaderKey::Left | ReaderKey::Right => {
            if state.selected_home_item == 3 {
                state.cycle_analyzer();
            }
            ReaderCommand::Done
        },
        _ => ReaderCommand::Done,
    }
}

/// Whether `shown` is the list the selection screen shows for a shelf holding
/// `books`: all but the default book, most recently opened first, books opened
/// at the same time in shelf order.
pub open spec fn is_selection_list(books: Seq<BookMetadata>, shown: Seq<BookMetadata>) -> bool {
    &&& shown.len() == books_except(books, DEFAULT_BOOK_PATH@).len()
    &&& newest_first(shown)
    &&& forall|t: u64| #[trigger] opened_at(shown, t) == opened_at(books_except(books, DEFAULT_BOOK_PATH@), t)
}

/// What a key does on the selection screen showing `shown`.
pub open spec fn select_key_effect(
    key: ReaderKey,
    shown: Seq<BookMetadata>,
    before: TuiState,
    after: TuiState,
    cmd: ReaderCommand,
    was_running: bool,
    running: bool,
) -> bool {
    let n = shown.len();
    let idx = before.selected_book_index;
    match key {
        ReaderKey::Esc => {
            &&& cmd == ReaderCommand::Done
            &&& after == (TuiState { app_mode: AppMode::Home, ..before })
            &&& running == was_running
        },
        ReaderKey::Up => {
            &&& cmd == ReaderCommand::Done
            &&& after == if n > 0 {
                TuiState { selected_book_index: wrap_up(idx, n as usize) as usize, ..before }
            } else {
                before
            }
            &&& running == was_running
        },
        ReaderKey::Down => {
            &&& cmd == ReaderCommand::Done
            &&& after == if n > 0 {
                TuiState { selected_book_index: wrap_down(idx, n as usize) as usize, ..before }
            } else {
                before
            }
            &&& running == was_running
        },
        ReaderKey::Enter => {
            &&& after == before
            &&& running == was_running
            &&& if idx < n {
                cmd matches ReaderCommand::SwitchBook(p) && p == shown[idx as int].book_path
            } else {
                cmd == ReaderCommand::Done
            }
        },
        ReaderKey::Char('q') => {
            &&& cmd == ReaderCommand::Done
            &&& after == before
            &&& !running
        },
        _ => {
            &&& cmd == ReaderCommand::Done
            &&& after == before
            &&& running == was_running
        },
    }
}

/// The book selection: Esc goes home, Up and Down move round the listed books,
/// Enter switches to the selected book, `q` quits.
pub fn handle_select_key(
    key: ReaderKey,
    session: &mut ReadingSession,
    library: &BookLibrary,
    state: &mut TuiState,
) -> (cmd: ReaderCommand)
    ensures
        final(session).metadata == old(session).metadata,
        exists|shown: Seq<BookMetadata>|
            is_selection_list(library.books@, shown) && select_key_effect(
                key,
                shown,
                *old(state),
                *final(state),
                cmd,
                old(session).running,
                final(session).running,
            ),
{
    let books = library.visible_books(DEFAULT_BOOK_PATH);
    assert(is_selection_list(library.books@, books@));
    let n: usize = books.len();
    match key {
        ReaderKey::Esc => {
            state.app_mode = AppMode::Home;
            ReaderCommand::Done
        },
        ReaderKey::Up => {
            if n > 0 {
                state.selected_book_index = cycle_up(state.selected_book_index, n);
            }
            ReaderCommand::Done
        },
        ReaderKey::Down => {
            if n > 0 {
                state.selected_book_index = cycle_down(state.selected_book_index, n);
            }
            ReaderCommand::Done
        },
        ReaderKey::Enter => {
            if state.selected_book_index < n {
                ReaderCommand::SwitchBook(books[state.selected_book_index].book_path.clone())
            } else {
                ReaderCommand::Done
            }
        },
        ReaderKey::Char('q') => {
            session.quit();
            ReaderCommand::Done
        },
        _ => ReaderCommand::Done,
    }
}

/// The path input: Esc goes home; Enter takes what was typed, without white
/// space and quotes at its ends, and asks for it to be resolved, or reports an
/// empty path; other keys edit the input.
pub fn handle_open_input_key(key: ReaderKey, input: &str, state: &mut TuiState) -> (cmd: ReaderCommand)
    ensures
        match key {
            ReaderKey::Esc => {
                &&& cmd == ReaderCommand::Done
                &&& *final(state) == (TuiState { app_mode: AppMode::Home, open_error: None, ..*old(state) })
            },
            ReaderKey::Enter => if typed_path(input@).len() == 0 {
                &&& cmd == ReaderCommand::Done
                &&& *final(state) == (TuiState { open_error: final(state).open_error, ..*old(state) })
                &&& final(state).open_error matches Some(e) && e@ == "path is empty"@
            } else {
                &&& cmd matches ReaderCommand::ResolvePath(p) && p@ == typed_path(input@)
                &&& *final(state) == *old(state)
            },
            _ => {
                &&& cmd == ReaderCommand::EditInput
                &&& *final(state) == (TuiState { open_error: None, ..*old(state) })
            },
        },
{
    match key {
        ReaderKey::Esc => {
            state.app_mode = AppMode::Home;
            state.open_error = None;
            ReaderCommand::Done
        },
        ReaderKey::Enter => {
            let path = trim_typed_path(input);
            if path.as_str().unicode_len() == 0 {
                state.open_error = Some(string_from_str("path is empty"));
                ReaderCommand::Done
            } else {
                ReaderCommand::ResolvePath(path)
            }
        },
        _ => {
            state.open_error = None;
            ReaderCommand::EditInput
        },
    }
}

/// Checks the resolved form of a typed path (`None` when it does not exist):
/// a `.txt` file is returned for opening; otherwise the reason is shown.
pub fn accept_open_path(state: &mut TuiState, resolved: Option<String>) -> (path: Option<String>)
    ensures
        match resolved {
            None => {
                &&& path is None
                &&& *final(state) == (TuiState { open_error: final(state).open_error, ..*old(state) })
                &&& final(state).open_error matches Some(e) && e@ == "file not found"@
            },
            Some(p) => if is_txt_path(p@) {
                &&& path == Some(p)
                &&& *final(state) == *old(state)
            } else {
                &&& path is None
                &&& *final(state) == (TuiState { open_error: final(state).open_error, ..*old(state) })
                &&& final(state).open_error matches Some(e) && e@ == "only .txt is supported"@
            },
        },
{
    match resolved {
        None => {
            state.open_error = Some(string_from_str("file not found"));
            None
        },
        Some(p) => {
            if has_txt_extension(p.as_str()) {
                Some(p)
            } else {
                state.open_error = Some(string_from_str("only .txt is supported"));
                None
            }
        },
    }
}

/// Number of lines the cover terminal keeps.
pub const COVER_MAX_LINES: usize = 10_000;

/// Reading: `n` and `p` turn pages, `q` quits, Esc and `h` go home, `c` starts
/// cover mode with a fresh cover engine due to start a module now.
pub fn handle_reading_key(
    key: ReaderKey,
    session: &mut ReadingSession,
    state: &mut TuiState,
    cover: &mut Option<CoverEngine>,
    now_ms: u64,
)
    ensures
        match key {
            ReaderKey::Char('n') => {
                &&& *final(cover) == *old(cover)
                &&& final(state).app_mode == old(state).app_mode
                &&& if old(state).current_page_index + 1 < old(state).page_index.page_starts@.len() {
                    &&& final(state).current_page_index == old(state).current_page_index + 1
                    &&& final(session).metadata.current_offset
                        == old(state).page_index.page_starts@[final(state).current_page_index as int]
                } else {
                    &&& final(state).current_page_index == old(state).current_page_index
                    &&& final(session).metadata.current_offset == old(session).metadata.current_offset
                }
                &&& *final(state) == (TuiState { current_page_index: final(state).current_page_index, ..*old(state) })
                &&& final(session).running == old(session).running
            },
            ReaderKey::Char('p') => {
                &&& *final(cover) == *old(cover)
                &&& if old(state).current_page_index > 0 {
                    &&& final(state).current_page_index == old(state).current_page_index - 1
                    &&& final(session).metadata.current_offset == match page_start_of(
                        old(state).page_index.page_starts@,
                        final(state).current_page_index as int,
                    ) {
                        Some(start) => start,
                        None => old(session).metadata.current_offset,
                    }
                } else {
                    &&& final(state).current_page_index == old(state).current_page_index
                    &&& final(session).metadata.current_offset == old(session).metadata.current_offset
                }
                &&& *final(state) == (TuiState { current_page_index: final(state).current_page_index, ..*old(state) })
                &&& final(session).running == old(session).running
            },
            ReaderKey::Char('q') => {
                &&& *final(cover) == *old(cover)
                &&& *final(state) == *old(state)
                &&& final(session).metadata == old(session).metadata
                &&& !final(session).running
            },
            ReaderKey::Esc | ReaderKey::Char('h') => {
                &&& *final(cover) == *old(cover)
                &&& *final(state) == (TuiState { app_mode: AppMode::Home, ..*old(state) })
                &&& final(session).metadata == old(session).metadata
                &&& final(session).running == old(session).running
            },
            ReaderKey::Char('c') => {
                &&& *final(state) == (TuiState { app_mode: AppMode::Cover, ..*old(state) })
                &&& final(session).metadata == old(session).metadata
                &&& final(session).running == old(session).running
                &&& *final(cover) matches Some(e) && {
                    &&& e.wf()
                    &&& !e.running_spec()
                    &&& e.next_step_spec() == now_ms
                    &&& e.terminal_state().lines == seq![Seq::<char>::empty()]
                    &&& e.terminal_state().first == 0
                    &&& e.terminal_state().cursor == 0
                    &&& e.terminal_state().view is None
                    &&& e.terminal_state().max_lines == COVER_MAX_LINES
                    &&& e.line_room() == u64::MAX - 1
                }
            },
            _ => {
                &&& *final(cover) == *old(cover)
                &&& *final(state) == *old(state)
                &&& final(session).metadata == old(session).metadata
                &&& final(session).running == old(session).running
            },
        },
        final(session).metadata.book_path == old(session).metadata.book_path,
        final(session).metadata.last_opened_at == old(session).metadata.last_opened_at,
        final(session).metadata.file_len == old(session).metadata.file_len,
{
    match key {
        ReaderKey::Char('n') => {
            state.next_page(session);
        },
        ReaderKey::Char('p') => {
            state.previous_page(session);
        },
        ReaderKey::Char('q') => {
            session.quit();
        },
        ReaderKey::Esc | ReaderKey::Char('h') => {
            state.app_mode = AppMode::Home;
        },
        ReaderKey::Char('c') => {
            *cover = Some(CoverEngine::new(COVER_MAX_LINES, now_ms));
            state.app_mode = AppMode::Cover;
        },
        _ => {},
    }
}

/// What a key does to the cover terminal shown in a `width` x `height` window:
/// Up and Down scroll a row, PageUp and PageDown a window, End follows the
/// output again.
pub open spec fn cover_key_state(key: ReaderKey, st: TermState, width: nat, height: nat) -> TermState {
    match key {
        ReaderKey::Up => scroll_up_spec(st, 1, width, height),
        ReaderKey::Down => scroll_down_spec(st, 1, width, height),
        ReaderKey::PageUp => scroll_up_spec(st, height, width, height),
        ReaderKey::PageDown => scroll_down_spec(st, height, width, height),
        ReaderKey::End => TermState { view: None, ..st },
        _ => st,
    }
}

/// Cover mode: `c` leaves it (dropping the engine); other keys scroll the
/// cover terminal. Without an engine the reader goes back to the page.
pub fn handle_cover_key(
    key: ReaderKey,
    state: &mut TuiState,
    cover: &mut Option<CoverEngine>,
    body_width: usize,
    body_height: usize,
)
    requires
        *old(cover) matches Some(e) ==> e.wf(),
    ensures
        if key == ReaderKey::Char('c') || *old(cover) is None {
            &&& *final(cover) is None
            &&& *final(state) == (TuiState { app_mode: AppMode::Reading, ..*old(state) })
        } else {
            &&& *final(state) == *old(state)
            &&& *final(cover) matches Some(f) && *old(cover) matches Some(e) && {
                &&& f.wf()
                &&& f.running_spec() == e.running_spec()
                &&& f.next_step_spec() == e.next_step_spec()
                &&& f.terminal_state() == cover_key_state(key, e.terminal_state(), body_width as nat, body_height as nat)
            }
        },
{
    if key == ReaderKey::Char('c') {
        *cover = None;
        state.app_mode = AppMode::Reading;
        return;
    }
    match cover {
        None => {
            state.app_mode = AppMode::Reading;
        },
        Some(engine) => {
            let t = engine.terminal_mut();
            match key {
                ReaderKey::Up => t.scroll_up(1, body_width, body_height),
                ReaderKey::Down => t.scroll_down(1, body_width, body_height),
                ReaderKey::PageUp => t.scroll_up(body_height, body_width, body_height),
                ReaderKey::PageDown => t.scroll_down(body_height, body_width, body_height),
                ReaderKey::End => t.scroll_to_bottom(),
                _ => {},
            }
        },
    }
}

/// The mouse wheel in cover mode scrolls three rows.
pub fn handle_cover_mouse(scroll: MouseScroll, engine: &mut CoverEngine, body_width: usize, body_height: usize)
    requires
        old(engine).wf(),
    ensures
        final(engine).wf(),
        final(engine).running_spec() == old(engine).running_spec(),
        final(engine).next_step_spec() == old(engine).next_step_spec(),
        final(engine).terminal_state() == match scroll {
            MouseScroll::Up => scroll_up_spec(old(engine).terminal_state(), 3, body_width as nat, body_height as nat),
            MouseScroll::Down => scroll_down_spec(
                old(engine).terminal_state(),
                3,
                body_width as nat,
                body_height as nat,
            ),
            MouseScroll::Other => old(engine).terminal_state(),
        },
{
    let t = engine.terminal_mut();
    match scroll {
        MouseScroll::Up => t.scroll_up(3, body_width, body_height),
        MouseScroll::Down => t.scroll_down(3, body_width, body_height),
        MouseScroll::Other => {},
    }
}

/// The record the reader switches to when opening `book_path` at `now`: the
/// current book's progress is stored first, then the book is activated.
pub open spec fn switched_book(
    books: Seq<BookMetadata>,
    id: spec_fn(Seq<char>) -> Seq<char>,
    current: BookMetadata,
    book_path: String,
    now: u64,
) -> BookMetadata {
    let stored = upsert_spec(books, id, current);
    let base = match book_with_key(stored, id, id(book_path@)) {
        Some(b) => b,
        None => BookMetadata::new_spec(book_path),
    };
    BookMetadata { last_opened_at: now, ..base }
}

/// Law: switching to another book stores the progress of the book being read;
/// afterwards the shelf's record of it is exactly the session's record.
pub proof fn lemma_switch_keeps_previous_progress(
    books: Seq<BookMetadata>,
    id: spec_fn(Seq<char>) -> Seq<char>,
    current: BookMetadata,
    book_path: String,
    now: u64,
)
    requires
        id(book_path@) != id(current.book_path@),
    ensures
        book_with_key(
            upsert_spec(upsert_spec(books, id, current), id, switched_book(books, id, current, book_path, now)),
            id,
            id(current.book_path@),
        ) == Some(current),
{
    let stored = upsert_spec(books, id, current);
    let next = switched_book(books, id, current, book_path, now);
    lemma_upsert_then_lookup(books, id, current);
    lemma_find_book(stored, id, id(book_path@));
    assert(id(next.book_path@) == id(book_path@));
    lemma_upsert_keeps_others(stored, id, next, id(current.book_path@));
}

/// Law: switching to the book being read (under any spelling of its path)
/// keeps the reading position and the text length.
pub proof fn lemma_switch_to_same_book_keeps_position(
    books: Seq<BookMetadata>,
    id: spec_fn(Seq<char>) -> Seq<char>,
    current: BookMetadata,
    book_path: String,
    now: u64,
)
    requires
        id(book_path@) == id(current.book_path@),
    ensures
        switched_book(books, id, current, book_path, now) == (BookMetadata { last_opened_at: now, ..current }),
{
    lemma_upsert_then_lookup(books, id, current);
}

/// First half of switching books: stores the current book's progress on the
/// shelf and makes `book_path` the current book, opened at `now`; book
/// identities are taken under `resolve`.
pub fn begin_switch_book<F: Fn(&str) -> Option<String>>(
    session: &mut ReadingSession,
    library: &mut BookLibrary,
    book_path: String,
    now: u64,
    resolve: &F,
    lower_case: bool,
)
    requires
        resolver_ok(*resolve),
    ensures
        final(session).metadata == switched_book(
            old(library).books@,
            identity_under(*resolve, lower_case),
            old(session).metadata,
            book_path,
            now,
        ),
        final(session).running == old(session).running,
        final(library).current_book_path == final(session).metadata.book_path,
        final(library).books@ == upsert_spec(
            upsert_spec(old(library).books@, identity_under(*resolve, lower_case), old(session).metadata),
            identity_under(*resolve, lower_case),
            final(session).metadata,
        ),
{
    library.upsert_book(session.metadata.clone(), resolve, lower_case);
    let metadata = library.activate_book(book_path, now, resolve, lower_case);
    session.metadata = metadata;
}

/// Second half of switching books, once the book's text is read: its length is
/// recorded, its pages laid out for the window, and reading starts on the page
/// holding the saved position.
pub fn finish_switch_book(state: &mut TuiState, session: &mut ReadingSession, text_source: &TextSource)
    requires
        text_source.wf(),
    ensures
        final(session).metadata == (BookMetadata { file_len: text_source.bytes().len() as u64, ..old(session).metadata }),
        final(session).running == old(session).running,
        final(state).indexes(text_source),
        final(state).current_page_index == page_for_offset(
            final(state).page_index.page_starts@,
            old(session).metadata.current_offset,
        ),
        *final(state) == (TuiState {
            page_index: final(state).page_index,
            current_page_index: final(state).current_page_index,
            open_error: None,
            app_mode: AppMode::Reading,
            ..*old(state)
        }),
{
    session.metadata.file_len = text_source.file_len();
    state.page_index = PageIndex::build(text_source, state.columns, state.body_rows);
    state.current_page_index = state.page_index.find_page_by_offset(session.metadata.current_offset);
    state.open_error = None;
    state.app_mode = AppMode::Reading;
}

/// Outcome of loading the annotations for Continue: on success reading starts,
/// otherwise the error is shown on the home screen.
pub fn finish_load_annotations(state: &mut TuiState, outcome: Result<(), String>)
    ensures
        match outcome {
            Ok(()) => *final(state) == (TuiState { home_error: None, app_mode: AppMode::Reading, ..*old(state) }),
            Err(e) => *final(state) == (TuiState { home_error: Some(e), ..*old(state) }),
        },
{
    match outcome {
        Ok(()) => {
            state.home_error = None;
            state.app_mode = AppMode::Reading;
        },
        Err(e) => {
            state.home_error = Some(e);
        },
    }
}

} // verus!
