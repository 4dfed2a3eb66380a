//! The reader screen's state: which screen is shown, the page layout for the
//! window size, and the selections and messages of the menus.
use vstd::prelude::*;
use crate::highlight::analyzer::{AnalyzerKind, next_kind_spec};
use crate::page_index::{PageIndex, page_for_offset, page_starts_from};
use crate::session::ReadingSession;
use crate::text_source::TextSource;

verus! {

/// The screen the reader shows.
#[derive(Debug, Clone, Copy, PartialEq, Eq, Structural)]
pub enum AppMode {
    Home,
    Reading,
    Cover,
    OpenInput,
    Select,
}

/// Number of entries of the home menu.
pub const HOME_ITEM_COUNT: usize = 5;

/// Rows of the window left for the page: two are kept for the status lines.
pub open spec fn body_rows_for(rows: u16) -> u16 {
    if rows >= 2 {
        (rows - 2) as u16
    } else {
        0
    }
}

/// The start of page `page`, when there is such a page.
pub open spec fn page_start_of(starts: Seq<u64>, page: int) -> Option<u64> {
    if 0 <= page < starts.len() {
        Some(starts[page])
    } else {
        None
    }
}

/// The page after `page` in a book of `count` pages: the next one, or the same
/// on the last page.
pub open spec fn page_after(page: nat, count: nat) -> nat {
    if page + 1 < count {
        page + 1
    } else {
        page
    }
}

/// The page before `page`: the previous one, or the same on the first page.
pub open spec fn page_before(page: nat) -> nat {
    if page > 0 {
        (page - 1) as nat
    } else {
        page
    }
}

/// Law: turning back undoes turning forward, except on the last page; and
/// turning either way from a page of the book stays in the book.
pub proof fn lemma_page_turns(page: nat, count: nat)
    ensures
        page + 1 < count ==> page_before(page_after(page, count)) == page,
        page < count ==> page_after(page, count) < count && page_before(page) < count,
        page > 0 ==> page_after(page_before(page), count) == page || page >= count,
{
}

pub struct TuiState {
    pub app_mode: AppMode,
    pub columns: u16,
    pub body_rows: u16,
    pub page_index: PageIndex,
    pub current_page_index: usize,
    pub selected_home_item: usize,
    pub open_error: Option<String>,
    pub home_error: Option<String>,
    pub selected_book_index: usize,
    pub analyzer_kind: AnalyzerKind,
}

impl TuiState {
    /// Whether the page index describes `text_source` for this state's size.
    pub open spec fn indexes(&self, text_source: &TextSource) -> bool {
        &&& self.page_index.columns == self.columns
        &&& self.page_index.rows == self.body_rows
        &&& self.page_index.starts() == page_starts_from(
            text_source.bytes(),
            0,
            self.columns as nat,
            self.body_rows as nat,
        )
    }

    /// The state on the home screen for a `columns` x `rows` window, on the page
    /// holding `current_offset`.
    pub fn new(text_source: &TextSource, current_offset: u64, columns: u16, rows: u16) -> (state: TuiState)
        requires
            text_source.wf(),
        ensures
            state.app_mode == AppMode::Home,
            state.columns == columns,
            state.body_rows == body_rows_for(rows),
            state.indexes(text_source),
            state.current_page_index == page_for_offset(state.page_index.page_starts@, current_offset),
            state.selected_home_item == 0,
            state.open_error is None,
            state.home_error is None,
            state.selected_book_index == 0,
            state.analyzer_kind == AnalyzerKind::Jieba,
    {
        let body_rows: u16 = if rows >= 2 { rows - 2 } else { 0 };
        let page_index = PageIndex::build(text_source, columns, body_rows);
        let current_page_index = page_index.find_page_by_offset(current_offset);
        TuiState {
            app_mode: AppMode::Home,
            columns,
            body_rows,
            page_index,
            current_page_index,
            selected_home_item: 0,
            open_error: None,
            home_error: None,
            selected_book_index: 0,
            analyzer_kind: AnalyzerKind::Jieba,
        }
    }

    /// Follows a window of `columns` x `rows`: when its size changed, the pages
    /// are laid out anew and the start of the page holding `current_offset` is
    /// returned; otherwise nothing changes and `None` is returned.
    pub fn resize_if_needed(&mut self, text_source: &TextSource, current_offset: u64, columns: u16, rows: u16) -> (r:
        Option<u64>)
        requires
            text_source.wf(),
        ensures
            if columns == old(self).columns && body_rows_for(rows) == old(self).body_rows {
                &&& r is None
                &&& *final(self) == *old(self)
            } else {
                &&& final(self).columns == columns
                &&& final(self).body_rows == body_rows_for(rows)
                &&& final(self).indexes(text_source)
                &&& final(self).current_page_index == page_for_offset(
                    final(self).page_index.page_starts@,
                    current_offset,
                )
                &&& r == page_start_of(final(self).page_index.page_starts@, final(self).current_page_index as int)
                &&& final(self).app_mode == old(self).app_mode
                &&& final(self).selected_home_item == old(self).selected_home_item
                &&& final(self).open_error == old(self).open_error
                &&& final(self).home_error == old(self).home_error
                &&& final(self).selected_book_index == old(self).selected_book_index
                &&& final(self).analyzer_kind == old(self).analyzer_kind
            },
    {
        let body_rows: u16 = if rows >= 2 { rows - 2 } else { 0 };
        if columns == self.columns && body_rows == self.body_rows {
            return None;
        }
        self.columns = columns;
        self.body_rows = body_rows;
        self.page_index = PageIndex::build(text_source, columns, body_rows);
        self.current_page_index = self.page_index.find_page_by_offset(current_offset);
        self.page_index.page_start(self.current_page_index)
    }

    /// Turns to the next page, if there is one, and records its start as the
    /// reading position.
    pub fn next_page(&mut self, session: &mut ReadingSession)
        ensures
            final(self).current_page_index == page_after(
                old(self).current_page_index as nat,
                old(self).page_index.page_starts@.len(),
            ),
            final(session).metadata.current_offset == if old(self).current_page_index + 1
                < old(self).page_index.page_starts@.len() {
                old(self).page_index.page_starts@[final(self).current_page_index as int]
            } else {
                old(session).metadata.current_offset
            },
            *final(self) == (TuiState { current_page_index: final(self).current_page_index, ..*old(self) }),
            final(session).metadata.book_path == old(session).metadata.book_path,
            final(session).metadata.last_opened_at == old(session).metadata.last_opened_at,
            final(session).metadata.file_len == old(session).metadata.file_len,
            final(session).running == old(session).running,
    {
        if self.current_page_index < self.page_index.page_count() && self.current_page_index + 1
            < self.page_index.page_count() {
            self.current_page_index = self.current_page_index + 1;
            if let Some(page_start) = self.page_index.page_start(self.current_page_index) {
                session.metadata.current_offset = page_start;
            }
        }
    }

    /// Turns to the previous page, if there is one, and records its start as the
    /// reading position.
    pub fn previous_page(&mut self, session: &mut ReadingSession)
        ensures
            final(self).current_page_index == page_before(old(self).current_page_index as nat),
            final(session).metadata.current_offset == if old(self).current_page_index > 0 {
                match page_start_of(old(self).page_index.page_starts@, final(self).current_page_index as int) {
                    Some(start) => start,
                    None => old(session).metadata.current_offset,
                }
            } else {
                old(session).metadata.current_offset
            },
            *final(self) == (TuiState { current_page_index: final(self).current_page_index, ..*old(self) }),
            final(session).metadata.book_path == old(session).metadata.book_path,
            final(session).metadata.last_opened_at == old(session).metadata.last_opened_at,
            final(session).metadata.file_len == old(session).metadata.file_len,
            final(session).running == old(session).running,
    {
        if self.current_page_index > 0 {
            self.current_page_index = self.current_page_index - 1;
            if let Some(page_start) = self.page_index.page_start(self.current_page_index) {
                session.metadata.current_offset = page_start;
            }
        }
    }

    /// Switches to the next analyzer and clears the home screen's message.
    pub fn cycle_analyzer(&mut self)
        ensures
            *final(self) == (TuiState {
                analyzer_kind: next_kind_spec(old(self).analyzer_kind),
                home_error: None,
                ..*old(self)
            }),
    {
        self.analyzer_kind = self.analyzer_kind.next();
        self.home_error = None;
    }
}

} // verus!
