//! Lays out one screen page of text by terminal columns and rows.
use unicode_width::UnicodeWidthChar;
use vstd::prelude::*;
use vstd::utf8::*;
use crate::utf8_text::{utf8_len, lemma_utf8_len_take_step, lemma_utf8_len_take_mono, lemma_take_full, char_utf8_len};

verus! {

broadcast use vstd::string::group_string_axioms;

/// What `unicode_width`'s `UnicodeWidthChar::width` reports for a character.
pub uninterp spec fn spec_unicode_width(ch: char) -> Option<usize>;

/// Calls `UnicodeWidthChar::width` of the `unicode-width` crate. Claimed of it: the
/// result is a function of the character alone (named `spec_unicode_width`);
/// printable ASCII (U+0020..U+007E) has width 1; the C0 and C1 control codes
/// (below U+0020 and U+007F..U+009F) have no width; any width is a `u8` widened to
/// `usize`, so at most 255.
#[verifier::external_body]
fn unicode_char_width(ch: char) -> (r: Option<usize>)
    ensures
        r == spec_unicode_width(ch),
        0x20 <= (ch as u32) < 0x7f ==> r == Some(1usize),
        ((ch as u32) < 0x20 || (0x7f <= (ch as u32) < 0xa0)) ==> r is None,
        r matches Some(w) ==> w <= 255,
{
    UnicodeWidthChar::width(ch)
}

/// Display width in terminal columns; characters without a width count as 0.
pub open spec fn display_width(ch: char) -> nat {
    match spec_unicode_width(ch) {
        Some(w) => w as nat,
        None => 0,
    }
}

/// Terminal columns that `ch` occupies (0 for control characters).
pub fn char_display_width(ch: char) -> (w: usize)
    ensures
        w == display_width(ch),
        w <= 255,
        0x20 <= (ch as u32) < 0x7f ==> w == 1,
        ((ch as u32) < 0x20 || (0x7f <= (ch as u32) < 0xa0)) ==> w == 0,
{
    match unicode_char_width(ch) {
        Some(w) => w,
        None => 0,
    }
}

/// A laid-out page: the text as shown (wrapped rows joined by `'\n'`) and the
/// byte offset just past the last source character it shows.
#[derive(Debug, Clone, PartialEq, Eq)]
pub struct Page {
    pub text: String,
    pub end_offset: u64,
}

/// State of the layout after some prefix of the source text.
pub struct LayoutState {
    /// Row the next character goes to.
    pub row: nat,
    /// Columns already used on that row.
    pub col: nat,
    /// Characters emitted so far.
    pub out: Seq<char>,
    /// Number of source characters the page shows.
    pub consumed: nat,
    /// The page is full; no later character is shown.
    pub stopped: bool,
}

pub open spec fn layout_initial() -> LayoutState {
    LayoutState { row: 0, col: 0, out: Seq::empty(), consumed: 0, stopped: false }
}

/// Places the source character `ch`, the `i`-th one, on the page.
pub open spec fn layout_step(st: LayoutState, ch: char, i: nat, columns: nat, rows: nat) -> LayoutState {
    if st.stopped || st.row >= rows {
        LayoutState { stopped: true, ..st }
    } else if ch == '\n' {
        LayoutState { row: st.row + 1, col: 0, out: st.out.push('\n'), consumed: i + 1, stopped: false }
    } else if st.col + display_width(ch) > columns {
        if st.row + 1 >= rows {
            LayoutState { row: st.row + 1, col: 0, stopped: true, ..st }
        } else {
            LayoutState {
                row: st.row + 1,
                col: display_width(ch),
                out: st.out.push('\n').push(ch),
                consumed: i + 1,
                stopped: false,
            }
        }
    } else {
        LayoutState { col: st.col + display_width(ch), out: st.out.push(ch), consumed: i + 1, ..st }
    }
}

/// Layout state after the first `n` characters of `text`.
pub open spec fn layout_prefix(text: Seq<char>, n: nat, columns: nat, rows: nat) -> LayoutState
    decreases n,
{
    if n == 0 {
        layout_initial()
    } else {
        layout_step(
            layout_prefix(text, (n - 1) as nat, columns, rows),
            text[n - 1],
            (n - 1) as nat,
            columns,
            rows,
        )
    }
}

/// Layout of the whole candidate text.
pub open spec fn layout_of(text: Seq<char>, columns: nat, rows: nat) -> LayoutState {
    layout_prefix(text, text.len(), columns, rows)
}

/// The page that `layout_page` produces for `text` read at `start_offset`.
pub open spec fn page_end_offset(text: Seq<char>, start_offset: nat, columns: nat, rows: nat) -> nat {
    start_offset + utf8_len(text.take(layout_of(text, columns, rows).consumed as int))
}

/// Once the page is full it stays as it is.
pub proof fn lemma_layout_stopped_stable(text: Seq<char>, n: nat, m: nat, columns: nat, rows: nat)
    requires
        n <= m <= text.len(),
        layout_prefix(text, n, columns, rows).stopped,
    ensures
        layout_prefix(text, m, columns, rows) == layout_prefix(text, n, columns, rows),
    decreases m - n,
{
    if m > n {
        lemma_layout_stopped_stable(text, n, (m - 1) as nat, columns, rows);
    }
}

/// The page never shows more characters than the prefix it has seen.
pub proof fn lemma_layout_consumed_bound(text: Seq<char>, n: nat, columns: nat, rows: nat)
    requires
        n <= text.len(),
    ensures
        layout_prefix(text, n, columns, rows).consumed <= n,
    decreases n,
{
    if n > 0 {
        lemma_layout_consumed_bound(text, (n - 1) as nat, columns, rows);
    }
}

/// A page ends no earlier than it starts and no later than the end of its text.
pub proof fn lemma_page_end_bounds(text: Seq<char>, start_offset: nat, columns: nat, rows: nat)
    ensures
        start_offset <= page_end_offset(text, start_offset, columns, rows),
        page_end_offset(text, start_offset, columns, rows) <= start_offset + utf8_len(text),
{
    lemma_layout_consumed_bound(text, text.len(), columns, rows);
    let c = layout_of(text, columns, rows).consumed;
    lemma_utf8_len_take_mono(text, c as int, text.len() as int);
    lemma_take_full(text);
}

/// Lays out `text` (read from byte offset `start_offset`) on a page of `rows`
/// rows of `columns` columns: characters wrap to the next row when they would
/// overflow it, `'\n'` starts a new row, and layout stops when the rows are used up.
pub fn layout_page(text: &str, start_offset: u64, columns: u16, rows: u16) -> (page: Page)
    requires
        start_offset + utf8_len(text@) <= u64::MAX,
    ensures
        page.text@ == layout_of(text@, columns as nat, rows as nat).out,
        page.end_offset == page_end_offset(text@, start_offset as nat, columns as nat, rows as nat),
{
    let max_columns: usize = columns as usize;
    let max_rows: usize = rows as usize;
    let ghost cols = columns as nat;
    let ghost rws = rows as nat;

    let mut output = String::new();
    let mut current_row: usize = 0;
    let mut current_col: usize = 0;
    let mut byte_index: u64 = 0;
    let mut end_offset: u64 = start_offset;
    let ghost mut consumed: nat = 0;
    let ghost mut done: bool = false;

    for ch in it: text.chars()
        invariant_except_break
            it.seq() == text@,
            start_offset + utf8_len(text@) <= u64::MAX,
            max_columns == cols,
            max_columns <= 65535,
            max_rows == rws,
            byte_index == utf8_len(text@.take(it.index() as int)),
            ({
                let st = layout_prefix(text@, it.index() as nat, cols, rws);
                &&& !st.stopped
                &&& st.row == current_row
                &&& st.col == current_col
                &&& st.out == output@
                &&& st.consumed == consumed
            }),
            current_row <= max_rows,
            current_col <= max_columns + 255,
            end_offset == start_offset + utf8_len(text@.take(consumed as int)),
            consumed <= it.index(),
        ensures
            layout_of(text@, cols, rws).out == output@,
            end_offset == page_end_offset(text@, start_offset as nat, cols, rws),
    {
        let ghost i = it.index();
        proof {
            lemma_utf8_len_take_step(text@, i as int);
            lemma_utf8_len_take_mono(text@, i as int + 1, text@.len() as int);
            lemma_take_full(text@);
            lemma_utf8_len_take_mono(text@, consumed as int, i as int);
        }
        let ch_len: usize = char_utf8_len(ch);
        let next_byte_index: u64 = byte_index + ch_len as u64;

        if current_row >= max_rows {
            proof {
                lemma_layout_stopped_stable(text@, (i + 1) as nat, text@.len(), cols, rws);
            }
            break;
        }

        if ch == '\n' {
            string_push(&mut output, ch);
            current_row = current_row + 1;
            current_col = 0;
        } else {
            let char_width: usize = char_display_width(ch);

            if current_col + char_width > max_columns {
                current_row = current_row + 1;
                current_col = 0;

                if current_row >= max_rows {
                    proof {
                        lemma_layout_stopped_stable(text@, (i + 1) as nat, text@.len(), cols, rws);
                    }
                    break;
                }
                string_push(&mut output, '\n');
            }

            string_push(&mut output, ch);
            current_col = current_col + char_width;
        }
        end_offset = start_offset + next_byte_index;
        byte_index = next_byte_index;
        proof {
            consumed = (i + 1) as nat;
        }
    }

    Page { text: output, end_offset }
}

/// Appends `ch` to `s`, as `String::push` does.
#[verifier::external_body]
pub(crate) fn string_push(s: &mut String, ch: char)
    ensures
        final(s)@ == old(s)@.push(ch),
{
    s.push(ch);
}

/// Number of `'\n'` in `s`.
pub open spec fn newline_count(s: Seq<char>) -> nat
    decreases s.len(),
{
    if s.len() == 0 {
        0
    } else {
        newline_count(s.drop_last()) + if s.last() == '\n' { 1nat } else { 0nat }
    }
}

/// `s` without its `'\n'` characters.
pub open spec fn without_newlines(s: Seq<char>) -> Seq<char>
    decreases s.len(),
{
    if s.len() == 0 {
        Seq::empty()
    } else {
        let init = without_newlines(s.drop_last());
        if s.last() == '\n' { init } else { init.push(s.last()) }
    }
}

proof fn lemma_push_counts(s: Seq<char>, c: char)
    ensures
        newline_count(s.push(c)) == newline_count(s) + if c == '\n' { 1nat } else { 0nat },
        without_newlines(s.push(c)) == if c == '\n' { without_newlines(s) } else { without_newlines(s).push(c) },
{
    assert(s.push(c).drop_last() =~= s);
}

proof fn lemma_layout_shape(text: Seq<char>, n: nat, columns: nat, rows: nat)
    requires
        n <= text.len(),
    ensures
        ({
            let st = layout_prefix(text, n, columns, rows);
            &&& st.row <= rows
            &&& newline_count(st.out) <= st.row
            &&& st.consumed <= n
            &&& !st.stopped ==> st.consumed == n
            &&& without_newlines(st.out) == without_newlines(text.take(st.consumed as int))
            &&& newline_count(text.take(st.consumed as int)) <= newline_count(st.out)
        }),
    decreases n,
{
    if n == 0 {
        assert(text.take(0) =~= Seq::<char>::empty());
        assert(Seq::<char>::empty().len() == 0);
    } else {
        let i = (n - 1) as nat;
        lemma_layout_shape(text, i, columns, rows);
        let prev = layout_prefix(text, i, columns, rows);
        let ch = text[i as int];
        assert(text.take(n as int) =~= text.take(i as int).push(ch));
        if !(prev.stopped || prev.row >= rows) {
            assert(prev.consumed == i);
            lemma_push_counts(prev.out, ch);
            lemma_push_counts(text.take(i as int), ch);
            if ch != '\n' && prev.col + display_width(ch) > columns && prev.row + 1 < rows {
                lemma_push_counts(prev.out.push('\n'), ch);
                lemma_push_counts(prev.out, '\n');
            }
        }
    }
}

/// Law: every row of a page ends with one `'\n'` at most, so a page of `rows`
/// rows holds at most `rows` of them, a source `'\n'` (a paragraph's end or a
/// blank line) taking a row like any other; apart from the `'\n'`s the page
/// shows exactly the source characters it consumed, in order, and each source
/// `'\n'` it consumed is in it.
pub proof fn lemma_page_rows(text: Seq<char>, columns: nat, rows: nat)
    ensures
        ({
            let st = layout_of(text, columns, rows);
            &&& newline_count(st.out) <= rows
            &&& without_newlines(st.out) == without_newlines(text.take(st.consumed as int))
            &&& newline_count(text.take(st.consumed as int)) <= newline_count(st.out)
        }),
{
    lemma_layout_shape(text, text.len(), columns, rows);
}

/// Columns taken by the last row of `s`: the characters after its last `'\n'`.
pub open spec fn last_row_width(s: Seq<char>) -> nat
    decreases s.len(),
{
    if s.len() == 0 || s.last() == '\n' {
        0
    } else {
        last_row_width(s.drop_last()) + display_width(s.last())
    }
}

/// Every character of `s` that is not the first of its row ends within
/// `columns` columns.
pub open spec fn rows_within(s: Seq<char>, columns: nat) -> bool {
    forall|i: int|
        0 < i < s.len() && s[i] != '\n' && s[i - 1] != '\n' ==> #[trigger] last_row_width(s.take(i + 1)) <= columns
}

proof fn lemma_rows_within_push(s: Seq<char>, c: char, columns: nat)
    requires
        rows_within(s, columns),
        c == '\n' || s.len() == 0 || s.last() == '\n' || last_row_width(s) + display_width(c) <= columns,
    ensures
        rows_within(s.push(c), columns),
        last_row_width(s.push(c)) == if c == '\n' { 0 } else { last_row_width(s) + display_width(c) },
{
    let t = s.push(c);
    assert(t.drop_last() =~= s);
    assert forall|i: int|
        0 < i < t.len() && t[i] != '\n' && t[i - 1] != '\n' implies #[trigger] last_row_width(t.take(i + 1)) <= columns by {
        if i < s.len() {
            assert(t.take(i + 1) =~= s.take(i + 1));
            assert(s[i] == t[i] && s[i - 1] == t[i - 1]);
        } else {
            assert(t.take(i + 1) =~= t);
            assert(t[i - 1] == s.last());
        }
    }
}

proof fn lemma_layout_rows_within(text: Seq<char>, n: nat, columns: nat, rows: nat)
    requires
        n <= text.len(),
    ensures
        rows_within(layout_prefix(text, n, columns, rows).out, columns),
        !layout_prefix(text, n, columns, rows).stopped ==> last_row_width(layout_prefix(text, n, columns, rows).out)
            == layout_prefix(text, n, columns, rows).col,
    decreases n,
{
    if n > 0 {
        let i = (n - 1) as nat;
        lemma_layout_rows_within(text, i, columns, rows);
        let st = layout_prefix(text, i, columns, rows);
        let ch = text[i as int];
        if !(st.stopped || st.row >= rows) {
            if ch == '\n' {
                lemma_rows_within_push(st.out, ch, columns);
            } else if st.col + display_width(ch) > columns {
                if st.row + 1 < rows {
                    lemma_rows_within_push(st.out, '\n', columns);
                    lemma_rows_within_push(st.out.push('\n'), ch, columns);
                }
            } else {
                lemma_rows_within_push(st.out, ch, columns);
            }
        }
    } else {
        assert(rows_within(Seq::<char>::empty(), columns));
    }
}

/// Law: no row of a page is wider than `columns`: every character except the
/// first of its row ends within the columns (only a character wider than the
/// whole row can stand alone past them).
pub proof fn lemma_page_rows_fit(text: Seq<char>, columns: nat, rows: nat)
    ensures
        rows_within(layout_of(text, columns, rows).out, columns),
{
    lemma_layout_rows_within(text, text.len(), columns, rows);
}

} // verus!
