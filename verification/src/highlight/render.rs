//! Lays out a page like `layout_page` and splits each row into spans that
//! carry the highlight of the characters in them.
use vstd::prelude::*;
use crate::highlight::annotation::{Annotation, AnnotationKind};
use crate::page_layout::{char_display_width, display_width, string_push, layout_prefix, layout_of, page_end_offset};
use crate::utf8_text::{utf8_len, lemma_utf8_len_take_step, lemma_utf8_len_take_mono, lemma_take_full, char_utf8_len};
use vstd::utf8::*;

verus! {

broadcast use vstd::string::group_string_axioms;

/// A run of characters shown with one highlight (`None`: plain text).
pub struct StyledSpan {
    pub text: String,
    pub kind: Option<AnnotationKind>,
}

/// A page of highlighted rows and the offset just past its last shown character.
pub struct HighlightedPage {
    pub lines: Vec<Vec<StyledSpan>>,
    pub end_offset: u64,
}

pub open spec fn span_spec(s: StyledSpan) -> (Seq<char>, Option<AnnotationKind>) {
    (s.text@, s.kind)
}

pub open spec fn line_spec(l: Vec<StyledSpan>) -> Seq<(Seq<char>, Option<AnnotationKind>)> {
    l@.map_values(|s: StyledSpan| span_spec(s))
}

pub open spec fn lines_spec(ls: Seq<Vec<StyledSpan>>) -> Seq<Seq<(Seq<char>, Option<AnnotationKind>)>> {
    ls.map_values(|l: Vec<StyledSpan>| line_spec(l))
}

/// Highlight of the first annotation overlapping the byte range `[cs, ce)`.
pub open spec fn style_at(anns: Seq<Annotation>, cs: nat, ce: nat) -> Option<AnnotationKind>
    decreases anns.len(),
{
    if anns.len() == 0 {
        None
    } else if anns[0].start_offset < ce && anns[0].end_offset > cs {
        Some(anns[0].kind)
    } else {
        style_at(anns.drop_first(), cs, ce)
    }
}

/// Appends a character to a row, extending the last span when it has the same highlight.
pub open spec fn push_styled(
    line: Seq<(Seq<char>, Option<AnnotationKind>)>,
    ch: char,
    style: Option<AnnotationKind>,
) -> Seq<(Seq<char>, Option<AnnotationKind>)> {
    if line.len() > 0 && line.last().1 == style {
        line.update(line.len() - 1, (line.last().0.push(ch), style))
    } else {
        line.push((seq![ch], style))
    }
}

/// Rendering state after a prefix of the text.
pub struct RenderState {
    pub row: nat,
    pub col: nat,
    pub lines: Seq<Seq<(Seq<char>, Option<AnnotationKind>)>>,
    pub end: nat,
    pub stopped: bool,
}

/// Places the `i`-th character, which occupies absolute bytes `[cs, ce)`.
pub open spec fn render_step(
    st: RenderState,
    ch: char,
    cs: nat,
    ce: nat,
    anns: Seq<Annotation>,
    columns: nat,
    rows: nat,
) -> RenderState {
    if st.stopped || st.row >= rows {
        RenderState { stopped: true, ..st }
    } else if ch == '\r' {
        RenderState { end: ce, ..st }
    } else if ch == '\n' {
        RenderState {
            row: st.row + 1,
            col: 0,
            lines: if st.row + 1 < rows { st.lines.push(Seq::empty()) } else { st.lines },
            end: ce,
            stopped: false,
        }
    } else if st.col + display_width(ch) > columns {
        if st.row + 1 >= rows {
            RenderState { row: st.row + 1, col: 0, stopped: true, ..st }
        } else {
            let ls = st.lines.push(Seq::empty());
            RenderState {
                row: st.row + 1,
                col: display_width(ch),
                lines: ls.update(st.row + 1int, push_styled(ls[st.row + 1int], ch, style_at(anns, cs, ce))),
                end: ce,
                stopped: false,
            }
        }
    } else {
        RenderState {
            col: st.col + display_width(ch),
            lines: st.lines.update(st.row as int, push_styled(st.lines[st.row as int], ch, style_at(anns, cs, ce))),
            end: ce,
            ..st
        }
    }
}

pub open spec fn render_prefix(
    text: Seq<char>,
    n: nat,
    start: nat,
    anns: Seq<Annotation>,
    columns: nat,
    rows: nat,
) -> RenderState
    decreases n,
{
    if n == 0 {
        RenderState { row: 0, col: 0, lines: seq![Seq::empty()], end: start, stopped: false }
    } else {
        let i = (n - 1) as nat;
        render_step(
            render_prefix(text, i, start, anns, columns, rows),
            text[i as int],
            start + utf8_len(text.take(i as int)),
            start + utf8_len(text.take(i + 1int)),
            anns,
            columns,
            rows,
        )
    }
}

pub open spec fn render_of(text: Seq<char>, start: nat, anns: Seq<Annotation>, columns: nat, rows: nat) -> RenderState {
    render_prefix(text, text.len(), start, anns, columns, rows)
}

proof fn lemma_render_stopped_stable(
    text: Seq<char>,
    n: nat,
    m: nat,
    start: nat,
    anns: Seq<Annotation>,
    columns: nat,
    rows: nat,
)
    requires
        n <= m <= text.len(),
        render_prefix(text, n, start, anns, columns, rows).stopped,
    ensures
        render_prefix(text, m, start, anns, columns, rows) == render_prefix(text, n, start, anns, columns, rows),
    decreases m - n,
{
    if m > n {
        lemma_render_stopped_stable(text, n, (m - 1) as nat, start, anns, columns, rows);
    }
}

/// Highlight of the first annotation overlapping `[char_start, char_end)`.
fn style_for(annotations: &[Annotation], char_start: u64, char_end: u64) -> (s: Option<AnnotationKind>)
    ensures
        s == style_at(annotations@, char_start as nat, char_end as nat),
{
    let mut i: usize = 0;
    assert(annotations@.skip(0) =~= annotations@);
    while i < annotations.len()
        invariant
            i <= annotations@.len(),
            style_at(annotations@, char_start as nat, char_end as nat) == style_at(
                annotations@.skip(i as int),
                char_start as nat,
                char_end as nat,
            ),
        decreases annotations@.len() - i,
    {
        let a = annotations[i];
        assert(annotations@.skip(i as int)[0] == a);
        if a.start_offset < char_end && a.end_offset > char_start {
            return Some(a.kind);
        }
        assert(annotations@.skip(i as int).drop_first() =~= annotations@.skip(i + 1));
        i = i + 1;
    }
    None
}

/// Appends `ch` with highlight `style` to a row.
fn push_styled_char(line: &mut Vec<StyledSpan>, ch: char, style: Option<AnnotationKind>)
    ensures
        line_spec(*final(line)) == push_styled(line_spec(*old(line)), ch, style),
{
    let ghost before = line_spec(*line);
    let n = line.len();
    if n > 0 && line[n - 1].kind == style {
        let mut last = line.pop().unwrap();
        assert(line_spec(*line) =~= before.drop_last());
        string_push(&mut last.text, ch);
        line.push(last);
        assert(line_spec(*line) =~= before.update(before.len() - 1, (before.last().0.push(ch), style)));
    } else {
        let mut text = String::new();
        string_push(&mut text, ch);
        line.push(StyledSpan { text, kind: style });
        assert(text@ =~= seq![ch]);
        assert(line_spec(*line) =~= before.push((seq![ch], style)));
    }
}

/// Lays out `text` from `start_offset` on `rows` rows of `columns` columns like
/// `layout_page`, without putting `'\n'` or `'\r'` into the rows, and gives each
/// character the highlight of the first annotation that overlaps its bytes. On
/// text without `'\r'` the page ends at the byte `layout_page` ends at.
pub fn render_highlighted_page(
    text: &str,
    start_offset: u64,
    columns: u16,
    rows: u16,
    annotations: &[Annotation],
) -> (page: HighlightedPage)
    requires
        start_offset + utf8_len(text@) <= u64::MAX,
    ensures
        ({
            let st = render_of(text@, start_offset as nat, annotations@, columns as nat, rows as nat);
            &&& lines_spec(page.lines@) == st.lines
            &&& page.end_offset == st.end
        }),
        no_carriage_return(text@) ==> page.end_offset == page_end_offset(
            text@,
            start_offset as nat,
            columns as nat,
            rows as nat,
        ),
{
    proof {
        if no_carriage_return(text@) {
            lemma_highlight_consumes_like_layout(text@, start_offset as nat, annotations@, columns as nat, rows as nat);
        }
    }
    let max_columns: usize = columns as usize;
    let max_rows: usize = rows as usize;
    let ghost cols = columns as nat;
    let ghost rws = rows as nat;
    let ghost anns = annotations@;

    let mut done: Vec<Vec<StyledSpan>> = Vec::new();
    let mut current: Vec<StyledSpan> = Vec::new();
    let mut current_open: bool = true;
    let mut current_row: usize = 0;
    let mut current_col: usize = 0;
    let mut byte_index: u64 = 0;
    let mut end_offset: u64 = start_offset;
    assert(line_spec(current) =~= Seq::<(Seq<char>, Option<AnnotationKind>)>::empty());
    assert(lines_spec(done@) =~= Seq::<Seq<(Seq<char>, Option<AnnotationKind>)>>::empty());
    assert(lines_spec(done@).push(line_spec(current)) =~= seq![Seq::<(Seq<char>, Option<AnnotationKind>)>::empty()]);

    for ch in it: text.chars()
        invariant_except_break
            it.seq() == text@,
            anns == annotations@,
            start_offset + utf8_len(text@) <= u64::MAX,
            max_columns == cols,
            max_columns <= 65535,
            max_rows == rws,
            byte_index == utf8_len(text@.take(it.index() as int)),
            ({
                let st = render_prefix(text@, it.index() as nat, start_offset as nat, anns, cols, rws);
                &&& !st.stopped
                &&& st.row == current_row
                &&& st.col == current_col
                &&& st.end == end_offset
                &&& st.lines == if current_open {
                    lines_spec(done@).push(line_spec(current))
                } else {
                    lines_spec(done@)
                }
                &&& current_open <==> st.row < rws || (rws == 0 && st.row == 0)
                &&& current_open ==> done@.len() == current_row
            }),
            current_row <= max_rows,
            current_col <= max_columns + 255,
        ensures
            ({
                let st = render_of(text@, start_offset as nat, anns, cols, rws);
                &&& st.end == end_offset
                &&& st.lines == if current_open {
                    lines_spec(done@).push(line_spec(current))
                } else {
                    lines_spec(done@)
                }
            }),
    {
        let ghost i = it.index();
        proof {
            lemma_utf8_len_take_step(text@, i as int);
            lemma_utf8_len_take_mono(text@, i as int + 1, text@.len() as int);
            lemma_take_full(text@);
        }
        let ch_len: usize = char_utf8_len(ch);
        let next_byte_index: u64 = byte_index + ch_len as u64;
        let char_start: u64 = start_offset + byte_index;
        let char_end: u64 = start_offset + next_byte_index;

        if current_row >= max_rows {
            proof {
                lemma_render_stopped_stable(text@, (i + 1) as nat, text@.len(), start_offset as nat, anns, cols, rws);
            }
            break;
        }

        if ch == '\r' {
            end_offset = char_end;
        } else if ch == '\n' {
            let ghost before_done = lines_spec(done@);
            let ghost cur_spec = line_spec(current);
            current_row = current_row + 1;
            current_col = 0;
            end_offset = char_end;
            let mut finished: Vec<StyledSpan> = Vec::new();
            std::mem::swap(&mut finished, &mut current);
            done.push(finished);
            assert(lines_spec(done@) =~= before_done.push(cur_spec));
            if current_row < max_rows {
                assert(line_spec(current) =~= Seq::<(Seq<char>, Option<AnnotationKind>)>::empty());
            } else {
                current_open = false;
            }
        } else {
            let char_width: usize = char_display_width(ch);
            if current_col + char_width > max_columns {
                let ghost before_done = lines_spec(done@);
                let ghost cur_spec = line_spec(current);
                current_row = current_row + 1;
                current_col = 0;
                if current_row >= max_rows {
                    proof {
                        lemma_render_stopped_stable(text@, (i + 1) as nat, text@.len(), start_offset as nat, anns, cols, rws);
                    }
                    break;
                }
                let mut finished: Vec<StyledSpan> = Vec::new();
            std::mem::swap(&mut finished, &mut current);
                done.push(finished);
                assert(lines_spec(done@) =~= before_done.push(cur_spec));
                assert(line_spec(current) =~= Seq::<(Seq<char>, Option<AnnotationKind>)>::empty());
            }
            let style = style_for(annotations, char_start, char_end);
            let ghost before_done = lines_spec(done@);
            push_styled_char(&mut current, ch, style);
            current_col = current_col + char_width;
            end_offset = char_end;
            proof {
                let ls = before_done.push(line_spec(current));
                assert(ls.len() == current_row + 1);
            }
        }
        byte_index = next_byte_index;
    }

    if current_open {
        done.push(current);
    }
    HighlightedPage { lines: done, end_offset }
}

} // verus!

verus! {

/// Whether no span of `lines` holds a line break (`'\n'` or `'\r'`).
pub open spec fn no_line_breaks(lines: Seq<Seq<(Seq<char>, Option<AnnotationKind>)>>) -> bool {
    forall|i: int, j: int, k: int|
        0 <= i < lines.len() && 0 <= j < lines[i].len() && 0 <= k < lines[i][j].0.len() ==> {
            &&& #[trigger] lines[i][j].0[k] != '\n'
            &&& lines[i][j].0[k] != '\r'
        }
}

proof fn lemma_push_styled_no_breaks(
    lines: Seq<Seq<(Seq<char>, Option<AnnotationKind>)>>,
    i: int,
    ch: char,
    style: Option<AnnotationKind>,
)
    requires
        no_line_breaks(lines),
        0 <= i < lines.len(),
        ch != '\n',
        ch != '\r',
    ensures
        no_line_breaks(lines.update(i, push_styled(lines[i], ch, style))),
{
    let line = lines[i];
    let new_line = push_styled(line, ch, style);
    let out = lines.update(i, new_line);
    assert forall|a: int, b: int, k: int|
        0 <= a < out.len() && 0 <= b < out[a].len() && 0 <= k < out[a][b].0.len() implies {
            &&& #[trigger] out[a][b].0[k] != '\n'
            &&& out[a][b].0[k] != '\r'
        } by {
        if a == i {
            if line.len() > 0 && line.last().1 == style {
                if b == line.len() - 1 {
                    if k < line.last().0.len() {
                        assert(out[a][b].0[k] == lines[i][b].0[k]);
                    }
                } else {
                    assert(out[a][b] == lines[i][b]);
                }
            } else {
                if b < line.len() {
                    assert(out[a][b] == lines[i][b]);
                }
            }
        } else {
            assert(out[a] == lines[a]);
        }
    }
}

proof fn lemma_render_prefix_no_breaks(
    text: Seq<char>,
    n: nat,
    start: nat,
    anns: Seq<Annotation>,
    columns: nat,
    rows: nat,
)
    requires
        n <= text.len(),
    ensures
        no_line_breaks(render_prefix(text, n, start, anns, columns, rows).lines),
        ({
            let st = render_prefix(text, n, start, anns, columns, rows);
            !st.stopped && st.row < rows ==> st.lines.len() == st.row + 1
        }),
    decreases n,
{
    if n == 0 {
        let lines = seq![Seq::<(Seq<char>, Option<AnnotationKind>)>::empty()];
        assert(no_line_breaks(lines));
    } else {
        let i = (n - 1) as nat;
        lemma_render_prefix_no_breaks(text, i, start, anns, columns, rows);
        let st = render_prefix(text, i, start, anns, columns, rows);
        let ch = text[i as int];
        let cs = start + utf8_len(text.take(i as int));
        let ce = start + utf8_len(text.take(i + 1int));
        if st.stopped || st.row >= rows {
        } else if ch == '\r' {
        } else if ch == '\n' {
            if st.row + 1 < rows {
                let grown = st.lines.push(Seq::empty());
                assert(no_line_breaks(grown)) by {
                    assert forall|a: int, b: int, k: int|
                        0 <= a < grown.len() && 0 <= b < grown[a].len() && 0 <= k < grown[a][b].0.len() implies {
                            &&& #[trigger] grown[a][b].0[k] != '\n'
                            &&& grown[a][b].0[k] != '\r'
                        } by {
                        assert(a < st.lines.len());
                        assert(grown[a] == st.lines[a]);
                    }
                }
            }
        } else if st.col + display_width(ch) > columns {
            if st.row + 1 < rows {
                let ls = st.lines.push(Seq::empty());
                assert(no_line_breaks(ls)) by {
                    assert forall|a: int, b: int, k: int|
                        0 <= a < ls.len() && 0 <= b < ls[a].len() && 0 <= k < ls[a][b].0.len() implies {
                            &&& #[trigger] ls[a][b].0[k] != '\n'
                            &&& ls[a][b].0[k] != '\r'
                        } by {
                        assert(a < st.lines.len());
                        assert(ls[a] == st.lines[a]);
                    }
                }
                lemma_push_styled_no_breaks(ls, st.row + 1int, ch, style_at(anns, cs, ce));
            }
        } else {
            lemma_push_styled_no_breaks(st.lines, st.row as int, ch, style_at(anns, cs, ce));
        }
    }
}

/// Law: no span of a rendered page holds a line break; rows are the page's
/// lines, and `'\r'` is never shown.
pub proof fn lemma_render_has_no_line_breaks(
    text: Seq<char>,
    start: nat,
    anns: Seq<Annotation>,
    columns: nat,
    rows: nat,
)
    ensures
        no_line_breaks(render_of(text, start, anns, columns, rows).lines),
{
    lemma_render_prefix_no_breaks(text, text.len(), start, anns, columns, rows);
}

/// `text` holds no carriage return.
pub open spec fn no_carriage_return(text: Seq<char>) -> bool {
    forall|k: int| 0 <= k < text.len() ==> text[k] != '\r'
}

proof fn lemma_render_tracks_layout(
    text: Seq<char>,
    n: nat,
    start: nat,
    anns: Seq<Annotation>,
    columns: nat,
    rows: nat,
)
    requires
        n <= text.len(),
        no_carriage_return(text),
    ensures
        ({
            let r = render_prefix(text, n, start, anns, columns, rows);
            let l = layout_prefix(text, n, columns, rows);
            &&& r.row == l.row
            &&& r.col == l.col
            &&& r.stopped == l.stopped
            &&& r.end == start + utf8_len(text.take(l.consumed as int))
        }),
    decreases n,
{
    if n == 0 {
        assert(text.take(0) =~= Seq::<char>::empty());
        assert(encode_utf8(Seq::<char>::empty()) =~= Seq::<u8>::empty());
    } else {
        lemma_render_tracks_layout(text, (n - 1) as nat, start, anns, columns, rows);
        assert(text[n - 1] != '\r');
    }
}

/// Law: on text without carriage returns, a highlighted page ends at the same
/// byte as the plain page: highlighting never changes how much text a page
/// shows.
pub proof fn lemma_highlight_consumes_like_layout(
    text: Seq<char>,
    start: nat,
    anns: Seq<Annotation>,
    columns: nat,
    rows: nat,
)
    requires
        no_carriage_return(text),
    ensures
        render_of(text, start, anns, columns, rows).end == page_end_offset(text, start, columns, rows),
{
    lemma_render_tracks_layout(text, text.len(), start, anns, columns, rows);
}

/// Law: a character's highlight, over its bytes `[cs, ce)`, is the kind of the
/// first annotation that overlaps them: annotation `k` when it overlaps and no
/// earlier one does.
pub proof fn lemma_style_is_first_overlap(anns: Seq<Annotation>, cs: nat, ce: nat, k: int)
    requires
        0 <= k < anns.len(),
        anns[k].start_offset < ce && anns[k].end_offset > cs,
        forall|j: int| 0 <= j < k ==> !((#[trigger] anns[j]).start_offset < ce && anns[j].end_offset > cs),
    ensures
        style_at(anns, cs, ce) == Some(anns[k].kind),
    decreases k,
{
    if k > 0 {
        let rest = anns.drop_first();
        assert(!(anns[0].start_offset < ce && anns[0].end_offset > cs));
        assert forall|j: int| 0 <= j < k - 1 implies !((#[trigger] rest[j]).start_offset < ce && rest[j].end_offset > cs) by {
            assert(rest[j] == anns[j + 1]);
        }
        assert(rest[k - 1] == anns[k]);
        lemma_style_is_first_overlap(rest, cs, ce, k - 1);
    }
}

/// Law: a character no annotation overlaps has no highlight.
pub proof fn lemma_style_without_overlap(anns: Seq<Annotation>, cs: nat, ce: nat)
    requires
        forall|j: int| 0 <= j < anns.len() ==> !((#[trigger] anns[j]).start_offset < ce && anns[j].end_offset > cs),
    ensures
        style_at(anns, cs, ce) is None,
    decreases anns.len(),
{
    if anns.len() > 0 {
        let rest = anns.drop_first();
        assert(!(anns[0].start_offset < ce && anns[0].end_offset > cs));
        assert forall|j: int| 0 <= j < rest.len() implies !((#[trigger] rest[j]).start_offset < ce && rest[j].end_offset
            > cs) by {
            assert(rest[j] == anns[j + 1]);
        }
        lemma_style_without_overlap(rest, cs, ce);
    }
}

/// The characters of a row, span after span.
pub open spec fn row_text(line: Seq<(Seq<char>, Option<AnnotationKind>)>) -> Seq<char>
    decreases line.len(),
{
    if line.len() == 0 {
        Seq::empty()
    } else {
        row_text(line.drop_last()) + line.last().0
    }
}

/// The rows' characters, one `'\n'` between two rows.
pub open spec fn rows_text(lines: Seq<Seq<(Seq<char>, Option<AnnotationKind>)>>) -> Seq<char>
    decreases lines.len(),
{
    if lines.len() == 0 {
        Seq::empty()
    } else if lines.len() == 1 {
        row_text(lines[0])
    } else {
        rows_text(lines.drop_last()).push('\n') + row_text(lines.last())
    }
}

proof fn lemma_row_text_push(line: Seq<(Seq<char>, Option<AnnotationKind>)>, ch: char, style: Option<AnnotationKind>)
    ensures
        row_text(push_styled(line, ch, style)) == row_text(line).push(ch),
{
    let p = push_styled(line, ch, style);
    if line.len() > 0 && line.last().1 == style {
        assert(p.drop_last() =~= line.drop_last());
        assert(p.last() == (line.last().0.push(ch), style));
        assert(row_text(p) =~= row_text(line).push(ch));
    } else {
        assert(p.drop_last() =~= line);
        assert(row_text(p) =~= row_text(line) + seq![ch]);
        assert(row_text(line) + seq![ch] =~= row_text(line).push(ch));
    }
}

proof fn lemma_rows_text_push_empty(lines: Seq<Seq<(Seq<char>, Option<AnnotationKind>)>>)
    requires
        lines.len() >= 1,
    ensures
        rows_text(lines.push(Seq::empty())) == rows_text(lines).push('\n'),
{
    let p = lines.push(Seq::<(Seq<char>, Option<AnnotationKind>)>::empty());
    assert(p.drop_last() =~= lines);
    assert(row_text(p.last()) =~= Seq::<char>::empty());
    assert(rows_text(p) =~= rows_text(lines).push('\n'));
}

proof fn lemma_rows_text_extend_last(
    lines: Seq<Seq<(Seq<char>, Option<AnnotationKind>)>>,
    ch: char,
    style: Option<AnnotationKind>,
)
    requires
        lines.len() >= 1,
    ensures
        rows_text(lines.update(lines.len() - 1, push_styled(lines.last(), ch, style))) == rows_text(lines).push(ch),
{
    let u = lines.update(lines.len() - 1, push_styled(lines.last(), ch, style));
    lemma_row_text_push(lines.last(), ch, style);
    if lines.len() == 1 {
        assert(u[0] == push_styled(lines.last(), ch, style));
        assert(lines[0] == lines.last());
    } else {
        assert(u.drop_last() =~= lines.drop_last());
        assert(u.last() == push_styled(lines.last(), ch, style));
        assert(rows_text(u) =~= rows_text(lines).push(ch));
    }
}

proof fn lemma_render_text_tracks_layout(
    text: Seq<char>,
    n: nat,
    start: nat,
    anns: Seq<Annotation>,
    columns: nat,
    rows: nat,
)
    requires
        n <= text.len(),
        no_carriage_return(text),
    ensures
        ({
            let r = render_prefix(text, n, start, anns, columns, rows);
            let l = layout_prefix(text, n, columns, rows);
            &&& r.lines.len() >= 1
            &&& l.row < rows ==> r.lines.len() == l.row + 1 && rows_text(r.lines) == l.out
            &&& l.row >= rows ==> (rows_text(r.lines) == l.out || rows_text(r.lines).push('\n') == l.out)
        }),
    decreases n,
{
    lemma_render_tracks_layout(text, n, start, anns, columns, rows);
    if n == 0 {
        assert(rows_text(seq![Seq::<(Seq<char>, Option<AnnotationKind>)>::empty()]) =~= Seq::<char>::empty());
    } else {
        let i = (n - 1) as nat;
        lemma_render_text_tracks_layout(text, i, start, anns, columns, rows);
        lemma_render_tracks_layout(text, i, start, anns, columns, rows);
        let r0 = render_prefix(text, i, start, anns, columns, rows);
        let l0 = layout_prefix(text, i, columns, rows);
        let ch = text[i as int];
        assert(ch != '\r');
        let cs = start + utf8_len(text.take(i as int));
        let ce = start + utf8_len(text.take(i + 1int));
        let style = style_at(anns, cs, ce);
        if !(r0.stopped || r0.row >= rows) {
            if ch == '\n' {
                if r0.row + 1 < rows {
                    lemma_rows_text_push_empty(r0.lines);
                }
            } else if r0.col + display_width(ch) > columns {
                if r0.row + 1 < rows {
                    let ls = r0.lines.push(Seq::empty());
                    lemma_rows_text_push_empty(r0.lines);
                    assert(ls.last() == ls[r0.row + 1int]);
                    lemma_rows_text_extend_last(ls, ch, style);
                }
            } else {
                assert(r0.lines.last() == r0.lines[r0.row as int]);
                lemma_rows_text_extend_last(r0.lines, ch, style);
            }
        }
    }
}

/// Law: on text without `'\r'`, a highlighted page shows the same characters,
/// row for row, as the plain page: its rows joined by `'\n'` are the plain page's
/// text, except for the `'\n'` that ends the plain page when its last row
/// ended with a line break. So every blank line takes a row in both.
pub proof fn lemma_highlight_rows_match_layout(
    text: Seq<char>,
    start: nat,
    anns: Seq<Annotation>,
    columns: nat,
    rows: nat,
)
    requires
        no_carriage_return(text),
    ensures
        ({
            let page = render_of(text, start, anns, columns, rows).lines;
            let plain = layout_of(text, columns, rows).out;
            rows_text(page) == plain || rows_text(page).push('\n') == plain
        }),
{
    lemma_render_text_tracks_layout(text, text.len(), start, anns, columns, rows);
}

} // verus!
