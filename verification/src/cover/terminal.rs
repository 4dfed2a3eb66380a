//! A scroll-back terminal that keeps logical lines and wraps them to the
//! current width only when they are shown.
use vstd::prelude::*;
use crate::cover::op::CoverOp;
use crate::page_layout::{char_display_width, display_width, string_push};
use vstd::string::StringExecFns;

verus! {

broadcast use vstd::string::group_string_axioms;

/// Appends `t` to `s`.
pub(crate) fn string_push_str(s: &mut String, t: &str)
    ensures
        final(s)@ == old(s)@ + t@,
{
    s.append(t);
}

/// A visual row: which logical line it comes from and which wrapped piece it is.
#[derive(Debug, Clone, Copy, PartialEq, Eq)]
pub struct ViewPosition {
    pub line: u64,
    pub wrapped_row: usize,
}

/// One row as drawn.
pub struct VisualRow {
    pub position: ViewPosition,
    pub text: String,
}

/// A drawn row in mathematical terms.
pub struct RowSpec {
    pub line: nat,
    pub wrapped_row: nat,
    pub text: Seq<char>,
}

pub open spec fn row_spec(r: VisualRow) -> RowSpec {
    RowSpec { line: r.position.line as nat, wrapped_row: r.position.wrapped_row as nat, text: r.text@ }
}

pub open spec fn rows_spec(rows: Seq<VisualRow>) -> Seq<RowSpec> {
    rows.map_values(|r: VisualRow| row_spec(r))
}

/// Greedy wrapping state after a prefix of a line.
pub struct WrapState {
    pub rows: Seq<Seq<char>>,
    pub current: Seq<char>,
    pub width: nat,
}

/// A character goes to a new row when the current row is not empty and the
/// character would make it wider than `w`.
pub open spec fn wrap_step(st: WrapState, ch: char, w: nat) -> WrapState {
    if st.width > 0 && st.width + display_width(ch) > w {
        WrapState { rows: st.rows.push(st.current), current: seq![ch], width: display_width(ch) }
    } else {
        WrapState { rows: st.rows, current: st.current.push(ch), width: st.width + display_width(ch) }
    }
}

pub open spec fn wrap_prefix(line: Seq<char>, n: nat, w: nat) -> WrapState
    decreases n,
{
    if n == 0 {
        WrapState { rows: Seq::empty(), current: Seq::empty(), width: 0 }
    } else {
        wrap_step(wrap_prefix(line, (n - 1) as nat, w), line[n - 1], w)
    }
}

/// The rows a logical line wraps into at width `w` (at least one, possibly empty).
pub open spec fn wrap_line(line: Seq<char>, w: nat) -> Seq<Seq<char>> {
    let st = wrap_prefix(line, line.len(), w);
    st.rows.push(st.current)
}

/// The rows of the logical line numbered `abs_line`.
pub open spec fn line_rows(line: Seq<char>, abs_line: nat, w: nat) -> Seq<RowSpec> {
    wrap_line(line, w).map(|j: int, t: Seq<char>| RowSpec { line: abs_line, wrapped_row: j as nat, text: t })
}

/// Rows of the first `n` kept lines.
pub open spec fn rows_prefix(lines: Seq<Seq<char>>, first: nat, n: nat, w: nat) -> Seq<RowSpec>
    decreases n,
{
    if n == 0 {
        Seq::empty()
    } else {
        rows_prefix(lines, first, (n - 1) as nat, w) + line_rows(lines[n - 1], first + (n - 1) as nat, w)
    }
}

/// All visual rows at `width` (a width of 0 is taken as 1).
pub open spec fn layout_rows_spec(lines: Seq<Seq<char>>, first: nat, width: nat) -> Seq<RowSpec> {
    rows_prefix(lines, first, lines.len(), if width == 0 { 1 } else { width })
}

/// Index of the first row of logical line `line`, or -1.
pub open spec fn first_row_of(rows: Seq<RowSpec>, line: nat) -> int
    decreases rows.len(),
{
    if rows.len() == 0 {
        -1
    } else if rows[0].line == line {
        0
    } else {
        let r = first_row_of(rows.drop_first(), line);
        if r < 0 { -1 } else { r + 1 }
    }
}

/// Number of leading rows that belong to logical line `line`.
pub open spec fn run_len(rows: Seq<RowSpec>, line: nat) -> nat
    decreases rows.len(),
{
    if rows.len() == 0 || rows[0].line != line {
        0
    } else {
        1 + run_len(rows.drop_first(), line)
    }
}

/// First row shown when following the output.
pub open spec fn bottom_start(n: nat, height: nat) -> nat {
    if n >= height { (n - height) as nat } else { 0 }
}

/// First row shown: the bottom rows when following, else the row the view is
/// anchored at (clamped to the line's rows and to the bottom).
pub open spec fn view_start_index_spec(rows: Seq<RowSpec>, view: Option<(nat, nat)>, height: nat) -> nat {
    let bottom = bottom_start(rows.len(), height);
    match view {
        None => bottom,
        Some(v) => {
            let f = first_row_of(rows, v.0);
            if f < 0 {
                bottom
            } else {
                let rc = run_len(rows.skip(f), v.0);
                let wr: nat = if v.1 < (if rc >= 1 { (rc - 1) as nat } else { 0 }) {
                    v.1
                } else {
                    if rc >= 1 { (rc - 1) as nat } else { 0 }
                };
                if f + wr < bottom { (f + wr) as nat } else { bottom }
            }
        }
    }
}

pub open spec fn view_pos_spec(p: ViewPosition) -> (nat, nat) {
    (p.line as nat, p.wrapped_row as nat)
}

pub open spec fn view_spec(v: Option<ViewPosition>) -> Option<(nat, nat)> {
    match v {
        Some(p) => Some(view_pos_spec(p)),
        None => None,
    }
}

/// Row at visual index `i` as an anchor.
pub open spec fn anchor_at(rows: Seq<RowSpec>, i: int) -> Option<(nat, nat)> {
    if 0 <= i < rows.len() {
        Some((rows[i].line, rows[i].wrapped_row))
    } else {
        None
    }
}

/// A terminal in mathematical terms: kept lines, absolute number of the oldest
/// one, cursor line, capacity and view anchor.
pub struct TermState {
    pub lines: Seq<Seq<char>>,
    pub first: nat,
    pub cursor: nat,
    pub max_lines: nat,
    pub view: Option<(nat, nat)>,
}

/// A new line: the cursor moves down; at the bottom an empty line is opened and
/// the oldest lines beyond capacity are dropped, a view anchored at a dropped
/// line moving to the oldest kept line.
pub open spec fn new_line_spec(st: TermState) -> TermState {
    if st.cursor < st.first + st.lines.len() - 1 {
        TermState { cursor: st.cursor + 1, ..st }
    } else {
        let grown = st.lines.push(Seq::<char>::empty());
        let dropped: nat = if grown.len() > st.max_lines { (grown.len() - st.max_lines) as nat } else { 0 };
        let first = st.first + dropped;
        TermState {
            lines: grown.skip(dropped as int),
            first,
            cursor: st.cursor + 1,
            max_lines: st.max_lines,
            view: match st.view {
                Some(v) => if v.0 < first { Some((first, 0nat)) } else { Some(v) },
                None => None,
            },
        }
    }
}

/// Appending `text` to the cursor line.
pub open spec fn write_spec(st: TermState, text: Seq<char>) -> TermState {
    let i = st.cursor - st.first;
    TermState { lines: st.lines.update(i, st.lines[i] + text), ..st }
}

/// Effect of one operation.
pub open spec fn apply_spec(st: TermState, op: CoverOp) -> TermState {
    let i = st.cursor - st.first;
    match op {
        CoverOp::Write(text) => write_spec(st, text@),
        CoverOp::NewLine => new_line_spec(st),
        CoverOp::EraseLine => TermState { lines: st.lines.update(i, Seq::<char>::empty()), ..st },
        CoverOp::CursorUp(n) => TermState {
            cursor: if st.cursor >= n + st.first { (st.cursor - n) as nat } else { st.first },
            ..st
        },
    }
}

/// Effect of a sequence of operations, in order.
pub open spec fn apply_all_spec(st: TermState, ops: Seq<CoverOp>) -> TermState
    decreases ops.len(),
{
    if ops.len() == 0 {
        st
    } else {
        apply_spec(apply_all_spec(st, ops.drop_last()), ops.last())
    }
}

/// Scrolling up by `amount` rows of a `width` x `height` window: the view is
/// anchored at the row it then starts at.
pub open spec fn scroll_up_spec(st: TermState, amount: nat, width: nat, height: nat) -> TermState {
    let rs = layout_rows_spec(st.lines, st.first, width);
    let cur = view_start_index_spec(rs, st.view, height);
    let next: int = if cur >= amount { cur - amount } else { 0 };
    TermState {
        view: if width == 0 || height == 0 || next >= cur { st.view } else { anchor_at(rs, next) },
        ..st
    }
}

/// Scrolling down by `amount` rows; reaching the bottom returns to following
/// the output.
pub open spec fn scroll_down_spec(st: TermState, amount: nat, width: nat, height: nat) -> TermState {
    let rs = layout_rows_spec(st.lines, st.first, width);
    let bottom = bottom_start(rs.len(), height);
    let cur = view_start_index_spec(rs, st.view, height);
    let next: int = if cur + amount < bottom { (cur + amount) as int } else { bottom as int };
    TermState {
        view: if width == 0 || height == 0 {
            st.view
        } else if next == bottom {
            None
        } else {
            anchor_at(rs, next)
        },
        ..st
    }
}

pub struct CoverTerminal {
    lines: Vec<String>,
    first_line: u64,
    cursor_line: u64,
    max_lines: usize,
    view_start: Option<ViewPosition>,
}

impl CoverTerminal {
    /// The kept logical lines, oldest first.
    pub closed spec fn lines_spec(&self) -> Seq<Seq<char>> {
        self.lines@.map_values(|s: String| s@)
    }

    /// Absolute number of the oldest kept line.
    pub closed spec fn first_line_spec(&self) -> nat {
        self.first_line as nat
    }

    /// Absolute number of the cursor line.
    pub closed spec fn cursor_spec(&self) -> nat {
        self.cursor_line as nat
    }

    /// Most lines kept.
    pub closed spec fn max_lines_spec(&self) -> nat {
        self.max_lines as nat
    }

    /// Where the view is anchored, or `None` when it follows the output.
    pub closed spec fn view_start_spec(&self) -> Option<(nat, nat)> {
        view_spec(self.view_start)
    }

    /// Absolute number of the newest kept line.
    pub open spec fn last_line_spec(&self) -> nat {
        (self.first_line_spec() + self.lines_spec().len() - 1) as nat
    }

    /// Between one and `max_lines` lines are kept and the cursor is on one of them.
    pub open spec fn wf(&self) -> bool {
        &&& 1 <= self.lines_spec().len() <= self.max_lines_spec()
        &&& self.first_line_spec() <= self.cursor_spec() <= self.last_line_spec()
        &&& self.first_line_spec() + self.lines_spec().len() <= u64::MAX
    }

    /// The visual rows at `width`.
    pub open spec fn rows_at(&self, width: nat) -> Seq<RowSpec> {
        layout_rows_spec(self.lines_spec(), self.first_line_spec(), width)
    }

    /// Index, into the kept lines, of the cursor line.
    pub open spec fn cursor_index(&self) -> int {
        self.cursor_spec() - self.first_line_spec()
    }

    /// An empty terminal keeping at most `max(max_lines, 1)` lines.
    pub fn new(max_lines: usize) -> (t: CoverTerminal)
        ensures
            t.wf(),
            t.lines_spec() == seq![Seq::<char>::empty()],
            t.first_line_spec() == 0,
            t.cursor_spec() == 0,
            t.max_lines_spec() == if max_lines >= 1 { max_lines as nat } else { 1 },
            t.view_start_spec() is None,
            t.state() == new_terminal_state(max_lines as nat),
    {
        let mut lines: Vec<String> = Vec::new();
        lines.push(String::new());
        let t = CoverTerminal {
            lines,
            first_line: 0,
            cursor_line: 0,
            max_lines: if max_lines >= 1 { max_lines } else { 1 },
            view_start: None,
        };
        assert(t.lines_spec() =~= seq![Seq::<char>::empty()]);
        t
    }

    /// How many more line numbers the terminal can hand out.
    pub fn line_numbers_left(&self) -> (n: u64)
        requires
            self.wf(),
        ensures
            n == u64::MAX - (self.first_line_spec() + self.lines_spec().len()),
    {
        u64::MAX - self.first_line - self.lines.len() as u64
    }

    /// The terminal's state in mathematical terms.
    pub open spec fn state(&self) -> TermState {
        TermState {
            lines: self.lines_spec(),
            first: self.first_line_spec(),
            cursor: self.cursor_spec(),
            max_lines: self.max_lines_spec(),
            view: self.view_start_spec(),
        }
    }

    /// Executes one terminal operation.
    pub fn apply(&mut self, op: CoverOp)
        requires
            old(self).wf(),
            op is NewLine ==> old(self).first_line_spec() + old(self).lines_spec().len() < u64::MAX,
        ensures
            final(self).wf(),
            final(self).state() == apply_spec(old(self).state(), op),
    {
        match op {
            CoverOp::Write(text) => self.write(text.as_str()),
            CoverOp::NewLine => self.new_line(),
            CoverOp::EraseLine => self.erase_line(),
            CoverOp::CursorUp(rows) => self.cursor_up(rows),
        }
    }

    /// The state after a new line: the cursor moves down; at the bottom an empty
    /// line is opened and the oldest lines beyond `max_lines` are dropped; a view
    /// anchored at a dropped line moves to the oldest kept line.
    pub open spec fn is_after_new_line(&self, before: CoverTerminal) -> bool {
        self.state() == new_line_spec(before.state())
    }

    fn write(&mut self, text: &str)
        requires
            old(self).wf(),
        ensures
            final(self).wf(),
            final(self).max_lines == old(self).max_lines,
            final(self).lines_spec() == old(self).lines_spec().update(
                old(self).cursor_index(),
                old(self).lines_spec()[old(self).cursor_index()] + text@,
            ),
            final(self).first_line == old(self).first_line,
            final(self).cursor_line == old(self).cursor_line,
            final(self).view_start == old(self).view_start,
    {
        let index = self.line_index(self.cursor_line);
        let mut line = self.lines[index].clone();
        string_push_str(&mut line, text);
        let ghost before = self.lines@;
        self.lines.set(index, line);
        assert(self.lines_spec() =~= before.map_values(|s: String| s@).update(index as int, before[index as int]@ + text@));
    }

    fn new_line(&mut self)
        requires
            old(self).wf(),
            old(self).first_line_spec() + old(self).lines_spec().len() < u64::MAX,
        ensures
            final(self).wf(),
            final(self).max_lines == old(self).max_lines,
            final(self).is_after_new_line(*old(self)),
    {
        if self.cursor_line < self.last_line() {
            self.cursor_line = self.cursor_line + 1;
            return;
        }

        self.cursor_line = self.cursor_line + 1;
        let ghost grown = self.lines_spec().push(Seq::<char>::empty());
        self.lines.push(String::new());
        assert(self.lines_spec() =~= grown);
        self.trim_history();
    }

    fn erase_line(&mut self)
        requires
            old(self).wf(),
        ensures
            final(self).wf(),
            final(self).max_lines == old(self).max_lines,
            final(self).lines_spec() == old(self).lines_spec().update(
                old(self).cursor_index(),
                Seq::<char>::empty(),
            ),
            final(self).first_line == old(self).first_line,
            final(self).cursor_line == old(self).cursor_line,
            final(self).view_start == old(self).view_start,
    {
        let index = self.line_index(self.cursor_line);
        let ghost before = self.lines@;
        self.lines.set(index, String::new());
        assert(self.lines_spec() =~= before.map_values(|s: String| s@).update(index as int, Seq::<char>::empty()));
    }

    fn cursor_up(&mut self, rows: usize)
        requires
            old(self).wf(),
        ensures
            final(self).wf(),
            final(self).max_lines == old(self).max_lines,
            final(self).lines == old(self).lines,
            final(self).first_line == old(self).first_line,
            final(self).view_start == old(self).view_start,
            final(self).cursor_spec() == if old(self).cursor_spec() >= rows + old(self).first_line_spec() {
                (old(self).cursor_spec() - rows) as nat
            } else {
                old(self).first_line_spec()
            },
    {
        let lowered: u64 = if self.cursor_line >= rows as u64 { self.cursor_line - rows as u64 } else { 0 };
        self.cursor_line = if lowered >= self.first_line { lowered } else { self.first_line };
    }

    /// Drops the oldest lines beyond `max_lines`; a view anchored at a dropped
    /// line moves to the oldest kept line.
    fn trim_history(&mut self)
        requires
            old(self).lines_spec().len() >= 1,
            old(self).max_lines >= 1,
            old(self).first_line_spec() + old(self).lines_spec().len() <= u64::MAX,
            old(self).lines_spec().len() <= old(self).max_lines + 1,
            old(self).first_line_spec() + 1 <= old(self).cursor_spec() + 1,
            old(self).cursor_spec() == old(self).last_line_spec(),
        ensures
            final(self).max_lines == old(self).max_lines,
            final(self).cursor_line == old(self).cursor_line,
            ({
                let dropped: nat = if old(self).lines_spec().len() > old(self).max_lines {
                    (old(self).lines_spec().len() - old(self).max_lines) as nat
                } else {
                    0
                };
                &&& final(self).lines_spec() == old(self).lines_spec().skip(dropped as int)
                &&& final(self).first_line_spec() == old(self).first_line_spec() + dropped
                &&& final(self).view_start_spec() == match old(self).view_start_spec() {
                    Some(v) => if v.0 < final(self).first_line_spec() {
                        Some((final(self).first_line_spec(), 0nat))
                    } else {
                        Some(v)
                    },
                    None => None,
                }
            }),
            final(self).wf(),
    {
        let ghost start = self.lines_spec();
        let ghost first0 = self.first_line;
        while self.lines.len() > self.max_lines
            invariant
                self.lines_spec() == start.skip(self.first_line - first0),
                first0 <= self.first_line,
                self.first_line + self.lines_spec().len() == first0 + start.len(),
                self.first_line == first0 || self.lines_spec().len() == self.max_lines,
                first0 + start.len() <= u64::MAX,
                self.max_lines == old(self).max_lines,
                self.cursor_line == old(self).cursor_line,
                self.view_start == old(self).view_start,
                old(self).max_lines >= 1,
                first0 == old(self).first_line,
                start == old(self).lines_spec(),
                start.len() <= old(self).max_lines + 1,
            decreases self.lines@.len(),
        {
            let ghost before_spec = self.lines_spec();
            self.lines.remove(0);
            assert(self.lines_spec() =~= before_spec.skip(1));
            self.first_line = self.first_line + 1;
            assert(start.skip(self.first_line - first0) =~= before_spec.skip(1));
        }

        match self.view_start {
            Some(view_start) => {
                if view_start.line < self.first_line {
                    self.view_start = Some(ViewPosition { line: self.first_line, wrapped_row: 0 });
                }
            }
            None => {}
        }
    }

    /// Position of absolute line `absolute_line` among the kept lines.
    fn line_index(&self, absolute_line: u64) -> (index: usize)
        requires
            self.wf(),
            self.first_line_spec() <= absolute_line <= self.last_line_spec(),
        ensures
            index == absolute_line - self.first_line_spec(),
            index < self.lines_spec().len(),
    {
        (absolute_line - self.first_line) as usize
    }

    /// Absolute number of the newest kept line.
    fn last_line(&self) -> (n: u64)
        requires
            self.wf(),
        ensures
            n == self.last_line_spec(),
    {
        self.first_line + self.lines.len() as u64 - 1
    }
}


/// Wraps one logical line greedily at `width` columns.
pub fn wrap_line_exec(line: &str, width: usize) -> (rows: Vec<String>)
    ensures
        rows@.map_values(|s: String| s@) == wrap_line(line@, width as nat),
{
    let mut rows: Vec<String> = Vec::new();
    let mut current_text = String::new();
    let mut current_width: usize = 0;
    let ghost w = width as nat;
    for character in it: line.chars()
        invariant
            it.seq() == line@,
            w == width,
            ({
                let st = wrap_prefix(line@, it.index() as nat, w);
                &&& st.rows == rows@.map_values(|s: String| s@)
                &&& st.current == current_text@
                &&& st.width == current_width
            }),
            current_width <= width || current_width <= 255,
    {
        let ghost before = rows@.map_values(|s: String| s@);
        let character_width: usize = char_display_width(character);
        if current_width > 0 && (current_width > width || character_width > width - current_width) {
            rows.push(current_text);
            assert(rows@.map_values(|s: String| s@) =~= before.push(wrap_prefix(line@, it.index() as nat, w).current));
            current_text = String::new();
            current_width = 0;
        }
        string_push(&mut current_text, character);
        current_width = current_width + character_width;
        proof {
            if !(wrap_prefix(line@, it.index() as nat, w).width > 0 && wrap_prefix(line@, it.index() as nat, w).width + display_width(character) > w) {
                assert(rows@.map_values(|s: String| s@) == before);
            } else {
                assert(current_text@ =~= seq![character]);
            }
        }
    }
    let ghost before = rows@.map_values(|s: String| s@);
    rows.push(current_text);
    assert(rows@.map_values(|s: String| s@) =~= before.push(current_text@));
    rows
}

impl CoverTerminal {
    /// All visual rows at `width` (0 taken as 1).
    fn layout_rows(&self, width: usize) -> (rows: Vec<VisualRow>)
        requires
            self.wf(),
        ensures
            rows_spec(rows@) == self.rows_at(width as nat),
    {
        let width: usize = if width >= 1 { width } else { 1 };
        let mut rows: Vec<VisualRow> = Vec::new();
        let ghost lines = self.lines_spec();
        let ghost first = self.first_line_spec();
        for line_index in 0..self.lines.len()
            invariant
                self.wf(),
                lines == self.lines_spec(),
                first == self.first_line_spec(),
                width >= 1,
                rows_spec(rows@) == rows_prefix(lines, first, line_index as nat, width as nat),
        {
            let absolute_line: u64 = self.first_line + line_index as u64;
            let wrapped: Vec<String> = wrap_line_exec(self.lines[line_index].as_str(), width);
            let ghost wrapped_spec = wrapped@.map_values(|s: String| s@);
            assert(wrapped_spec == wrap_line(lines[line_index as int], width as nat));
            let ghost base = rows_spec(rows@);
            let ghost target = line_rows(lines[line_index as int], absolute_line as nat, width as nat);
            let mut j: usize = 0;
            while j < wrapped.len()
                invariant
                    0 <= j <= wrapped@.len(),
                    wrapped_spec == wrapped@.map_values(|s: String| s@),
                    target == wrapped_spec.map(|k: int, t: Seq<char>| RowSpec { line: absolute_line as nat, wrapped_row: k as nat, text: t }),
                    rows_spec(rows@) == base + target.take(j as int),
                decreases wrapped@.len() - j,
            {
                let ghost prev = rows_spec(rows@);
                rows.push(VisualRow {
                    position: ViewPosition { line: absolute_line, wrapped_row: j },
                    text: wrapped[j].clone(),
                });
                assert(rows_spec(rows@) =~= prev.push(target[j as int]));
                assert(target.take(j + 1) =~= target.take(j as int).push(target[j as int]));
                j = j + 1;
            }
            assert(target.take(j as int) =~= target);
            assert(rows_prefix(lines, first, (line_index + 1) as nat, width as nat)
                == rows_prefix(lines, first, line_index as nat, width as nat) + target);
        }
        assert(self.rows_at(width as nat) == rows_prefix(lines, first, lines.len(), width as nat));
        rows
    }
}


/// `first_row_of` finds the first row of a line, or reports that there is none.
pub proof fn lemma_first_row_of(rows: Seq<RowSpec>, line: nat)
    ensures
        first_row_of(rows, line) < 0 <==> (forall|k: int| 0 <= k < rows.len() ==> (#[trigger] rows[k]).line != line),
        first_row_of(rows, line) >= 0 ==> {
            let f = first_row_of(rows, line);
            &&& f < rows.len()
            &&& rows[f].line == line
            &&& forall|k: int| 0 <= k < f ==> (#[trigger] rows[k]).line != line
        },
        first_row_of(rows, line) >= -1,
    decreases rows.len(),
{
    if rows.len() > 0 && rows[0].line != line {
        let t = rows.drop_first();
        lemma_first_row_of(t, line);
        assert forall|k: int| 0 < k < rows.len() implies rows[k] == t[k - 1] by {}
        if first_row_of(t, line) >= 0 {
            assert(rows[first_row_of(rows, line)] == t[first_row_of(t, line)]);
            assert forall|k: int| 0 <= k < first_row_of(rows, line) implies (#[trigger] rows[k]).line != line by {
                if k > 0 {
                    assert(rows[k] == t[k - 1]);
                }
            }
        } else {
            assert forall|k: int| 0 <= k < rows.len() implies (#[trigger] rows[k]).line != line by {
                if k > 0 {
                    assert(rows[k] == t[k - 1]);
                }
            }
        }
    }
}

/// `run_len` counts the leading rows of a line.
pub proof fn lemma_run_len(rows: Seq<RowSpec>, line: nat)
    ensures
        run_len(rows, line) <= rows.len(),
        forall|k: int| 0 <= k < run_len(rows, line) ==> (#[trigger] rows[k]).line == line,
        run_len(rows, line) < rows.len() ==> rows[run_len(rows, line) as int].line != line,
    decreases rows.len(),
{
    if rows.len() > 0 && rows[0].line == line {
        let t = rows.drop_first();
        lemma_run_len(t, line);
        assert forall|k: int| 0 <= k < run_len(rows, line) implies (#[trigger] rows[k]).line == line by {
            if k > 0 {
                assert(rows[k] == t[k - 1]);
            }
        }
        if run_len(rows, line) < rows.len() {
            assert(rows[run_len(rows, line) as int] == t[run_len(t, line) as int]);
        }
    }
}

/// Two counts that both satisfy `run_len`'s characterization agree.
proof fn lemma_run_len_unique(rows: Seq<RowSpec>, line: nat, r: nat)
    requires
        r <= rows.len(),
        forall|k: int| 0 <= k < r ==> (#[trigger] rows[k]).line == line,
        r < rows.len() ==> rows[r as int].line != line,
    ensures
        run_len(rows, line) == r,
{
    lemma_run_len(rows, line);
    let q = run_len(rows, line);
    if q < r {
        assert(rows[q as int].line == line);
    } else if r < q {
        assert(rows[r as int].line == line);
    }
}

impl CoverTerminal {
    /// Index of the first row shown in a window `height` rows high.
    fn view_start_index(&self, rows: &Vec<VisualRow>, height: usize) -> (start: usize)
        ensures
            start == view_start_index_spec(rows_spec(rows@), self.view_start_spec(), height as nat),
    {
        let ghost rs = rows_spec(rows@);
        let bottom: usize = if rows.len() >= height { rows.len() - height } else { 0 };
        let view_start = match self.view_start {
            Some(v) => v,
            None => {
                return bottom;
            }
        };
        let mut first_row: usize = 0;
        while first_row < rows.len() && rows[first_row].position.line != view_start.line
            invariant
                first_row <= rows@.len(),
                rs == rows_spec(rows@),
                forall|k: int| 0 <= k < first_row ==> (#[trigger] rs[k]).line != view_start.line,
            decreases rows@.len() - first_row,
        {
            assert(rs[first_row as int].line == rows@[first_row as int].position.line);
            first_row = first_row + 1;
        }
        proof {
            lemma_first_row_of(rs, view_start.line as nat);
        }
        if first_row == rows.len() {
            return bottom;
        }
        assert(rs[first_row as int].line == view_start.line);
        assert(first_row_of(rs, view_start.line as nat) == first_row) by {
            let f = first_row_of(rs, view_start.line as nat);
            if f < first_row {
                assert(rs[f].line != view_start.line);
            }
        }
        let mut end_row: usize = first_row;
        while end_row < rows.len() && rows[end_row].position.line == view_start.line
            invariant
                first_row <= end_row <= rows@.len(),
                rs == rows_spec(rows@),
                forall|k: int| first_row <= k < end_row ==> (#[trigger] rs[k]).line == view_start.line,
            decreases rows@.len() - end_row,
        {
            assert(rs[end_row as int].line == rows@[end_row as int].position.line);
            end_row = end_row + 1;
        }
        let row_count: usize = end_row - first_row;
        proof {
            let tail = rs.skip(first_row as int);
            assert forall|k: int| 0 <= k < row_count implies (#[trigger] tail[k]).line == view_start.line by {
                assert(tail[k] == rs[first_row + k]);
            }
            if row_count < tail.len() {
                assert(tail[row_count as int] == rs[end_row as int]);
                assert(rs[end_row as int].line == rows@[end_row as int].position.line);
            }
            lemma_run_len_unique(tail, view_start.line as nat, row_count as nat);
        }
        let last_wrapped: usize = if row_count >= 1 { row_count - 1 } else { 0 };
        let wrapped_row: usize = if view_start.wrapped_row < last_wrapped { view_start.wrapped_row } else { last_wrapped };
        if first_row + wrapped_row < bottom { first_row + wrapped_row } else { bottom }
    }

    /// The texts of the rows shown in a `width` x `height` window.
    pub fn visible_rows(&self, width: usize, height: usize) -> (shown: Vec<String>)
        requires
            self.wf(),
        ensures
            ({
                let rs = self.rows_at(width as nat);
                let start = view_start_index_spec(rs, self.view_start_spec(), height as nat);
                &&& start <= rs.len()
                &&& shown@.len() == if rs.len() - start <= height { (rs.len() - start) as nat } else { height as nat }
                &&& forall|k: int| 0 <= k < shown@.len() ==> (#[trigger] shown@[k])@ == rs[start + k].text
            }),
    {
        let rows = self.layout_rows(width);
        let start_index: usize = self.view_start_index(&rows, height);
        let ghost rs = rows_spec(rows@);
        proof {
            self.lemma_view_start_in_range(rs, height as nat);
        }
        let mut shown: Vec<String> = Vec::new();
        let mut i: usize = start_index;
        while i < rows.len() && i - start_index < height
            invariant
                start_index <= i <= rows@.len(),
                rs == rows_spec(rows@),
                shown@.len() == i - start_index,
                i - start_index <= height,
                forall|k: int| 0 <= k < shown@.len() ==> (#[trigger] shown@[k])@ == rs[start_index + k].text,
            decreases rows@.len() - i,
        {
            shown.push(rows[i].text.clone());
            i = i + 1;
        }
        assert(rs.len() == rows@.len());
        assert(rs == self.rows_at(width as nat));
        assert(start_index <= rs.len());
        assert(shown@.len() == if rs.len() - start_index <= height { (rs.len() - start_index) as nat } else { height as nat });
        shown
    }

    /// The first shown row never lies past the rows there are.
    proof fn lemma_view_start_in_range(&self, rs: Seq<RowSpec>, height: nat)
        ensures
            view_start_index_spec(rs, self.view_start_spec(), height) <= bottom_start(rs.len(), height),
            bottom_start(rs.len(), height) <= rs.len(),
    {
    }

    /// Scrolls the view up by `amount` rows of a `width` x `height` window; the
    /// view is then anchored at the row it starts at.
    pub fn scroll_up(&mut self, amount: usize, width: usize, height: usize)
        requires
            old(self).wf(),
        ensures
            final(self).wf(),
            final(self).lines_spec() == old(self).lines_spec(),
            final(self).first_line_spec() == old(self).first_line_spec(),
            final(self).cursor_spec() == old(self).cursor_spec(),
            final(self).max_lines_spec() == old(self).max_lines_spec(),
            final(self).state() == scroll_up_spec(old(self).state(), amount as nat, width as nat, height as nat),
            ({
                let rs = old(self).rows_at(width as nat);
                let cur = view_start_index_spec(rs, old(self).view_start_spec(), height as nat);
                let next: int = if cur >= amount { cur - amount } else { 0 };
                final(self).view_start_spec() == if width == 0 || height == 0 || next >= cur {
                    old(self).view_start_spec()
                } else {
                    anchor_at(rs, next)
                }
            }),
    {
        if width == 0 || height == 0 {
            return;
        }
        let rows = self.layout_rows(width);
        let current_start: usize = self.view_start_index(&rows, height);
        proof {
            self.lemma_view_start_in_range(rows_spec(rows@), height as nat);
        }
        let next_start: usize = if current_start >= amount { current_start - amount } else { 0 };
        if next_start < current_start {
            self.view_start = Some(rows[next_start].position);
        }
    }

    /// Scrolls the view down by `amount` rows; reaching the bottom returns to
    /// following the output.
    pub fn scroll_down(&mut self, amount: usize, width: usize, height: usize)
        requires
            old(self).wf(),
        ensures
            final(self).wf(),
            final(self).lines_spec() == old(self).lines_spec(),
            final(self).first_line_spec() == old(self).first_line_spec(),
            final(self).cursor_spec() == old(self).cursor_spec(),
            final(self).max_lines_spec() == old(self).max_lines_spec(),
            final(self).state() == scroll_down_spec(old(self).state(), amount as nat, width as nat, height as nat),
            ({
                let rs = old(self).rows_at(width as nat);
                let bottom = bottom_start(rs.len(), height as nat);
                let cur = view_start_index_spec(rs, old(self).view_start_spec(), height as nat);
                let next: int = if cur + amount < bottom { (cur + amount) as int } else { bottom as int };
                final(self).view_start_spec() == if width == 0 || height == 0 {
                    old(self).view_start_spec()
                } else if next == bottom {
                    None
                } else {
                    anchor_at(rs, next)
                }
            }),
    {
        if width == 0 || height == 0 {
            return;
        }
        let rows = self.layout_rows(width);
        let bottom: usize = if rows.len() >= height { rows.len() - height } else { 0 };
        let current_start: usize = self.view_start_index(&rows, height);
        proof {
            self.lemma_view_start_in_range(rows_spec(rows@), height as nat);
        }
        let next_start: usize = if amount < bottom - current_start { current_start + amount } else { bottom };
        self.view_start = if next_start == bottom { None } else { Some(rows[next_start].position) };
    }

    /// Returns to following the output.
    pub fn scroll_to_bottom(&mut self)
        requires
            old(self).wf(),
        ensures
            final(self).wf(),
            final(self).lines_spec() == old(self).lines_spec(),
            final(self).first_line_spec() == old(self).first_line_spec(),
            final(self).cursor_spec() == old(self).cursor_spec(),
            final(self).max_lines_spec() == old(self).max_lines_spec(),
            final(self).view_start_spec() is None,
            final(self).state() == (TermState { view: None, ..old(self).state() }),
    {
        self.view_start = None;
    }
}

} // verus!

verus! {

proof fn lemma_wrap_prefix_text(line: Seq<char>, n: nat, w: nat)
    requires
        n <= line.len(),
    ensures
        wrap_prefix(line, n, w).rows.flatten() + wrap_prefix(line, n, w).current == line.take(n as int),
    decreases n,
{
    if n == 0 {
        assert(Seq::<Seq<char>>::empty().flatten() =~= Seq::<char>::empty());
        assert(line.take(0) =~= Seq::<char>::empty());
    } else {
        let prev = wrap_prefix(line, (n - 1) as nat, w);
        lemma_wrap_prefix_text(line, (n - 1) as nat, w);
        let ch = line[n - 1];
        assert(line.take(n as int) =~= line.take(n - 1).push(ch));
        if prev.width > 0 && prev.width + display_width(ch) > w {
            prev.rows.lemma_flatten_push(prev.current);
            assert(prev.rows.push(prev.current).flatten() + seq![ch] =~= line.take(n as int));
        } else {
            assert(prev.rows.flatten() + prev.current.push(ch) =~= line.take(n as int));
        }
    }
}

/// Law: wrapping a logical line into rows neither loses nor adds a character:
/// the rows, joined, are the line, whatever the width.
pub proof fn lemma_wrap_line_keeps_text(line: Seq<char>, w: nat)
    ensures
        wrap_line(line, w).flatten() == line,
{
    let st = wrap_prefix(line, line.len(), w);
    lemma_wrap_prefix_text(line, line.len(), w);
    st.rows.lemma_flatten_push(st.current);
    assert(line.take(line.len() as int) =~= line);
}

/// A terminal state that keeps between one and `max_lines` lines, the cursor
/// on one of them.
pub open spec fn term_state_ok(st: TermState) -> bool {
    &&& 1 <= st.lines.len() <= st.max_lines
    &&& st.first <= st.cursor < st.first + st.lines.len()
}

/// Law: every terminal operation keeps the history between one and
/// `max_lines` lines with the cursor on a kept line, and keeps the capacity.
pub proof fn lemma_ops_keep_history_bounded(st: TermState, op: CoverOp)
    requires
        term_state_ok(st),
    ensures
        term_state_ok(apply_spec(st, op)),
        apply_spec(st, op).max_lines == st.max_lines,
{
}

/// Rows laid out line by line: their lines lie in `[first, first + n)` in
/// order, each line's rows are numbered 0, 1, ... and a row numbered 0 starts a
/// new line.
pub open spec fn rows_grouped(rs: Seq<RowSpec>, first: nat, n: nat) -> bool {
    &&& forall|i: int| 0 <= i < rs.len() ==> first <= (#[trigger] rs[i]).line < first + n
    &&& forall|i: int, k: int| 0 <= i < k < rs.len() ==> (#[trigger] rs[i]).line <= (#[trigger] rs[k]).line
    &&& forall|i: int|
        0 <= i < rs.len() ==> (#[trigger] rs[i]).wrapped_row == 0 || (i > 0 && rs[i - 1].line == rs[i].line
            && rs[i - 1].wrapped_row + 1 == rs[i].wrapped_row)
    &&& forall|i: int| 0 < i < rs.len() && (#[trigger] rs[i]).wrapped_row == 0 ==> rs[i - 1].line < rs[i].line
}

proof fn lemma_wrap_line_nonempty(line: Seq<char>, w: nat)
    ensures
        wrap_line(line, w).len() >= 1,
{
}

proof fn lemma_rows_prefix_grouped(lines: Seq<Seq<char>>, first: nat, n: nat, w: nat)
    requires
        n <= lines.len(),
    ensures
        rows_grouped(rows_prefix(lines, first, n, w), first, n),
    decreases n,
{
    if n > 0 {
        lemma_rows_prefix_grouped(lines, first, (n - 1) as nat, w);
        let prev = rows_prefix(lines, first, (n - 1) as nat, w);
        let abs = first + (n - 1) as nat;
        let lr = line_rows(lines[n - 1], abs, w);
        let rs = rows_prefix(lines, first, n, w);
        let p = prev.len() as int;
        assert(rs == prev + lr);
        lemma_wrap_line_nonempty(lines[n - 1], w);
        assert forall|i: int| p <= i < rs.len() implies (#[trigger] rs[i]).line == abs && rs[i].wrapped_row == i - p by {
            assert(rs[i] == lr[i - p]);
        }
        assert forall|i: int| 0 <= i < p implies (#[trigger] rs[i]) == prev[i] by {}
        assert forall|i: int| 0 <= i < rs.len() implies first <= (#[trigger] rs[i]).line < first + n by {
            if i < p {
                assert(rs[i] == prev[i]);
            } else {
                assert(rs[i].line == abs);
            }
        }
        assert forall|i: int, k: int| 0 <= i < k < rs.len() implies (#[trigger] rs[i]).line <= (#[trigger] rs[k]).line by {
            if k < p {
                assert(rs[i] == prev[i] && rs[k] == prev[k]);
            } else if i < p {
                assert(rs[i] == prev[i]);
                assert(rs[k].line == abs);
            } else {
                assert(rs[i].line == abs && rs[k].line == abs);
            }
        }
        assert forall|i: int|
            0 <= i < rs.len() implies (#[trigger] rs[i]).wrapped_row == 0 || (i > 0 && rs[i - 1].line == rs[i].line
                && rs[i - 1].wrapped_row + 1 == rs[i].wrapped_row) by {
            if i < p {
                assert(rs[i] == prev[i]);
                if i > 0 {
                    assert(rs[i - 1] == prev[i - 1]);
                }
            } else if i > p {
                assert(rs[i].line == abs && rs[i].wrapped_row == i - p);
                assert(rs[i - 1].line == abs && rs[i - 1].wrapped_row == i - 1 - p);
            } else {
                assert(rs[i].wrapped_row == 0);
            }
        }
        assert forall|i: int| 0 < i < rs.len() && (#[trigger] rs[i]).wrapped_row == 0 implies rs[i - 1].line < rs[i].line by {
            if i < p {
                assert(rs[i] == prev[i] && rs[i - 1] == prev[i - 1]);
            } else if i > p {
                assert(rs[i].wrapped_row == i - p);
            } else {
                assert(rs[i - 1] == prev[i - 1]);
                assert(rs[i].line == abs);
            }
        }
    }
}

/// In grouped rows, the row at `i` lies `wrapped_row` rows after the first row
/// of its line, and its line runs at least to it.
proof fn lemma_grouped_row(rs: Seq<RowSpec>, first: nat, n: nat, i: int)
    requires
        rows_grouped(rs, first, n),
        0 <= i < rs.len(),
    ensures
        rs[i].wrapped_row <= i,
        first_row_of(rs, rs[i].line) == i - rs[i].wrapped_row,
        run_len(rs.skip(i - rs[i].wrapped_row), rs[i].line) > rs[i].wrapped_row,
    decreases rs[i].wrapped_row,
{
    let line = rs[i].line;
    let j = rs[i].wrapped_row;
    if j == 0 {
        lemma_first_row_of(rs, line);
        assert forall|k: int| 0 <= k < i implies (#[trigger] rs[k]).line != line by {
            assert(rs[i - 1].line < rs[i].line);
            if k < i - 1 {
                assert(rs[k].line <= rs[i - 1].line);
            }
        }
        let f = first_row_of(rs, line);
        if f >= 0 && f < i {
            assert(rs[f].line != line);
        }
        assert(rs[i].line == line);
        assert(f == i);
        lemma_run_len(rs.skip(i), line);
        assert(rs.skip(i)[0] == rs[i]);
    } else {
        assert(i > 0 && rs[i - 1].line == line && rs[i - 1].wrapped_row + 1 == j);
        lemma_grouped_row(rs, first, n, i - 1);
        let f = i - j;
        assert(first_row_of(rs, line) == f);
        let sk = rs.skip(f);
        lemma_run_len(sk, line);
        if run_len(sk, line) <= j {
            let r = run_len(sk, line) as int;
            assert(run_len(sk, line) > j - 1);
            assert(r == j);
            assert(sk[r] == rs[i]);
        }
    }
}

/// The first row shown under a view anchored at row `i` is row `i`, or the
/// bottom start where that comes first.
proof fn lemma_anchor_start(lines: Seq<Seq<char>>, first: nat, width: nat, i: int, height: nat)
    requires
        width >= 1,
        0 <= i < layout_rows_spec(lines, first, width).len(),
    ensures
        ({
            let rs = layout_rows_spec(lines, first, width);
            let bottom = bottom_start(rs.len(), height);
            view_start_index_spec(rs, anchor_at(rs, i), height) == if i < bottom { i as nat } else { bottom }
        }),
{
    let rs = layout_rows_spec(lines, first, width);
    lemma_rows_prefix_grouped(lines, first, lines.len(), width);
    lemma_grouped_row(rs, first, lines.len(), i);
}

/// Law: from a view that follows the output, scrolling up by some rows and then
/// down by as many comes back to following the output: the terminal, and so what
/// it shows, is as it was.
pub proof fn lemma_scroll_up_then_down(st: TermState, amount: nat, width: nat, height: nat)
    requires
        st.view is None,
    ensures
        scroll_down_spec(scroll_up_spec(st, amount, width, height), amount, width, height) == st,
{
    let up = scroll_up_spec(st, amount, width, height);
    if width > 0 && height > 0 {
        let rs = layout_rows_spec(st.lines, st.first, width);
        let bottom = bottom_start(rs.len(), height);
        let cur = view_start_index_spec(rs, st.view, height);
        assert(cur == bottom);
        let next: int = if cur >= amount { cur - amount } else { 0 };
        if next < cur {
            assert(bottom <= rs.len());
            lemma_anchor_start(st.lines, st.first, width, next, height);
            assert(view_start_index_spec(rs, up.view, height) == next);
        }
    }
}

/// Law: any sequence of operations keeps the history between one and
/// `max_lines` lines with the cursor on a kept line, and drops lines only at the
/// oldest end: neither the number of the oldest kept line nor that of the newest
/// ever goes down.
pub proof fn lemma_ops_keep_newest_lines(st: TermState, ops: Seq<CoverOp>)
    requires
        term_state_ok(st),
    ensures
        ({
            let after = apply_all_spec(st, ops);
            &&& term_state_ok(after)
            &&& after.max_lines == st.max_lines
            &&& after.first >= st.first
            &&& after.first + after.lines.len() >= st.first + st.lines.len()
        }),
    decreases ops.len(),
{
    if ops.len() > 0 {
        lemma_ops_keep_newest_lines(st, ops.drop_last());
        let mid = apply_all_spec(st, ops.drop_last());
        lemma_ops_keep_history_bounded(mid, ops.last());
    }
}

/// Law: a terminal made with `new(max_lines)` keeps at most `max(max_lines, 1)`
/// lines whatever operations it is given.
pub proof fn lemma_new_terminal_history_bound(max_lines: nat, ops: Seq<CoverOp>)
    ensures
        ({
            let cap: nat = if max_lines >= 1 { max_lines } else { 1 };
            let start = TermState {
                lines: seq![Seq::<char>::empty()],
                first: 0,
                cursor: 0,
                max_lines: cap,
                view: None,
            };
            1 <= apply_all_spec(start, ops).lines.len() <= cap
        }),
{
    let cap: nat = if max_lines >= 1 { max_lines } else { 1 };
    let start = TermState { lines: seq![Seq::<char>::empty()], first: 0, cursor: 0, max_lines: cap, view: None };
    lemma_ops_keep_newest_lines(start, ops);
}

/// Columns a line takes when not wrapped.
pub open spec fn line_width(line: Seq<char>) -> nat
    decreases line.len(),
{
    if line.len() == 0 {
        0
    } else {
        line_width(line.drop_last()) + display_width(line.last())
    }
}

proof fn lemma_fitting_prefix_unwrapped(line: Seq<char>, n: nat, w: nat)
    requires
        n <= line.len(),
        line_width(line.take(n as int)) <= w,
    ensures
        wrap_prefix(line, n, w).rows.len() == 0,
        wrap_prefix(line, n, w).width == line_width(line.take(n as int)),
    decreases n,
{
    if n > 0 {
        assert(line.take(n as int).drop_last() =~= line.take(n - 1));
        assert(line.take(n as int).last() == line[n - 1]);
        lemma_fitting_prefix_unwrapped(line, (n - 1) as nat, w);
    } else {
        assert(line.take(0) =~= Seq::<char>::empty());
    }
}

proof fn lemma_fitting_rows(lines: Seq<Seq<char>>, first: nat, n: nat, w: nat)
    requires
        n <= lines.len(),
        forall|k: int| 0 <= k < lines.len() ==> line_width(#[trigger] lines[k]) <= w,
    ensures
        rows_prefix(lines, first, n, w).len() == n,
    decreases n,
{
    if n > 0 {
        lemma_fitting_rows(lines, first, (n - 1) as nat, w);
        let line = lines[n - 1];
        assert(line.take(line.len() as int) =~= line);
        lemma_fitting_prefix_unwrapped(line, line.len(), w);
    }
}

/// The state `CoverTerminal::new(max_lines)` makes.
pub open spec fn new_terminal_state(max_lines: nat) -> TermState {
    TermState {
        lines: seq![Seq::<char>::empty()],
        first: 0,
        cursor: 0,
        max_lines: if max_lines >= 1 { max_lines } else { 1 },
        view: None,
    }
}

/// Law: a terminal made with `new(max_lines)` lays out, after any operations,
/// at most `max(max_lines, 1)` rows at any width its kept lines fit in (each kept
/// line is then one row), so it never shows more rows than that; a line wider
/// than the width wraps into more rows and is left out here.
pub proof fn lemma_new_terminal_rows_bound(max_lines: nat, ops: Seq<CoverOp>, width: nat)
    requires
        width >= 1,
        forall|k: int|
            0 <= k < apply_all_spec(new_terminal_state(max_lines), ops).lines.len() ==> line_width(
                #[trigger] apply_all_spec(new_terminal_state(max_lines), ops).lines[k],
            ) <= width,
    ensures
        ({
            let after = apply_all_spec(new_terminal_state(max_lines), ops);
            &&& layout_rows_spec(after.lines, after.first, width).len() == after.lines.len()
            &&& after.lines.len() <= if max_lines >= 1 { max_lines } else { 1 }
        }),
{
    let start = new_terminal_state(max_lines);
    let after = apply_all_spec(start, ops);
    lemma_ops_keep_newest_lines(start, ops);
    lemma_fitting_rows(after.lines, after.first, after.lines.len(), width);
}

} // verus!
