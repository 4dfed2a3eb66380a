//! Page index: where each page starts for a given terminal size.
use vstd::prelude::*;
use vstd::utf8::*;
use crate::page_layout::{layout_page, page_end_offset, lemma_page_end_bounds};
use crate::text_source::{TextSource, text_after, window_after};
use crate::utf8_text::utf8_len;

verus! {

/// Bytes read ahead when laying out one page.
pub const PAGE_READ_SIZE: usize = 65536;

/// Offset at which the page starting at `offset` ends.
pub open spec fn next_page_offset(bytes: Seq<u8>, offset: nat, columns: nat, rows: nat) -> nat {
    page_end_offset(text_after(bytes, offset as int, PAGE_READ_SIZE as int), offset, columns, rows)
}

/// Page starts from `offset` on: a page starts at every offset the previous page
/// ended at, until the end of the text or until a page makes no progress.
pub open spec fn page_starts_from(bytes: Seq<u8>, offset: nat, columns: nat, rows: nat) -> Seq<nat>
    decreases bytes.len() - offset,
{
    if offset >= bytes.len() {
        Seq::empty()
    } else {
        let next = next_page_offset(bytes, offset, columns, rows);
        if next <= offset || next >= bytes.len() {
            seq![offset]
        } else {
            seq![offset] + page_starts_from(bytes, next, columns, rows)
        }
    }
}

/// Number of leading page starts that do not lie after `offset`.
pub open spec fn leading_starts_at_or_before(starts: Seq<u64>, offset: u64) -> nat
    decreases starts.len(),
{
    if starts.len() == 0 || starts[0] > offset {
        0
    } else {
        1 + leading_starts_at_or_before(starts.drop_first(), offset)
    }
}

/// Page starts are strictly increasing and lie inside the text.
/// Page that `offset` falls on: the last of the leading pages whose start is not
/// after `offset`, or page 0 when there is none.
pub open spec fn page_for_offset(starts: Seq<u64>, offset: u64) -> nat {
    let n = leading_starts_at_or_before(starts, offset);
    if n == 0 {
        0
    } else {
        (n - 1) as nat
    }
}

pub open spec fn well_ordered_starts(starts: Seq<nat>, len: nat) -> bool {
    &&& forall|i: int, j: int| 0 <= i < j < starts.len() ==> starts[i] < starts[j]
    &&& forall|i: int| 0 <= i < starts.len() ==> starts[i] < len
}

pub struct PageIndex {
    pub columns: u16,
    pub rows: u16,
    pub page_starts: Vec<u64>,
}

impl PageIndex {
    /// Page starts as natural numbers.
    pub open spec fn starts(&self) -> Seq<nat> {
        self.page_starts@.map_values(|s: u64| s as nat)
    }

    /// Scans the text from its start and records where each page begins for a
    /// page of `rows` rows of `columns` columns.
    pub fn build(text_source: &TextSource, columns: u16, rows: u16) -> (index: PageIndex)
        requires
            text_source.wf(),
        ensures
            index.columns == columns,
            index.rows == rows,
            index.starts() == page_starts_from(text_source.bytes(), 0, columns as nat, rows as nat),
    {
        let mut page_starts: Vec<u64> = Vec::new();
        let mut current_offset: u64 = 0;
        let file_len: u64 = text_source.file_len();
        let read_size: usize = PAGE_READ_SIZE;
        let ghost bytes = text_source.bytes();
        let ghost cols = columns as nat;
        let ghost rws = rows as nat;

        while current_offset < file_len
            invariant_except_break
                text_source.wf(),
                file_len == bytes.len(),
                bytes == text_source.bytes(),
                read_size == PAGE_READ_SIZE,
                cols == columns as nat,
                rws == rows as nat,
                current_offset < file_len ==> page_starts@.map_values(|s: u64| s as nat)
                    + page_starts_from(bytes, current_offset as nat, cols, rws)
                    == page_starts_from(bytes, 0, cols, rws),
                current_offset >= file_len ==> page_starts@.map_values(|s: u64| s as nat)
                    == page_starts_from(bytes, 0, cols, rws),
            ensures
                page_starts@.map_values(|s: u64| s as nat) == page_starts_from(bytes, 0, cols, rws),
            decreases file_len - current_offset,
        {
            let ghost before = page_starts@.map_values(|s: u64| s as nat);
            page_starts.push(current_offset);
            assert(page_starts@.map_values(|s: u64| s as nat) =~= before.push(current_offset as nat));

            let candidate = text_source.read_from_offset(current_offset, read_size);
            proof {
                let w = window_after(bytes, current_offset as int, read_size as int);
                assert(w.len() <= file_len - current_offset);
            }
            let page = layout_page(candidate.as_str(), current_offset, columns, rows);
            let ghost next = next_page_offset(bytes, current_offset as nat, cols, rws);
            assert(read_size == PAGE_READ_SIZE);
            assert(candidate@ == text_after(bytes, current_offset as int, PAGE_READ_SIZE as int));
            assert(page.end_offset == next);
            proof {
                lemma_page_end_bounds(candidate@, current_offset as nat, cols, rws);
            }

            if page.end_offset <= current_offset {
                assert(before.push(current_offset as nat) =~= before + seq![current_offset as nat]);
                break;
            }
            proof {
                assert(before + page_starts_from(bytes, current_offset as nat, cols, rws)
                    == page_starts_from(bytes, 0, cols, rws));
                if next >= file_len {
                    assert(before.push(current_offset as nat) =~= before + seq![current_offset as nat]);
                } else {
                    assert(before + (seq![current_offset as nat] + page_starts_from(bytes, next, cols, rws))
                        =~= before.push(current_offset as nat) + page_starts_from(bytes, next, cols, rws));
                }
            }
            current_offset = page.end_offset;
        }

        PageIndex { columns, rows, page_starts }
    }

    /// Number of pages.
    pub fn page_count(&self) -> (n: usize)
        ensures
            n == self.page_starts@.len(),
    {
        self.page_starts.len()
    }

    /// Page that a saved offset falls on: the last of the leading pages whose
    /// start is not after `offset`, or page 0 when there is none.
    pub fn find_page_by_offset(&self, offset: u64) -> (page: usize)
        ensures
            page == page_for_offset(self.page_starts@, offset),
    {
        let mut page_index: usize = 0;
        let mut index: usize = 0;
        let ghost starts = self.page_starts@;
        assert(starts.skip(0) =~= starts);
        while index < self.page_starts.len()
            invariant_except_break
                starts == self.page_starts@,
                index <= starts.len(),
                leading_starts_at_or_before(starts, offset) == index
                    + leading_starts_at_or_before(starts.skip(index as int), offset),
                page_index == if index == 0 { 0 } else { (index - 1) as nat },
            ensures
                page_index == if leading_starts_at_or_before(starts, offset) == 0 {
                    0
                } else {
                    (leading_starts_at_or_before(starts, offset) - 1) as nat
                },
            decreases starts.len() - index,
        {
            assert(starts.skip(index as int)[0] == starts[index as int]);
            if self.page_starts[index] <= offset {
                page_index = index;
                assert(starts.skip(index as int).drop_first() =~= starts.skip(index + 1));
                index = index + 1;
            } else {
                break;
            }
        }
        proof {
            if index == starts.len() {
                assert(starts.skip(index as int).len() == 0);
            }
        }
        page_index
    }

    /// Start offset of page `page_index`, or `None` past the last page.
    pub fn page_start(&self, page_index: usize) -> (start: Option<u64>)
        ensures
            start == if page_index < self.page_starts@.len() {
                Some(self.page_starts@[page_index as int])
            } else {
                None::<u64>
            },
    {
        if page_index < self.page_starts.len() {
            Some(self.page_starts[page_index])
        } else {
            None
        }
    }
}

} // verus!

verus! {

/// Law: the page starts of a text begin at the given offset, strictly increase,
/// and all lie inside the text.
pub proof fn lemma_page_starts_ordered(bytes: Seq<u8>, offset: nat, columns: nat, rows: nat)
    ensures
        well_ordered_starts(page_starts_from(bytes, offset, columns, rows), bytes.len()),
        page_starts_from(bytes, offset, columns, rows).len() > 0 ==> page_starts_from(
            bytes,
            offset,
            columns,
            rows,
        )[0] == offset,
        forall|i: int|
            0 <= i < page_starts_from(bytes, offset, columns, rows).len() ==> offset <= #[trigger] page_starts_from(
                bytes,
                offset,
                columns,
                rows,
            )[i],
        offset < bytes.len() ==> page_starts_from(bytes, offset, columns, rows).len() > 0,
    decreases bytes.len() - offset,
{
    if offset < bytes.len() {
        let next = next_page_offset(bytes, offset, columns, rows);
        if !(next <= offset || next >= bytes.len()) {
            lemma_page_starts_ordered(bytes, next, columns, rows);
            let rest = page_starts_from(bytes, next, columns, rows);
            let all = page_starts_from(bytes, offset, columns, rows);
            assert(all == seq![offset] + rest);
            assert forall|i: int, j: int| 0 <= i < j < all.len() implies all[i] < all[j] by {
                if i > 0 {
                    assert(all[i] == rest[i - 1]);
                }
                assert(all[j] == rest[j - 1]);
            }
            assert forall|i: int| 0 <= i < all.len() implies offset <= #[trigger] all[i] by {
                if i > 0 {
                    assert(all[i] == rest[i - 1]);
                }
            }
        }
    }
}

/// Law: on increasing page starts, the page found for an offset is the last page
/// whose start is not after it (page 0 when every page starts after it).
pub proof fn lemma_find_page_is_last_start_not_after(starts: Seq<u64>, offset: u64)
    requires
        forall|i: int, j: int| 0 <= i < j < starts.len() ==> starts[i] < starts[j],
    ensures
        ({
            let k = leading_starts_at_or_before(starts, offset);
            &&& k <= starts.len()
            &&& forall|i: int| 0 <= i < k ==> starts[i] <= offset
            &&& forall|i: int| k <= i < starts.len() ==> starts[i] > offset
        }),
    decreases starts.len(),
{
    if starts.len() > 0 && starts[0] <= offset {
        let rest = starts.drop_first();
        lemma_find_page_is_last_start_not_after(rest, offset);
        let k = leading_starts_at_or_before(starts, offset);
        assert forall|i: int| 0 <= i < k implies starts[i] <= offset by {
            if i > 0 {
                assert(starts[i] == rest[i - 1]);
            }
        }
        assert forall|i: int| k <= i < starts.len() implies starts[i] > offset by {
            assert(starts[i] == rest[i - 1]);
        }
    } else if starts.len() > 0 {
        assert forall|i: int| 0 <= i < starts.len() implies starts[i] > offset by {
            if i > 0 {
                assert(starts[0] < starts[i]);
            }
        }
    }
}

} // verus!
