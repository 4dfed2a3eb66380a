//! The annotation cache: per-chunk annotations of a book, loaded on demand.
use std::collections::HashMap;
use std::collections::hash_map::DefaultHasher;
use std::hash::Hasher;
use vstd::prelude::*;
use vstd::std_specs::hash::DefaultHasherAdditionalSpecFns;
use vstd::utf8::*;
use crate::highlight::annotation::Annotation;
use crate::highlight::ltp_legacy_analyzer::{join_file, join_path};
use crate::page_layout::string_push;
use crate::text_source::{TextSource, text_after, window_after};
use crate::utf8_text::utf8_len;

verus! {

broadcast use {vstd::string::group_string_axioms, vstd::std_specs::hash::group_hash_axioms};

/// One chunk of the book: its number and the bytes `[start_offset, end_offset)`.
#[derive(Debug, Clone, Copy, PartialEq, Eq, Structural)]
pub struct AnnotationChunkMeta {
    pub index: usize,
    pub start_offset: u64,
    pub end_offset: u64,
}

/// What the cache directory describes: the text length it was built for, the
/// chunk size used and the chunks.
#[derive(Debug, Clone)]
pub struct AnnotationManifest {
    pub source_file_len: u64,
    pub chunk_size: usize,
    pub chunks: Vec<AnnotationChunkMeta>,
}

/// Chunks of the text from byte `offset` on: each holds the text
/// `read_from_offset(offset, chunk_size)` returns there; the plan ends at the
/// end of the text or at the first empty read.
pub open spec fn chunk_plan_from(bytes: Seq<u8>, offset: nat, chunk_size: nat, index: nat) -> Seq<AnnotationChunkMeta>
    decreases bytes.len() - offset,
{
    if offset >= bytes.len() {
        Seq::empty()
    } else {
        let len = utf8_len(text_after(bytes, offset as int, chunk_size as int));
        if len == 0 {
            Seq::empty()
        } else {
            proof {
                lemma_text_after_len(bytes, offset as int, chunk_size as int);
            }
            seq![AnnotationChunkMeta { index: index as usize, start_offset: offset as u64, end_offset: (offset + len) as u64 }]
                + chunk_plan_from(bytes, offset + len, chunk_size, index + 1)
        }
    }
}

/// The text read at `offset` takes no more bytes than the window it was read from.
pub proof fn lemma_text_after_len(bytes: Seq<u8>, offset: int, max_bytes: int)
    requires
        0 <= max_bytes,
    ensures
        utf8_len(text_after(bytes, offset, max_bytes)) <= window_after(bytes, offset, max_bytes).len(),
        0 <= offset ==> window_after(bytes, offset, max_bytes).len() <= if offset <= bytes.len() { bytes.len() - offset } else { 0 },
{
    let w = window_after(bytes, offset, max_bytes);
    crate::text_source::lemma_valid_prefix_len(w);
    let k = crate::text_source::valid_prefix_len(w);
    vstd::utf8::decode_utf8_encode_utf8(w.take(k as int));
}

/// Whether `plan` is numbered from `index` on and tiles the bytes from
/// `offset` on without gaps or overlaps, every chunk non-empty and inside the
/// first `len` bytes.
pub open spec fn plan_tiles(plan: Seq<AnnotationChunkMeta>, offset: nat, index: nat, len: nat) -> bool {
    &&& forall|k: int| 0 <= k < plan.len() ==> (#[trigger] plan[k]).index == (index + k) as usize
    &&& forall|k: int| 0 <= k < plan.len() ==> (#[trigger] plan[k]).start_offset < plan[k].end_offset <= len
    &&& plan.len() > 0 ==> plan[0].start_offset == offset
    &&& forall|k: int| 0 <= k < plan.len() - 1 ==> (#[trigger] plan[k]).end_offset == plan[k + 1].start_offset
}

/// Law: the chunks of a text are numbered in order and tile it from the start
/// without gaps or overlaps.
pub proof fn lemma_chunk_plan_tiles(bytes: Seq<u8>, offset: nat, chunk_size: nat, index: nat)
    requires
        bytes.len() <= u64::MAX,
    ensures
        plan_tiles(chunk_plan_from(bytes, offset, chunk_size, index), offset, index, bytes.len()),
    decreases bytes.len() - offset,
{
    let plan = chunk_plan_from(bytes, offset, chunk_size, index);
    if offset >= bytes.len() {
    } else {
        let len = utf8_len(text_after(bytes, offset as int, chunk_size as int));
        if len != 0 {
            lemma_text_after_len(bytes, offset as int, chunk_size as int);
            lemma_chunk_plan_tiles(bytes, offset + len, chunk_size, index + 1);
            let rest = chunk_plan_from(bytes, offset + len, chunk_size, index + 1);
            let first = AnnotationChunkMeta {
                index: index as usize,
                start_offset: offset as u64,
                end_offset: (offset + len) as u64,
            };
            assert(plan == seq![first] + rest);
            assert forall|k: int| 0 <= k < plan.len() implies (#[trigger] plan[k]).index == (index + k) as usize by {
                if k > 0 {
                    assert(plan[k] == rest[k - 1]);
                }
            }
            assert forall|k: int| 0 <= k < plan.len() implies (#[trigger] plan[k]).start_offset < plan[k].end_offset
                <= bytes.len() by {
                if k > 0 {
                    assert(plan[k] == rest[k - 1]);
                }
            }
            assert forall|k: int| 0 <= k < plan.len() - 1 implies (#[trigger] plan[k]).end_offset == plan[k
                + 1].start_offset by {
                assert(plan[k + 1] == rest[k]);
                if k > 0 {
                    assert(plan[k] == rest[k - 1]);
                }
            }
        }
    }
}

/// Splits the text into the chunks the cache is built from.
pub fn plan_chunks(text_source: &TextSource, chunk_size: usize) -> (chunks: Vec<AnnotationChunkMeta>)
    requires
        text_source.wf(),
    ensures
        chunks@ == chunk_plan_from(text_source.bytes(), 0, chunk_size as nat, 0),
{
    let mut chunks: Vec<AnnotationChunkMeta> = Vec::new();
    let source_file_len: u64 = text_source.file_len();
    let mut current_offset: u64 = 0;
    let mut chunk_index: usize = 0;
    let ghost bytes = text_source.bytes();
    while current_offset < source_file_len
        invariant_except_break
            text_source.wf(),
            bytes == text_source.bytes(),
            source_file_len == bytes.len(),
            chunk_index == chunks@.len(),
            chunks@ + chunk_plan_from(bytes, current_offset as nat, chunk_size as nat, chunk_index as nat)
                == chunk_plan_from(bytes, 0, chunk_size as nat, 0),
        ensures
            chunks@ == chunk_plan_from(bytes, 0, chunk_size as nat, 0),
        decreases source_file_len - current_offset,
    {
        let text = text_source.read_from_offset(current_offset, chunk_size);
        let len: usize = text.as_str().len();
        proof {
            let w = window_after(bytes, current_offset as int, chunk_size as int);
            assert(w.len() <= source_file_len - current_offset);
        }
        if len == 0 {
            assert(chunks@ + Seq::<AnnotationChunkMeta>::empty() =~= chunks@);
            break;
        }
        let end_offset: u64 = current_offset + len as u64;
        let ghost prev = chunks@;
        chunks.push(AnnotationChunkMeta { index: chunk_index, start_offset: current_offset, end_offset });
        proof {
            let rest = chunk_plan_from(bytes, end_offset as nat, chunk_size as nat, (chunk_index + 1) as nat);
            assert(prev + (seq![chunks@.last()] + rest) =~= chunks@ + rest);
            if end_offset >= source_file_len {
                assert(rest =~= Seq::<AnnotationChunkMeta>::empty());
            }
        }
        current_offset = end_offset;
        chunk_index = chunks.len();
    }
    proof {
        if current_offset >= source_file_len {
            assert(chunks@ + Seq::<AnnotationChunkMeta>::empty() =~= chunks@);
        }
    }
    chunks
}

/// Whether annotation `a` overlaps the byte range `[start, end)`.
pub open spec fn overlaps(a_start: u64, a_end: u64, start: u64, end: u64) -> bool {
    a_start < end && a_end > start
}

/// Indexes of the chunks overlapping `[start, end)`, in manifest order.
pub open spec fn chunks_in_range(chunks: Seq<AnnotationChunkMeta>, start: u64, end: u64) -> Seq<usize>
    decreases chunks.len(),
{
    if chunks.len() == 0 {
        Seq::empty()
    } else {
        let c = chunks.last();
        let prev = chunks_in_range(chunks.drop_last(), start, end);
        if overlaps(c.start_offset, c.end_offset, start, end) { prev.push(c.index) } else { prev }
    }
}

/// Annotations of `anns` overlapping `[start, end)`, in order.
pub open spec fn annotations_in_range(anns: Seq<Annotation>, start: u64, end: u64) -> Seq<Annotation>
    decreases anns.len(),
{
    if anns.len() == 0 {
        Seq::empty()
    } else {
        let a = anns.last();
        let prev = annotations_in_range(anns.drop_last(), start, end);
        if overlaps(a.start_offset, a.end_offset, start, end) { prev.push(a) } else { prev }
    }
}

/// The query answer: for each overlapping chunk, in order, its annotations
/// overlapping the range.
pub open spec fn query_answer(loaded: Map<usize, Seq<Annotation>>, indexes: Seq<usize>, start: u64, end: u64) -> Seq<Annotation>
    decreases indexes.len(),
{
    if indexes.len() == 0 {
        Seq::empty()
    } else {
        query_answer(loaded, indexes.drop_last(), start, end) + annotations_in_range(loaded[indexes.last()], start, end)
    }
}

proof fn lemma_annotations_in_range_members(anns: Seq<Annotation>, start: u64, end: u64)
    ensures
        forall|a: Annotation| #[trigger]
            annotations_in_range(anns, start, end).contains(a) <==> (anns.contains(a) && a.start_offset < end
                && a.end_offset > start),
    decreases anns.len(),
{
    if anns.len() > 0 {
        let init = anns.drop_last();
        lemma_annotations_in_range_members(init, start, end);
        assert(anns =~= init.push(anns.last()));
        let prev = annotations_in_range(init, start, end);
        assert forall|a: Annotation| #[trigger]
            annotations_in_range(anns, start, end).contains(a) <==> (anns.contains(a) && a.start_offset < end
                && a.end_offset > start) by {
            if anns.contains(a) && a != anns.last() {
                let k = choose|k: int| 0 <= k < anns.len() && anns[k] == a;
                assert(init[k] == a);
            }
            if init.contains(a) {
                let k = choose|k: int| 0 <= k < init.len() && init[k] == a;
                assert(anns[k] == a);
            }
            if prev.push(anns.last()).contains(a) && a != anns.last() {
                let k = choose|k: int| 0 <= k < prev.push(anns.last()).len() && prev.push(anns.last())[k] == a;
                assert(prev[k] == a);
            }
            if prev.contains(a) {
                let k = choose|k: int| 0 <= k < prev.len() && prev[k] == a;
                assert(prev.push(anns.last())[k] == a);
            }
            assert(anns[anns.len() - 1] == anns.last());
            assert(prev.push(anns.last())[prev.len() as int] == anns.last());
        }
    }
}

/// Law: a query's answer holds exactly the annotations, stored for the chunks
/// it covers, that overlap `[start, end)`: those starting before `end` and
/// ending after `start`.
pub proof fn lemma_query_answer_members(
    loaded: Map<usize, Seq<Annotation>>,
    indexes: Seq<usize>,
    start: u64,
    end: u64,
    a: Annotation,
)
    ensures
        query_answer(loaded, indexes, start, end).contains(a) <==> ((exists|k: int|
            0 <= k < indexes.len() && (#[trigger] loaded[indexes[k]]).contains(a)) && a.start_offset < end
            && a.end_offset > start),
    decreases indexes.len(),
{
    if indexes.len() > 0 {
        let init = indexes.drop_last();
        let last = indexes.last();
        lemma_query_answer_members(loaded, init, start, end, a);
        lemma_annotations_in_range_members(loaded[last], start, end);
        let p = query_answer(loaded, init, start, end);
        let q = annotations_in_range(loaded[last], start, end);
        assert((p + q).contains(a) <==> (p.contains(a) || q.contains(a))) by {
            if (p + q).contains(a) {
                let k = choose|k: int| 0 <= k < (p + q).len() && (p + q)[k] == a;
                if k < p.len() {
                    assert(p[k] == a);
                } else {
                    assert(q[k - p.len()] == a);
                }
            }
            if p.contains(a) {
                let k = choose|k: int| 0 <= k < p.len() && p[k] == a;
                assert((p + q)[k] == a);
            }
            if q.contains(a) {
                let k = choose|k: int| 0 <= k < q.len() && q[k] == a;
                assert((p + q)[p.len() + k] == a);
            }
        }
        if exists|k: int| 0 <= k < indexes.len() && (#[trigger] loaded[indexes[k]]).contains(a) {
            let k = choose|k: int| 0 <= k < indexes.len() && (#[trigger] loaded[indexes[k]]).contains(a);
            if k < init.len() {
                assert(init[k] == indexes[k]);
            } else {
                assert(indexes[k] == last);
            }
        }
        if exists|k: int| 0 <= k < init.len() && (#[trigger] loaded[init[k]]).contains(a) {
            let k = choose|k: int| 0 <= k < init.len() && (#[trigger] loaded[init[k]]).contains(a);
            assert(init[k] == indexes[k]);
        }
        if loaded[last].contains(a) {
            assert(indexes[indexes.len() - 1] == last);
        }
    }
}

/// What a query over `[start, end)` does to a cache and what it answers, apart
/// from what the reads gave: the cache keeps its manifest and every loaded
/// chunk; it loads only chunks of the range; an answer comes once every chunk of
/// the range is loaded and holds their annotations overlapping the range; an
/// error comes only while some chunk of the range was not loaded.
pub open spec fn query_effect(
    before: AnnotationCache,
    after: AnnotationCache,
    start: u64,
    end: u64,
    r: Result<Vec<Annotation>, String>,
) -> bool {
    let idx = chunks_in_range(before.chunks_spec(), start, end);
    &&& after.root_spec() == before.root_spec()
    &&& after.chunks_spec() == before.chunks_spec()
    &&& after.file_len_spec() == before.file_len_spec()
    &&& after.chunk_size_spec() == before.chunk_size_spec()
    &&& forall|i: usize| #[trigger]
        before.loaded_spec().contains_key(i) ==> after.loaded_spec().contains_key(i) && after.loaded_spec()[i]
            == before.loaded_spec()[i]
    &&& forall|i: usize| #[trigger]
        after.loaded_spec().contains_key(i) && !before.loaded_spec().contains_key(i) ==> idx.contains(i)
    &&& match r {
        Ok(anns) => {
            &&& forall|k: int| 0 <= k < idx.len() ==> after.loaded_spec().contains_key(#[trigger] idx[k])
            &&& anns@ == query_answer(after.loaded_spec(), idx, start, end)
        },
        Err(_) => exists|i: usize| idx.contains(i) && !before.loaded_spec().contains_key(i),
    }
}

/// The chunks a query over `[start, end)` has to load: those of the range not
/// loaded yet.
pub open spec fn chunks_to_load(c: AnnotationCache, start: u64, end: u64) -> Set<usize> {
    chunks_in_range(c.chunks_spec(), start, end).to_set().difference(c.loaded_spec().dom())
}

/// Law: a query that answers loads exactly the chunks of its range that were not
/// loaded: the loaded chunks are then those loaded before and those of the
/// range, and their number grows by the number of chunks it had to load.
pub proof fn lemma_query_loads_missing_chunks(
    c0: AnnotationCache,
    c1: AnnotationCache,
    start: u64,
    end: u64,
    anns: Vec<Annotation>,
)
    requires
        query_effect(c0, c1, start, end, Ok(anns)),
    ensures
        c1.loaded_spec().dom() == c0.loaded_spec().dom() + chunks_to_load(c0, start, end),
        c1.loaded_spec().dom().len() == c0.loaded_spec().dom().len() + chunks_to_load(c0, start, end).len(),
{
    let idx = chunks_in_range(c0.chunks_spec(), start, end);
    let d0 = c0.loaded_spec().dom();
    let add = chunks_to_load(c0, start, end);
    assert(c1.loaded_spec().dom() =~= d0 + add) by {
        assert forall|i: usize| #[trigger] c1.loaded_spec().dom().contains(i) implies (d0 + add).contains(i) by {
            if !d0.contains(i) {
                assert(idx.contains(i));
            }
        }
        assert forall|i: usize| #[trigger] (d0 + add).contains(i) implies c1.loaded_spec().dom().contains(i) by {
            if !d0.contains(i) {
                assert(idx.to_set().contains(i));
                let k = choose|k: int| 0 <= k < idx.len() && idx[k] == i;
                assert(c1.loaded_spec().contains_key(idx[k]));
            }
        }
    }
    c0.lemma_loaded_finite();
    vstd::seq_lib::seq_to_set_is_finite(idx);
    assert(add.finite());
    assert(d0.disjoint(add));
    vstd::set_lib::lemma_set_disjoint_lens(d0, add);
}


/// Law: asking a cache the same query again, right after it answered, gives the
/// same answer and loads nothing.
pub proof fn lemma_query_again(
    c0: AnnotationCache,
    c1: AnnotationCache,
    c2: AnnotationCache,
    start: u64,
    end: u64,
    first: Vec<Annotation>,
    again: Result<Vec<Annotation>, String>,
)
    requires
        query_effect(c0, c1, start, end, Ok(first)),
        query_effect(c1, c2, start, end, again),
    ensures
        again matches Ok(a) && a@ == first@,
        c2.loaded_spec() == c1.loaded_spec(),
{
    let idx = chunks_in_range(c1.chunks_spec(), start, end);
    assert forall|i: usize| !(idx.contains(i) && !c1.loaded_spec().contains_key(i)) by {
        if idx.contains(i) {
            let k = choose|k: int| 0 <= k < idx.len() && idx[k] == i;
            assert(c1.loaded_spec().contains_key(idx[k]));
        }
    }
    assert(c2.loaded_spec() =~= c1.loaded_spec()) by {
        assert forall|i: usize| #[trigger] c2.loaded_spec().contains_key(i) implies c1.loaded_spec().contains_key(i) by {
            if !c1.loaded_spec().contains_key(i) {
                assert(idx.contains(i));
            }
        }
    }
}

/// Lower-case hexadecimal digit of `d` (below 16).
pub open spec fn hex_digit(d: nat) -> char {
    if d < 10 { ((d + 48) as u32) as char } else { ((d + 87) as u32) as char }
}

/// The last `n` hexadecimal digits of `v`, most significant first.
pub open spec fn hex_digits(v: nat, n: nat) -> Seq<char>
    decreases n,
{
    if n == 0 {
        Seq::empty()
    } else {
        hex_digits(v / 16, (n - 1) as nat).push(hex_digit(v % 16))
    }
}

fn hex_char(d: u64) -> (c: char)
    requires
        d < 16,
    ensures
        c == hex_digit(d as nat),
{
    if d == 0 { '0' } else if d == 1 { '1' } else if d == 2 { '2' } else if d == 3 { '3' }
    else if d == 4 { '4' } else if d == 5 { '5' } else if d == 6 { '6' } else if d == 7 { '7' }
    else if d == 8 { '8' } else if d == 9 { '9' } else if d == 10 { 'a' } else if d == 11 { 'b' }
    else if d == 12 { 'c' } else if d == 13 { 'd' } else if d == 14 { 'e' } else { 'f' }
}

/// `v` as 16 lower-case hexadecimal digits, as `format!("{:016x}", v)` writes it.
pub fn hex16(v: u64) -> (s: String)
    ensures
        s@ == hex_digits(v as nat, 16),
{
    let mut digits: Vec<char> = Vec::new();
    let mut rest: u64 = v;
    let mut n: usize = 0;
    assert(pow16(0) == 1);
    assert(v as nat / 1 == v as nat);
    proof {
        lemma_hex_digits_len(v as nat, 16);
    }
    while n < 16
        invariant
            n <= 16,
            digits@.len() == n,
            rest as nat == v as nat / pow16(n as nat),
            forall|k: int| 0 <= k < n ==> digits@[k] == hex_digits(v as nat, 16)[15 - k],
        decreases 16 - n,
    {
        proof {
            lemma_hex_digit_at(v as nat, n as nat);
        }
        digits.push(hex_char(rest % 16));
        proof {
            lemma_pow16_pos(n as nat);
            vstd::arithmetic::div_mod::lemma_div_denominator(v as int, pow16(n as nat) as int, 16);
            assert(pow16((n + 1) as nat) == 16 * pow16(n as nat));
            assert(pow16(n as nat) * 16 == 16 * pow16(n as nat)) by (nonlinear_arith);
        }
        rest = rest / 16;
        n = n + 1;
    }
    let mut s = String::new();
    let mut k: usize = 16;
    proof {
        lemma_hex_digits_len(v as nat, 16);
    }
    while k > 0
        invariant
            k <= 16,
            digits@.len() == 16,
            forall|j: int| 0 <= j < 16 ==> digits@[j] == hex_digits(v as nat, 16)[15 - j],
            s@ == hex_digits(v as nat, 16).take(16 - k),
            hex_digits(v as nat, 16).len() == 16,
        decreases k,
    {
        k = k - 1;
        string_push(&mut s, digits[k]);
        assert(s@ =~= hex_digits(v as nat, 16).take(16 - k));
    }
    assert(s@ =~= hex_digits(v as nat, 16));
    s
}

pub open spec fn pow16(n: nat) -> nat
    decreases n,
{
    if n == 0 { 1 } else { 16 * pow16((n - 1) as nat) }
}

proof fn lemma_pow16_pos(n: nat)
    ensures
        pow16(n) >= 1,
    decreases n,
{
    if n > 0 {
        lemma_pow16_pos((n - 1) as nat);
    }
}

proof fn lemma_hex_digits_len(v: nat, n: nat)
    ensures
        hex_digits(v, n).len() == n,
    decreases n,
{
    if n > 0 {
        lemma_hex_digits_len(v / 16, (n - 1) as nat);
    }
}

/// Digit `n` from the right of the `m`-digit rendering is `(v / 16^n) % 16`.
proof fn lemma_hex_digit_from_right(v: nat, m: nat, n: nat)
    requires
        n < m,
    ensures
        hex_digits(v, m).len() == m,
        hex_digits(v, m)[m - 1 - n] == hex_digit((v / pow16(n)) % 16),
    decreases n,
{
    lemma_hex_digits_len(v, m);
    lemma_hex_digits_len(v / 16, (m - 1) as nat);
    if n == 0 {
        assert(pow16(0) == 1);
        assert(v / 1 == v);
    } else {
        lemma_hex_digit_from_right(v / 16, (m - 1) as nat, (n - 1) as nat);
        lemma_pow16_pos((n - 1) as nat);
        vstd::arithmetic::div_mod::lemma_div_denominator(v as int, 16, pow16((n - 1) as nat) as int);
        assert(pow16(n) == 16 * pow16((n - 1) as nat));
        assert(hex_digits(v, m)[m - 1 - n] == hex_digits(v / 16, (m - 1) as nat)[(m - 1) - 1 - (n - 1)]);
    }
}

proof fn lemma_hex_digit_at(v: nat, n: nat)
    requires
        n < 16,
    ensures
        hex_digits(v, 16)[15 - n] == hex_digit((v / pow16(n)) % 16),
        hex_digits(v, 16).len() == 16,
{
    lemma_hex_digit_from_right(v, 16, n);
}

/// Hash of a book path, as hashing the path string with `DefaultHasher` gives it.
pub open spec fn path_hash(path: Seq<char>) -> u64 {
    DefaultHasher::spec_finish(seq![encode_utf8(path), seq![0xffu8]])
}

/// Directory of the annotation cache of one book and analyzer:
/// `.reading/annotations/<16 hex digits of the path hash>/<analyzer id>`.
pub open spec fn annotation_path_spec(book_path: Seq<char>, analyzer_id: Seq<char>) -> Seq<char> {
    join_path(join_path(".reading/annotations"@, hex_digits(path_hash(book_path) as nat, 16)), analyzer_id)
}

/// Law: the caches of one book under two different analyzers lie in
/// different directories.
pub proof fn lemma_annotation_paths_separate_analyzers(book_path: Seq<char>, a: Seq<char>, b: Seq<char>)
    requires
        a != b,
    ensures
        annotation_path_spec(book_path, a) != annotation_path_spec(book_path, b),
{
    let dir = join_path(".reading/annotations"@, hex_digits(path_hash(book_path) as nat, 16));
    let pa = annotation_path_spec(book_path, a);
    let pb = annotation_path_spec(book_path, b);
    let prefix: Seq<char> = if dir.len() == 0 || dir.last() == '/' { dir } else { dir + seq!['/'] };
    assert(pa == prefix + a);
    assert(pb == prefix + b);
    if pa == pb {
        assert((prefix + a).skip(prefix.len() as int) =~= a);
        assert((prefix + b).skip(prefix.len() as int) =~= b);
    }
}

/// Directory of the annotation cache of one book and analyzer.
pub fn annotation_path_for_book(book_path: &str, analyzer_id: &str) -> (p: String)
    ensures
        p@ == annotation_path_spec(book_path@, analyzer_id@),
{
    let mut hasher = DefaultHasher::new();
    let path_bytes: &[u8] = book_path.as_bytes();
    hasher.write(path_bytes);
    let terminator: [u8; 1] = [0xff];
    let terminator_bytes: &[u8] = terminator.as_slice();
    assert(terminator_bytes@ =~= seq![0xffu8]);
    hasher.write(terminator_bytes);
    let book_hash: u64 = hasher.finish();
    assert(hasher@ =~= seq![encode_utf8(book_path@), seq![0xffu8]]);
    let hex = hex16(book_hash);
    let dir = join_file(".reading/annotations", hex.as_str());
    join_file(dir.as_str(), analyzer_id)
}

} // verus!

verus! {

/// Whether a manifest was built for a text of `source_file_len` bytes.
pub fn manifest_is_fresh(manifest: &AnnotationManifest, source_file_len: u64) -> (fresh: bool)
    ensures
        fresh == (manifest.source_file_len == source_file_len),
{
    manifest.source_file_len == source_file_len
}

/// Whether `saved` was built for a text of `len` bytes, so that it can be used.
pub open spec fn fresh_manifest(saved: Option<AnnotationManifest>, len: nat) -> bool {
    saved matches Some(m) && m.source_file_len == len
}

/// Whether chunk `c` of a build was analyzed on its text and the annotations
/// that came back were saved.
pub open spec fn chunk_built<A, S>(analyze: A, save_chunk: S, bytes: Seq<u8>, chunk_size: nat, c: AnnotationChunkMeta) -> bool where
    A: Fn(String, u64) -> Result<Vec<Annotation>, String>,
    S: Fn(usize, Vec<Annotation>) -> Result<(), String>,
 {
    exists|t: String, v: Vec<Annotation>|
        t@ == text_after(bytes, c.start_offset as int, chunk_size as int) && #[trigger] call_ensures(
            analyze,
            (t, c.start_offset),
            Ok(v),
        ) && #[trigger] call_ensures(save_chunk, (c.index, v), Ok(()))
}

/// The cache of one book: its manifest and the chunks loaded so far.
pub struct AnnotationCache {
    root_path: String,
    manifest: AnnotationManifest,
    loaded_chunks: HashMap<usize, Vec<Annotation>>,
}

impl AnnotationCache {
    pub closed spec fn root_spec(&self) -> Seq<char> {
        self.root_path@
    }

    pub closed spec fn chunks_spec(&self) -> Seq<AnnotationChunkMeta> {
        self.manifest.chunks@
    }

    pub closed spec fn file_len_spec(&self) -> u64 {
        self.manifest.source_file_len
    }

    pub closed spec fn chunk_size_spec(&self) -> usize {
        self.manifest.chunk_size
    }

    /// Annotations of each loaded chunk, by chunk number.
    pub closed spec fn loaded_spec(&self) -> Map<usize, Seq<Annotation>> {
        self.loaded_chunks@.map_values(|v: Vec<Annotation>| v@)
    }

    /// A cache over `manifest` with no chunk loaded yet.
    pub fn from_manifest(root_path: String, manifest: AnnotationManifest) -> (c: AnnotationCache)
        ensures
            c.root_spec() == root_path@,
            c.chunks_spec() == manifest.chunks@,
            c.file_len_spec() == manifest.source_file_len,
            c.chunk_size_spec() == manifest.chunk_size,
            c.loaded_spec() == Map::<usize, Seq<Annotation>>::empty(),
    {
        let c = AnnotationCache { root_path, manifest, loaded_chunks: HashMap::new() };
        assert(c.loaded_spec() =~= Map::<usize, Seq<Annotation>>::empty());
        c
    }

    /// The cache of a text: from its saved manifest when that was built for a
    /// text of this length; otherwise built anew: `prepare` runs, then every
    /// chunk of the plan is analyzed with `analyze` on its text and handed to
    /// `save_chunk`, in order, and the manifest is handed to `save_manifest`.
    /// The first step that fails ends the build with its error. With a fresh
    /// manifest none of the four steps runs, so they need not be callable then.
    pub fn load_or_build<P, A, S, M>(
        root_path: String,
        text_source: &TextSource,
        chunk_size: usize,
        saved: Option<AnnotationManifest>,
        prepare: P,
        analyze: A,
        save_chunk: S,
        save_manifest: M,
    ) -> (r: Result<AnnotationCache, String>) where
        P: Fn() -> Result<(), String>,
        A: Fn(String, u64) -> Result<Vec<Annotation>, String>,
        S: Fn(usize, Vec<Annotation>) -> Result<(), String>,
        M: Fn(&AnnotationManifest) -> Result<(), String>,

        requires
            text_source.wf(),
            !fresh_manifest(saved, text_source.bytes().len()) ==> {
                &&& call_requires(prepare, ())
                &&& forall|t: String, b: u64| call_requires(analyze, (t, b))
                &&& forall|i: usize, v: Vec<Annotation>| call_requires(save_chunk, (i, v))
                &&& forall|m: &AnnotationManifest| call_requires(save_manifest, (m,))
            },
        ensures
            fresh_manifest(saved, text_source.bytes().len()) ==> (r matches Ok(c) && {
                &&& c.root_spec() == root_path@
                &&& c.chunks_spec() == saved->0.chunks@
                &&& c.file_len_spec() == saved->0.source_file_len
                &&& c.chunk_size_spec() == saved->0.chunk_size
                &&& c.loaded_spec() == Map::<usize, Seq<Annotation>>::empty()
            }),
            !fresh_manifest(saved, text_source.bytes().len()) ==> match r {
                Ok(c) => {
                    let plan = chunk_plan_from(text_source.bytes(), 0, chunk_size as nat, 0);
                    &&& c.root_spec() == root_path@
                    &&& c.chunks_spec() == plan
                    &&& c.file_len_spec() == text_source.bytes().len()
                    &&& c.chunk_size_spec() == chunk_size
                    &&& c.loaded_spec() == Map::<usize, Seq<Annotation>>::empty()
                    &&& call_ensures(prepare, (), Ok(()))
                    &&& forall|k: int| 0 <= k < plan.len() ==> chunk_built(
                        analyze,
                        save_chunk,
                        text_source.bytes(),
                        chunk_size as nat,
                        #[trigger] plan[k],
                    )
                    &&& exists|m: &AnnotationManifest|
                        m.chunks@ == plan && m.source_file_len == text_source.bytes().len() && m.chunk_size == chunk_size
                            && #[trigger] call_ensures(save_manifest, (m,), Ok(()))
                },
                Err(e) => {
                    ||| call_ensures(prepare, (), Err(e))
                    ||| exists|t: String, b: u64| #[trigger] call_ensures(analyze, (t, b), Err(e))
                    ||| exists|i: usize, v: Vec<Annotation>| #[trigger] call_ensures(save_chunk, (i, v), Err(e))
                    ||| exists|m: &AnnotationManifest| #[trigger] call_ensures(save_manifest, (m,), Err(e))
                },
            },
    {
        let source_file_len = text_source.file_len();
        let usable = match &saved {
            Some(m) => manifest_is_fresh(m, source_file_len),
            None => false,
        };
        assert(usable == fresh_manifest(saved, text_source.bytes().len()));
        if usable {
            let manifest = saved.unwrap();
            return Ok(AnnotationCache::from_manifest(root_path, manifest));
        }
        let prepared = prepare();
        assert(call_ensures(prepare, (), prepared));
        match prepared {
            Err(e) => {
                return Err(e);
            },
            Ok(u) => {
                assert(prepared == Ok::<(), String>(u));
                assert(u == ());
            },
        }
        let plan = plan_chunks(text_source, chunk_size);
        let ghost bytes = text_source.bytes();
        for k in 0..plan.len()
            invariant
                text_source.wf(),
                bytes == text_source.bytes(),
                plan@ == chunk_plan_from(bytes, 0, chunk_size as nat, 0),
                !fresh_manifest(saved, bytes.len()),
                call_ensures(prepare, (), Ok(())),
                forall|t: String, b: u64| call_requires(analyze, (t, b)),
                forall|i: usize, v: Vec<Annotation>| call_requires(save_chunk, (i, v)),
                forall|j: int| 0 <= j < k ==> chunk_built(analyze, save_chunk, bytes, chunk_size as nat, #[trigger] plan@[j]),
        {
            let c = plan[k];
            let text = text_source.read_from_offset(c.start_offset, chunk_size);
            let ghost t = text;
            let analyzed = analyze(text, c.start_offset);
            assert(call_ensures(analyze, (t, c.start_offset), analyzed));
            match analyzed {
                Err(e) => {
                    return Err(e);
                },
                Ok(annotations) => {
                    let ghost v = annotations;
                    let stored = save_chunk(c.index, annotations);
                    assert(call_ensures(save_chunk, (c.index, v), stored));
                    match stored {
                        Err(e) => {
                            return Err(e);
                        },
                        Ok(u) => {
                            assert(stored == Ok::<(), String>(u));
                            assert(u == ());
                            assert(chunk_built(analyze, save_chunk, bytes, chunk_size as nat, plan@[k as int]));
                        },
                    }
                },
            }
        }
        let manifest = AnnotationManifest { source_file_len, chunk_size, chunks: plan };
        let saved_manifest = save_manifest(&manifest);
        assert(call_ensures(save_manifest, (&manifest,), saved_manifest));
        match saved_manifest {
            Err(e) => {
                return Err(e);
            },
            Ok(u) => {
                assert(saved_manifest == Ok::<(), String>(u));
                assert(u == ());
                assert(call_ensures(save_manifest, (&manifest,), Ok(())));
            },
        }
        Ok(AnnotationCache::from_manifest(root_path, manifest))
    }

    /// Directory the cache lives in.
    pub fn root_path(&self) -> (p: &str)
        ensures
            p@ == self.root_spec(),
    {
        self.root_path.as_str()
    }

    /// The manifest, for saving.
    pub fn manifest(&self) -> (m: &AnnotationManifest)
        ensures
            m.chunks@ == self.chunks_spec(),
            m.source_file_len == self.file_len_spec(),
            m.chunk_size == self.chunk_size_spec(),
    {
        &self.manifest
    }

    /// Number of chunks of the book.
    pub fn chunk_count(&self) -> (n: usize)
        ensures
            n == self.chunks_spec().len(),
    {
        self.manifest.chunks.len()
    }

    /// A cache holds finitely many loaded chunks.
    pub proof fn lemma_loaded_finite(&self)
        ensures
            self.loaded_spec().dom().finite(),
    {
        vstd::std_specs::hash::axiom_hashmap_view_finite_dom(self.loaded_chunks);
        assert(self.loaded_spec().dom() =~= self.loaded_chunks@.dom());
    }

    /// Number of chunks loaded so far.
    pub fn loaded_chunk_count(&self) -> (n: usize)
        ensures
            n == self.loaded_spec().dom().len(),
    {
        assert(self.loaded_spec().dom() =~= self.loaded_chunks@.dom());
        self.loaded_chunks.len()
    }

    /// Numbers of the chunks overlapping `[start_offset, end_offset)`, in manifest order.
    pub fn chunks_for_range(&self, start_offset: u64, end_offset: u64) -> (idx: Vec<usize>)
        ensures
            idx@ == chunks_in_range(self.chunks_spec(), start_offset, end_offset),
    {
        let mut idx: Vec<usize> = Vec::new();
        let ghost chunks = self.manifest.chunks@;
        for i in 0..self.manifest.chunks.len()
            invariant
                chunks == self.manifest.chunks@,
                idx@ == chunks_in_range(chunks.take(i as int), start_offset, end_offset),
        {
            let c = self.manifest.chunks[i];
            assert(chunks.take(i + 1).drop_last() =~= chunks.take(i as int));
            if c.start_offset < end_offset && c.end_offset > start_offset {
                idx.push(c.index);
            }
        }
        assert(chunks.take(chunks.len() as int) =~= chunks);
        idx
    }

    /// Whether chunk `index` is loaded.
    pub fn is_loaded(&self, index: usize) -> (b: bool)
        ensures
            b == self.loaded_spec().contains_key(index),
    {
        self.loaded_chunks.contains_key(&index)
    }

    /// Records the annotations of chunk `index` once they are read; a chunk
    /// already loaded is kept as it is.
    pub fn insert_chunk(&mut self, index: usize, annotations: Vec<Annotation>)
        ensures
            final(self).root_spec() == old(self).root_spec(),
            final(self).chunks_spec() == old(self).chunks_spec(),
            final(self).file_len_spec() == old(self).file_len_spec(),
            final(self).chunk_size_spec() == old(self).chunk_size_spec(),
            final(self).loaded_spec() == if old(self).loaded_spec().contains_key(index) {
                old(self).loaded_spec()
            } else {
                old(self).loaded_spec().insert(index, annotations@)
            },
    {
        if self.loaded_chunks.contains_key(&index) {
            return;
        }
        self.loaded_chunks.insert(index, annotations);
        assert(self.loaded_spec() =~= old(self).loaded_spec().insert(index, annotations@));
    }

    /// Annotations overlapping `[start_offset, end_offset)`: the chunks of the
    /// range that are not loaded yet are read with `load_chunk` first, in
    /// manifest order; the first read that fails ends the query with its error.
    pub fn query<F: Fn(usize) -> Result<Vec<Annotation>, String>>(
        &mut self,
        start_offset: u64,
        end_offset: u64,
        load_chunk: F,
    ) -> (r: Result<Vec<Annotation>, String>)
        requires
            forall|i: usize| call_requires(load_chunk, (i,)),
        ensures
            query_effect(*old(self), *final(self), start_offset, end_offset, r),
            forall|i: usize| #[trigger]
                final(self).loaded_spec().contains_key(i) && !old(self).loaded_spec().contains_key(i) ==> exists|
                    v: Vec<Annotation>,
                | #[trigger] call_ensures(load_chunk, (i,), Ok(v)) && v@ == final(self).loaded_spec()[i],
            r matches Err(e) ==> exists|i: usize|
                chunks_in_range(old(self).chunks_spec(), start_offset, end_offset).contains(i)
                    && !old(self).loaded_spec().contains_key(i) && #[trigger] call_ensures(
                    load_chunk,
                    (i,),
                    Err(e),
                ),
    {
        let indexes = self.chunks_for_range(start_offset, end_offset);
        let ghost before = self.loaded_spec();
        for k in 0..indexes.len()
            invariant
                indexes@ == chunks_in_range(self.chunks_spec(), start_offset, end_offset),
                self.root_spec() == old(self).root_spec(),
                self.chunks_spec() == old(self).chunks_spec(),
                self.file_len_spec() == old(self).file_len_spec(),
                self.chunk_size_spec() == old(self).chunk_size_spec(),
                before == old(self).loaded_spec(),
                forall|i: usize| call_requires(load_chunk, (i,)),
                forall|j: int| 0 <= j < k ==> self.loaded_spec().contains_key(#[trigger] indexes@[j]),
                forall|i: usize| #[trigger]
                    before.contains_key(i) ==> self.loaded_spec().contains_key(i) && self.loaded_spec()[i]
                        == before[i],
                forall|i: usize| #[trigger]
                    self.loaded_spec().contains_key(i) && !before.contains_key(i) ==> {
                        &&& indexes@.contains(i)
                        &&& exists|v: Vec<Annotation>| #[trigger]
                            call_ensures(load_chunk, (i,), Ok(v)) && v@ == self.loaded_spec()[i]
                    },
        {
            let index = indexes[k];
            if !self.is_loaded(index) {
                match load_chunk(index) {
                    Ok(annotations) => {
                        let ghost v = annotations;
                        self.insert_chunk(index, annotations);
                        assert(indexes@[k as int] == index);
                        assert(call_ensures(load_chunk, (index,), Ok(v)) && v@ == self.loaded_spec()[index]);
                    },
                    Err(error) => {
                        assert(indexes@[k as int] == index);
                        assert(indexes@.contains(index));
                        assert(!before.contains_key(index));
                        return Err(error);
                    },
                }
            }
        }
        Ok(self.query_loaded(start_offset, end_offset))
    }

    /// Annotations overlapping `[start_offset, end_offset)`, once every chunk
    /// overlapping the range is loaded: chunk by chunk in manifest order, each
    /// chunk's annotations in their order.
    pub fn query_loaded(&self, start_offset: u64, end_offset: u64) -> (anns: Vec<Annotation>)
        requires
            forall|k: int|
                0 <= k < chunks_in_range(self.chunks_spec(), start_offset, end_offset).len()
                    ==> self.loaded_spec().contains_key(
                    #[trigger] chunks_in_range(self.chunks_spec(), start_offset, end_offset)[k],
                ),
        ensures
            anns@ == query_answer(
                self.loaded_spec(),
                chunks_in_range(self.chunks_spec(), start_offset, end_offset),
                start_offset,
                end_offset,
            ),
    {
        let indexes = self.chunks_for_range(start_offset, end_offset);
        let mut anns: Vec<Annotation> = Vec::new();
        for i in 0..indexes.len()
            invariant
                indexes@ == chunks_in_range(self.chunks_spec(), start_offset, end_offset),
                forall|k: int| 0 <= k < indexes@.len() ==> self.loaded_spec().contains_key(#[trigger] indexes@[k]),
                anns@ == query_answer(self.loaded_spec(), indexes@.take(i as int), start_offset, end_offset),
        {
            let index = indexes[i];
            assert(self.loaded_spec().contains_key(indexes@[i as int]));
            assert(self.loaded_chunks@.contains_key(index));
            let chunk: &Vec<Annotation> = self.loaded_chunks.get(&index).unwrap();
            let ghost before = anns@;
            for j in 0..chunk.len()
                invariant
                    anns@ == before + annotations_in_range(chunk@.take(j as int), start_offset, end_offset),
            {
                let a = chunk[j];
                assert(chunk@.take(j + 1).drop_last() =~= chunk@.take(j as int));
                if a.start_offset < end_offset && a.end_offset > start_offset {
                    anns.push(a);
                    assert(anns@ =~= before + annotations_in_range(chunk@.take(j + 1), start_offset, end_offset));
                } else {
                    assert(anns@ =~= before + annotations_in_range(chunk@.take(j + 1), start_offset, end_offset));
                }
            }
            assert(chunk@.take(chunk@.len() as int) =~= chunk@);
            assert(indexes@.take(i + 1).drop_last() =~= indexes@.take(i as int));
            assert(self.loaded_spec()[index] == chunk@);
        }
        assert(indexes@.take(indexes@.len() as int) =~= indexes@);
        anns
    }
}

} // verus!
