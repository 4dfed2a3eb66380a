//! The pure parts of the LTP legacy analyzer: model paths, tag mapping and
//! turning tagged words into annotations.
use vstd::prelude::*;
use crate::highlight::annotation::{Annotation, AnnotationKind};
use crate::highlight::analyzer::string_from_str;
use crate::cover::terminal::string_push_str;
use crate::utf8_text::{str_eq, str_chars};

verus! {

broadcast use vstd::string::group_string_axioms;

/// `dir` joined with the relative file name `file`, as `Path::join` does on Unix.
pub open spec fn join_path(dir: Seq<char>, file: Seq<char>) -> Seq<char> {
    if dir.len() == 0 || dir.last() == '/' {
        dir + file
    } else {
        dir + seq!['/'] + file
    }
}

/// The model files of the LTP legacy analyzer.
#[derive(Debug, Clone, PartialEq, Eq)]
pub struct LtpLegacyModelPaths {
    pub cws: String,
    pub pos: String,
    pub ner: String,
}

pub(crate) fn join_file(dir: &str, file: &str) -> (p: String)
    ensures
        p@ == join_path(dir@, file@),
{
    let mut p = string_from_str(dir);
    let chars = str_chars(dir);
    if chars.len() > 0 && chars[chars.len() - 1] != '/' {
        crate::page_layout::string_push(&mut p, '/');
    }
    string_push_str(&mut p, file);
    proof {
        if dir@.len() > 0 {
            assert(dir@.last() == chars@[chars@.len() - 1]);
        }
    }
    p
}

impl LtpLegacyModelPaths {
    /// The three model files inside `model_dir`.
    pub fn from_dir(model_dir: &str) -> (paths: LtpLegacyModelPaths)
        ensures
            paths.cws@ == join_path(model_dir@, "cws_model.bin"@),
            paths.pos@ == join_path(model_dir@, "pos_model.bin"@),
            paths.ner@ == join_path(model_dir@, "ner_model.bin"@),
    {
        LtpLegacyModelPaths {
            cws: join_file(model_dir, "cws_model.bin"),
            pos: join_file(model_dir, "pos_model.bin"),
            ner: join_file(model_dir, "ner_model.bin"),
        }
    }
}

/// Highlight kind of an LTP part-of-speech tag.
pub open spec fn ltp_pos_kind(tag: Seq<char>) -> Option<AnnotationKind> {
    if tag == "n"@ || tag == "nh"@ || tag == "ni"@ || tag == "nl"@ || tag == "ns"@ || tag == "nz"@ {
        Some(AnnotationKind::Noun)
    } else if tag == "v"@ {
        Some(AnnotationKind::Verb)
    } else if tag == "r"@ {
        Some(AnnotationKind::Pronoun)
    } else if tag == "d"@ {
        Some(AnnotationKind::Adverb)
    } else if tag == "a"@ {
        Some(AnnotationKind::Adjective)
    } else {
        None
    }
}

/// Law: LTP's tag table. `n`, `nh` (person), `ni` (organization), `nl`
/// (location), `ns` (place) and `nz` (other proper noun) are nouns; `v` a verb;
/// `r` a pronoun; `d` an adverb; `a` an adjective; other tags (such as `m` or
/// `wp`) are not highlighted.
pub proof fn lemma_ltp_pos_tag_table()
    ensures
        ltp_pos_kind("n"@) == Some(AnnotationKind::Noun),
        ltp_pos_kind("nh"@) == Some(AnnotationKind::Noun),
        ltp_pos_kind("ni"@) == Some(AnnotationKind::Noun),
        ltp_pos_kind("nl"@) == Some(AnnotationKind::Noun),
        ltp_pos_kind("ns"@) == Some(AnnotationKind::Noun),
        ltp_pos_kind("nz"@) == Some(AnnotationKind::Noun),
        ltp_pos_kind("v"@) == Some(AnnotationKind::Verb),
        ltp_pos_kind("r"@) == Some(AnnotationKind::Pronoun),
        ltp_pos_kind("d"@) == Some(AnnotationKind::Adverb),
        ltp_pos_kind("a"@) == Some(AnnotationKind::Adjective),
        ltp_pos_kind("m"@) is None,
        ltp_pos_kind("wp"@) is None,
{
    reveal_strlit("n");
    reveal_strlit("nh");
    reveal_strlit("ni");
    reveal_strlit("nl");
    reveal_strlit("ns");
    reveal_strlit("nz");
    reveal_strlit("v");
    reveal_strlit("r");
    reveal_strlit("d");
    reveal_strlit("a");
    reveal_strlit("m");
    reveal_strlit("wp");
    assert("n"@[0] == 'n' && "n"@.len() == 1);
    assert("nh"@[0] == 'n' && "nh"@.len() == 2);
    assert("ni"@[0] == 'n' && "ni"@.len() == 2);
    assert("nl"@[0] == 'n' && "nl"@.len() == 2);
    assert("ns"@[0] == 'n' && "ns"@.len() == 2);
    assert("nz"@[0] == 'n' && "nz"@.len() == 2);
    assert("v"@[0] == 'v' && "v"@.len() == 1);
    assert("r"@[0] == 'r' && "r"@.len() == 1);
    assert("d"@[0] == 'd' && "d"@.len() == 1);
    assert("a"@[0] == 'a' && "a"@.len() == 1);
    assert("m"@[0] == 'm' && "m"@.len() == 1);
    assert("wp"@[0] == 'w' && "wp"@.len() == 2);
    assert("wp"@[1] == 'p');
    assert("nh"@[1] == 'h' && "ni"@[1] == 'i' && "nl"@[1] == 'l' && "ns"@[1] == 's' && "nz"@[1] == 'z');
}

/// Law: the entity part of an NER tag, in either case: `nh` a person, `ns` a
/// location, `ni` an organization; `nz` and other parts are no entity.
pub proof fn lemma_ner_entity_table()
    ensures
        ner_entity_spec(seq!['n', 'h']) == Some(AnnotationKind::Person),
        ner_entity_spec(seq!['N', 'H']) == Some(AnnotationKind::Person),
        ner_entity_spec(seq!['n', 's']) == Some(AnnotationKind::Location),
        ner_entity_spec(seq!['N', 's']) == Some(AnnotationKind::Location),
        ner_entity_spec(seq!['n', 'i']) == Some(AnnotationKind::Organization),
        ner_entity_spec(seq!['N', 'I']) == Some(AnnotationKind::Organization),
        ner_entity_spec(seq!['n', 'z']) is None,
        ner_entity_spec(seq!['n']) is None,
{
}

/// Maps an LTP part-of-speech tag to the highlight it gets, if any.
pub fn map_ltp_pos_tag(tag: &str) -> (k: Option<AnnotationKind>)
    ensures
        k == ltp_pos_kind(tag@),
{
    if str_eq(tag, "n") || str_eq(tag, "nh") || str_eq(tag, "ni") || str_eq(tag, "nl") || str_eq(tag, "ns")
        || str_eq(tag, "nz") {
        Some(AnnotationKind::Noun)
    } else if str_eq(tag, "v") {
        Some(AnnotationKind::Verb)
    } else if str_eq(tag, "r") {
        Some(AnnotationKind::Pronoun)
    } else if str_eq(tag, "d") {
        Some(AnnotationKind::Adverb)
    } else if str_eq(tag, "a") {
        Some(AnnotationKind::Adjective)
    } else {
        None
    }
}

/// Annotations of the first `n` tagged words: words whose tag has a highlight.
pub open spec fn pos_annotations_prefix(offsets: Seq<(u64, u64)>, tags: Seq<Seq<char>>, n: nat) -> Seq<Annotation>
    decreases n,
{
    if n == 0 {
        Seq::empty()
    } else {
        let prev = pos_annotations_prefix(offsets, tags, (n - 1) as nat);
        match ltp_pos_kind(tags[n - 1]) {
            Some(kind) => prev.push(
                Annotation { start_offset: offsets[n - 1].0, end_offset: offsets[n - 1].1, kind },
            ),
            None => prev,
        }
    }
}

pub open spec fn zip_len(a: nat, b: nat) -> nat {
    if a <= b { a } else { b }
}

/// One annotation for each word (paired with its tag) whose tag has a highlight.
pub fn pos_annotations_from_offsets(offsets: &[(u64, u64)], pos_tags: &[&str]) -> (anns: Vec<Annotation>)
    ensures
        anns@ == pos_annotations_prefix(
            offsets@,
            pos_tags@.map_values(|t: &str| t@),
            zip_len(offsets@.len(), pos_tags@.len()),
        ),
{
    let n: usize = if offsets.len() <= pos_tags.len() { offsets.len() } else { pos_tags.len() };
    let ghost tags = pos_tags@.map_values(|t: &str| t@);
    let mut anns: Vec<Annotation> = Vec::new();
    for i in 0..n
        invariant
            n <= offsets@.len(),
            n <= pos_tags@.len(),
            tags == pos_tags@.map_values(|t: &str| t@),
            anns@ == pos_annotations_prefix(offsets@, tags, i as nat),
    {
        assert(tags[i as int] == pos_tags@[i as int]@);
        match map_ltp_pos_tag(pos_tags[i]) {
            Some(kind) => {
                anns.push(Annotation { start_offset: offsets[i].0, end_offset: offsets[i].1, kind });
            }
            None => {}
        }
    }
    anns
}

/// Where a word sits in a named entity.
#[derive(Debug, Clone, Copy, PartialEq, Eq, Structural)]
pub enum NerPosition {
    Single,
    Begin,
    Inside,
    End,
}

/// Index of the first `c` in `s`, or -1.
pub open spec fn first_index_of(s: Seq<char>, c: char) -> int
    decreases s.len(),
{
    if s.len() == 0 {
        -1
    } else if s[0] == c {
        0
    } else {
        let r = first_index_of(s.drop_first(), c);
        if r < 0 { -1 } else { r + 1 }
    }
}

/// One letter, in either case.
pub open spec fn is_letter_ci(c: char, lower: char, upper: char) -> bool {
    c == lower || c == upper
}

/// Position part of an NER tag (`S`, `B`, `I`, `E`, either case).
pub open spec fn ner_position_spec(p: Seq<char>) -> Option<NerPosition> {
    if p.len() != 1 {
        None
    } else if is_letter_ci(p[0], 's', 'S') {
        Some(NerPosition::Single)
    } else if is_letter_ci(p[0], 'b', 'B') {
        Some(NerPosition::Begin)
    } else if is_letter_ci(p[0], 'i', 'I') {
        Some(NerPosition::Inside)
    } else if is_letter_ci(p[0], 'e', 'E') {
        Some(NerPosition::End)
    } else {
        None
    }
}

/// Entity part of an NER tag, compared without regard to ASCII case:
/// `nh` is a person, `ns` a location, `ni` an organization.
pub open spec fn ner_entity_spec(e: Seq<char>) -> Option<AnnotationKind> {
    if e.len() != 2 || !is_letter_ci(e[0], 'n', 'N') {
        None
    } else if is_letter_ci(e[1], 'h', 'H') {
        Some(AnnotationKind::Person)
    } else if is_letter_ci(e[1], 's', 'S') {
        Some(AnnotationKind::Location)
    } else if is_letter_ci(e[1], 'i', 'I') {
        Some(AnnotationKind::Organization)
    } else {
        None
    }
}

/// Meaning of an NER tag `POSITION-ENTITY` (split at the first `-`); `O` is no entity.
pub open spec fn ner_tag_spec(tag: Seq<char>) -> Option<(NerPosition, AnnotationKind)> {
    let d = first_index_of(tag, '-');
    if tag == "O"@ || tag == "o"@ || d < 0 {
        None
    } else {
        match (ner_position_spec(tag.take(d)), ner_entity_spec(tag.skip(d + 1))) {
            (Some(p), Some(k)) => Some((p, k)),
            _ => None,
        }
    }
}

proof fn lemma_first_index_of(s: Seq<char>, c: char)
    ensures
        first_index_of(s, c) < 0 <==> (forall|k: int| 0 <= k < s.len() ==> s[k] != c),
        first_index_of(s, c) >= 0 ==> first_index_of(s, c) < s.len() && s[first_index_of(s, c)] == c
            && forall|k: int| 0 <= k < first_index_of(s, c) ==> s[k] != c,
    decreases s.len(),
{
    if s.len() > 0 && s[0] != c {
        let t = s.drop_first();
        lemma_first_index_of(t, c);
        assert forall|k: int| 0 < k < s.len() implies s[k] == t[k - 1] by {}
    }
}

/// Parses an NER tag.
pub fn parse_ner_tag(tag: &str) -> (r: Option<(NerPosition, AnnotationKind)>)
    ensures
        r == ner_tag_spec(tag@),
{
    if str_eq(tag, "O") || str_eq(tag, "o") {
        return None;
    }
    let chars = str_chars(tag);
    let mut d: usize = 0;
    while d < chars.len() && chars[d] != '-'
        invariant
            chars@ == tag@,
            d <= chars@.len(),
            forall|k: int| 0 <= k < d ==> chars@[k] != '-',
        decreases chars@.len() - d,
    {
        d = d + 1;
    }
    proof {
        lemma_first_index_of(tag@, '-');
    }
    if d == chars.len() {
        return None;
    }
    assert(first_index_of(tag@, '-') == d) by {
        let f = first_index_of(tag@, '-');
        if f < d {
            assert(chars@[f] != '-');
        }
    }
    let position = if d != 1 {
        None
    } else if chars[0] == 's' || chars[0] == 'S' {
        Some(NerPosition::Single)
    } else if chars[0] == 'b' || chars[0] == 'B' {
        Some(NerPosition::Begin)
    } else if chars[0] == 'i' || chars[0] == 'I' {
        Some(NerPosition::Inside)
    } else if chars[0] == 'e' || chars[0] == 'E' {
        Some(NerPosition::End)
    } else {
        None
    };
    assert(position == ner_position_spec(tag@.take(d as int)));
    let rest: usize = chars.len() - d - 1;
    let kind = if rest != 2 || !(chars[d + 1] == 'n' || chars[d + 1] == 'N') {
        None
    } else if chars[d + 2] == 'h' || chars[d + 2] == 'H' {
        Some(AnnotationKind::Person)
    } else if chars[d + 2] == 's' || chars[d + 2] == 'S' {
        Some(AnnotationKind::Location)
    } else if chars[d + 2] == 'i' || chars[d + 2] == 'I' {
        Some(AnnotationKind::Organization)
    } else {
        None
    };
    assert(kind == ner_entity_spec(tag@.skip(d + 1)));
    match (position, kind) {
        (Some(p), Some(k)) => Some((p, k)),
        _ => None,
    }
}

/// State while merging NER tags: annotations so far and the open entity.
pub struct NerState {
    pub anns: Seq<Annotation>,
    pub active_start: Option<u64>,
    pub active_kind: Option<AnnotationKind>,
}

/// One word: `S` emits an entity, `B` opens one, `I` continues, `E` closes an
/// open entity; an untagged word or an unknown tag drops the open entity.
pub open spec fn ner_step(st: NerState, range: (u64, u64), tag: Seq<char>) -> NerState {
    match ner_tag_spec(tag) {
        None => NerState { anns: st.anns, active_start: None, active_kind: None },
        Some((NerPosition::Single, kind)) => NerState {
            anns: st.anns.push(Annotation { start_offset: range.0, end_offset: range.1, kind }),
            active_start: None,
            active_kind: None,
        },
        Some((NerPosition::Begin, kind)) => NerState {
            anns: st.anns,
            active_start: Some(range.0),
            active_kind: Some(kind),
        },
        Some((NerPosition::Inside, _)) => st,
        Some((NerPosition::End, _)) => NerState {
            anns: match (st.active_start, st.active_kind) {
                (Some(s), Some(k)) => st.anns.push(Annotation { start_offset: s, end_offset: range.1, kind: k }),
                _ => st.anns,
            },
            active_start: None,
            active_kind: None,
        },
    }
}

pub open spec fn ner_prefix(offsets: Seq<(u64, u64)>, tags: Seq<Seq<char>>, n: nat) -> NerState
    decreases n,
{
    if n == 0 {
        NerState { anns: Seq::empty(), active_start: None, active_kind: None }
    } else {
        ner_step(ner_prefix(offsets, tags, (n - 1) as nat), offsets[n - 1], tags[n - 1])
    }
}

/// Whether `a` spans whole words: it starts where word `i` starts and ends where
/// word `j` ends, for some `i <= j < n`.
pub open spec fn on_word_bounds(offsets: Seq<(u64, u64)>, n: nat, a: Annotation) -> bool {
    exists|i: int, j: int|
        0 <= i <= j < n && a.start_offset == (#[trigger] offsets[i]).0 && a.end_offset == (#[trigger] offsets[j]).1
}

/// Law: every entity annotation spans whole words, from the start of one word
/// to the end of the same or a later word.
pub proof fn lemma_ner_entities_on_word_bounds(offsets: Seq<(u64, u64)>, tags: Seq<Seq<char>>, n: nat)
    requires
        n <= offsets.len(),
        n <= tags.len(),
    ensures
        forall|k: int|
            0 <= k < ner_prefix(offsets, tags, n).anns.len() ==> on_word_bounds(
                offsets,
                n,
                #[trigger] ner_prefix(offsets, tags, n).anns[k],
            ),
        ner_prefix(offsets, tags, n).active_start matches Some(s) ==> exists|i: int|
            0 <= i < n && s == (#[trigger] offsets[i]).0,
        ner_prefix(offsets, tags, n).active_start is Some <==> ner_prefix(offsets, tags, n).active_kind is Some,
    decreases n,
{
    if n > 0 {
        let m = (n - 1) as nat;
        lemma_ner_entities_on_word_bounds(offsets, tags, m);
        let prev = ner_prefix(offsets, tags, m);
        let cur = ner_prefix(offsets, tags, n);
        assert forall|k: int| 0 <= k < prev.anns.len() implies on_word_bounds(offsets, n, #[trigger] prev.anns[k]) by {
            assert(on_word_bounds(offsets, m, prev.anns[k]));
            let (i, j) = choose|i: int, j: int|
                0 <= i <= j < m && prev.anns[k].start_offset == (#[trigger] offsets[i]).0 && prev.anns[k].end_offset
                    == (#[trigger] offsets[j]).1;
            assert(0 <= i <= j < n && prev.anns[k].start_offset == offsets[i].0 && prev.anns[k].end_offset
                == offsets[j].1);
        }
        match ner_tag_spec(tags[m as int]) {
            None => {},
            Some((NerPosition::Single, kind)) => {
                let a = Annotation { start_offset: offsets[m as int].0, end_offset: offsets[m as int].1, kind };
                assert(on_word_bounds(offsets, n, a)) by {
                    assert(0 <= m <= m < n && a.start_offset == offsets[m as int].0 && a.end_offset
                        == offsets[m as int].1);
                }
                assert forall|k: int| 0 <= k < cur.anns.len() implies on_word_bounds(offsets, n, #[trigger] cur.anns[k]) by {
                    if k < prev.anns.len() {
                        assert(cur.anns[k] == prev.anns[k]);
                    }
                }
            },
            Some((NerPosition::Begin, kind)) => {
                assert(0 <= m < n && offsets[m as int].0 == offsets[m as int].0);
            },
            Some((NerPosition::Inside, _)) => {
                if let Some(s) = prev.active_start {
                    let i = choose|i: int| 0 <= i < m && s == (#[trigger] offsets[i]).0;
                    assert(0 <= i < n && s == offsets[i].0);
                }
            },
            Some((NerPosition::End, _)) => {
                match (prev.active_start, prev.active_kind) {
                    (Some(s), Some(kd)) => {
                        let i = choose|i: int| 0 <= i < m && s == (#[trigger] offsets[i]).0;
                        let a = Annotation { start_offset: s, end_offset: offsets[m as int].1, kind: kd };
                        assert(on_word_bounds(offsets, n, a)) by {
                            assert(0 <= i <= m < n && a.start_offset == offsets[i].0 && a.end_offset
                                == offsets[m as int].1);
                        }
                        assert forall|k: int| 0 <= k < cur.anns.len() implies on_word_bounds(
                            offsets,
                            n,
                            #[trigger] cur.anns[k],
                        ) by {
                            if k < prev.anns.len() {
                                assert(cur.anns[k] == prev.anns[k]);
                            }
                        }
                    },
                    _ => {},
                }
            },
        }
    }
}

/// Merges per-word NER tags into entity annotations.
pub fn ner_annotations_from_offsets(offsets: &[(u64, u64)], ner_tags: &[&str]) -> (anns: Vec<Annotation>)
    ensures
        anns@ == ner_prefix(
            offsets@,
            ner_tags@.map_values(|t: &str| t@),
            zip_len(offsets@.len(), ner_tags@.len()),
        ).anns,
{
    let n: usize = if offsets.len() <= ner_tags.len() { offsets.len() } else { ner_tags.len() };
    let ghost tags = ner_tags@.map_values(|t: &str| t@);
    let mut annotations: Vec<Annotation> = Vec::new();
    let mut active_start: Option<u64> = None;
    let mut active_kind: Option<AnnotationKind> = None;
    for i in 0..n
        invariant
            n <= offsets@.len(),
            n <= ner_tags@.len(),
            tags == ner_tags@.map_values(|t: &str| t@),
            ({
                let st = ner_prefix(offsets@, tags, i as nat);
                &&& st.anns == annotations@
                &&& st.active_start == active_start
                &&& st.active_kind == active_kind
            }),
    {
        assert(tags[i as int] == ner_tags@[i as int]@);
        let (start_offset, end_offset) = offsets[i];
        match parse_ner_tag(ner_tags[i]) {
            None => {
                active_start = None;
                active_kind = None;
            }
            Some((position, kind)) => {
                match position {
                    NerPosition::Single => {
                        annotations.push(Annotation { start_offset, end_offset, kind });
                        active_start = None;
                        active_kind = None;
                    }
                    NerPosition::Begin => {
                        active_start = Some(start_offset);
                        active_kind = Some(kind);
                    }
                    NerPosition::Inside => {}
                    NerPosition::End => {
                        match (active_start, active_kind) {
                            (Some(entity_start), Some(entity_kind)) => {
                                annotations.push(
                                    Annotation { start_offset: entity_start, end_offset, kind: entity_kind },
                                );
                            }
                            _ => {}
                        }
                        active_start = None;
                        active_kind = None;
                    }
                }
            }
        }
    }
    annotations
}

} // verus!
