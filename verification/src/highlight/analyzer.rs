//! Analyzer selection and word-to-offset alignment.
use vstd::prelude::*;
use vstd::utf8::*;
use crate::utf8_text::str_eq;

verus! {

broadcast use vstd::string::group_string_axioms;

/// The available text analyzers.
#[derive(Debug, Clone, Copy, PartialEq, Eq, Structural)]
pub enum AnalyzerKind {
    Jieba,
    LtpLegacyPos,
    LtpLegacyNer,
}

pub open spec fn analyzer_id_spec(kind: AnalyzerKind) -> Seq<char> {
    match kind {
        AnalyzerKind::Jieba => "jieba"@,
        AnalyzerKind::LtpLegacyPos => "ltp-pos"@,
        AnalyzerKind::LtpLegacyNer => "ltp-ner"@,
    }
}

pub open spec fn next_kind_spec(kind: AnalyzerKind) -> AnalyzerKind {
    match kind {
        AnalyzerKind::Jieba => AnalyzerKind::LtpLegacyPos,
        AnalyzerKind::LtpLegacyPos => AnalyzerKind::LtpLegacyNer,
        AnalyzerKind::LtpLegacyNer => AnalyzerKind::Jieba,
    }
}

impl AnalyzerKind {
    /// Identifier used in the UI and in annotation cache paths.
    pub fn analyzer_id(self) -> (id: &'static str)
        ensures
            id@ == analyzer_id_spec(self),
    {
        match self {
            AnalyzerKind::Jieba => "jieba",
            AnalyzerKind::LtpLegacyPos => "ltp-pos",
            AnalyzerKind::LtpLegacyNer => "ltp-ner",
        }
    }

    /// The analyzer after this one in the home screen's cycle.
    pub fn next(self) -> (k: AnalyzerKind)
        ensures
            k == next_kind_spec(self),
    {
        match self {
            AnalyzerKind::Jieba => AnalyzerKind::LtpLegacyPos,
            AnalyzerKind::LtpLegacyPos => AnalyzerKind::LtpLegacyNer,
            AnalyzerKind::LtpLegacyNer => AnalyzerKind::Jieba,
        }
    }
}

/// A text analyzer: the annotations, with absolute byte offsets, of a piece
/// of the book that starts at byte `base_offset`.
pub trait TextAnalyzer {
    /// Identifier used in the UI and in annotation cache paths.
    fn analyzer_id(&self) -> &'static str;

    fn analyze(&self, text: &str, base_offset: u64) -> Result<Vec<crate::highlight::annotation::Annotation>, String>;
}

/// Law: cycling through the analyzers three times returns to the start, and
/// every step changes the analyzer.
pub proof fn lemma_analyzer_cycle(kind: AnalyzerKind)
    ensures
        next_kind_spec(next_kind_spec(next_kind_spec(kind))) == kind,
        next_kind_spec(kind) != kind,
{
}

/// Whether `needle` occurs in `hay` at byte position `p`.
pub open spec fn occurs_at(hay: Seq<u8>, needle: Seq<u8>, p: int) -> bool {
    0 <= p && p + needle.len() <= hay.len() && hay.subrange(p, p + needle.len()) == needle
}

/// First position at or after `from` where `needle` occurs in `hay`, or -1.
pub open spec fn first_occurrence(hay: Seq<u8>, needle: Seq<u8>, from: int) -> int
    decreases hay.len() + 1 - from,
{
    if from < 0 || from + needle.len() > hay.len() {
        -1
    } else if occurs_at(hay, needle, from) {
        from
    } else {
        first_occurrence(hay, needle, from + 1)
    }
}

/// Outcome of aligning the first `n` words: their byte ranges (relative to the
/// text) and the cursor after them, or the index of the first word not found.
pub open spec fn align_prefix(hay: Seq<u8>, words: Seq<Seq<u8>>, n: nat) -> Result<(Seq<(nat, nat)>, nat), nat>
    decreases n,
{
    if n == 0 {
        Ok((Seq::empty(), 0))
    } else {
        match align_prefix(hay, words, (n - 1) as nat) {
            Err(i) => Err(i),
            Ok((ranges, cursor)) => {
                let p = first_occurrence(hay, words[n - 1], cursor as int);
                if p < 0 {
                    Err((n - 1) as nat)
                } else {
                    Ok((ranges.push((p as nat, (p + words[n - 1].len()) as nat)), (p + words[n - 1].len()) as nat))
                }
            }
        }
    }
}

/// A word that could not be found in the text after the previous words.
#[derive(Debug, Clone, PartialEq, Eq)]
pub struct AlignError {
    pub word: String,
}

impl AlignError {
    /// The error text.
    pub fn message(&self) -> (m: String)
        ensures
            m@ == "cannot align word: "@ + self.word@,
    {
        let mut m = String::new();
        crate::cover::terminal::string_push_str(&mut m, "cannot align word: ");
        crate::cover::terminal::string_push_str(&mut m, self.word.as_str());
        m
    }
}

/// Finds the first occurrence of `needle` in `hay` at or after `from`.
fn find_from(hay: &[u8], needle: &[u8], from: usize) -> (p: Option<usize>)
    requires
        from <= hay@.len(),
    ensures
        match p {
            Some(i) => i == first_occurrence(hay@, needle@, from as int),
            None => first_occurrence(hay@, needle@, from as int) < 0,
        },
{
    let hay_len: usize = hay.len();
    if needle.len() > hay.len() {
        proof {
            lemma_first_occurrence_none_beyond(hay@, needle@, from as int);
        }
        return None;
    }
    if needle.len() == 0 {
        assert(hay@.subrange(from as int, from as int) =~= needle@);
        return Some(from);
    }
    let last_start: usize = hay.len() - needle.len();
    let mut i: usize = from;
    while i <= last_start
        invariant
            from <= i,
            last_start + needle@.len() == hay@.len(),
            hay@.len() == hay_len,
            needle@.len() >= 1,
            first_occurrence(hay@, needle@, from as int) == first_occurrence(hay@, needle@, i as int),
        decreases last_start + 1 - i,
    {
        let mut j: usize = 0;
        let mut matched: bool = true;
        while j < needle.len()
            invariant
                j <= needle@.len(),
                i <= last_start,
                last_start + needle@.len() == hay@.len(),
                hay@.len() == hay_len,
                matched ==> forall|k: int| 0 <= k < j ==> hay@[i + k] == needle@[k],
                !matched ==> !occurs_at(hay@, needle@, i as int),
            decreases needle@.len() - j,
        {
            if hay[i + j] != needle[j] {
                matched = false;
                assert(hay@.subrange(i as int, i + needle@.len())[j as int] == hay@[i + j]);
            }
            j = j + 1;
        }
        if matched {
            assert(hay@.subrange(i as int, i + needle@.len()) =~= needle@);
            return Some(i);
        }
        i = i + 1;
    }
    proof {
        lemma_first_occurrence_none_beyond(hay@, needle@, i as int);
    }
    None
}

/// A found occurrence is an occurrence, at or after the search start.
pub proof fn lemma_first_occurrence_found(hay: Seq<u8>, needle: Seq<u8>, from: int)
    ensures
        first_occurrence(hay, needle, from) >= 0 ==> from <= first_occurrence(hay, needle, from)
            && occurs_at(hay, needle, first_occurrence(hay, needle, from)),
    decreases hay.len() + 1 - from,
{
    if !(from < 0 || from + needle.len() > hay.len()) && !occurs_at(hay, needle, from) {
        lemma_first_occurrence_found(hay, needle, from + 1);
    }
}

/// Law: aligned words lie in the text in order: each range holds exactly its
/// word's bytes and starts at or after the end of the range before it.
pub proof fn lemma_align_ranges_hold_words(hay: Seq<u8>, words: Seq<Seq<u8>>, n: nat)
    ensures
        align_prefix(hay, words, n) matches Ok((ranges, cursor)) ==> {
            &&& ranges.len() == n
            &&& cursor <= hay.len()
            &&& forall|k: int| 0 <= k < n ==> occurs_at(hay, words[k], (#[trigger] ranges[k]).0 as int)
                && ranges[k].1 == ranges[k].0 + words[k].len()
            &&& forall|k: int| 0 <= k < n - 1 ==> (#[trigger] ranges[k]).1 <= ranges[k + 1].0
            &&& n > 0 ==> cursor == ranges[n - 1].1
        },
    decreases n,
{
    if n > 0 {
        lemma_align_ranges_hold_words(hay, words, (n - 1) as nat);
        match align_prefix(hay, words, (n - 1) as nat) {
            Err(_) => {},
            Ok((ranges, cursor)) => {
                lemma_first_occurrence_found(hay, words[n - 1], cursor as int);
                let p = first_occurrence(hay, words[n - 1], cursor as int);
                if p >= 0 {
                    let out = ranges.push((p as nat, (p + words[n - 1].len()) as nat));
                    assert forall|k: int| 0 <= k < n implies occurs_at(hay, words[k], (#[trigger] out[k]).0 as int)
                        && out[k].1 == out[k].0 + words[k].len() by {
                        if k < n - 1 {
                            assert(out[k] == ranges[k]);
                        }
                    }
                    assert forall|k: int| 0 <= k < n - 1 implies (#[trigger] out[k]).1 <= out[k + 1].0 by {
                        assert(out[k] == ranges[k]);
                        if k < n - 2 {
                            assert(out[k + 1] == ranges[k + 1]);
                        }
                    }
                }
            },
        }
    }
}

/// Once a word fails to align, aligning more words fails at the same word.
pub proof fn lemma_align_err_stable(hay: Seq<u8>, words: Seq<Seq<u8>>, n: nat, m: nat)
    requires
        n <= m,
        align_prefix(hay, words, n) is Err,
    ensures
        align_prefix(hay, words, m) == align_prefix(hay, words, n),
    decreases m - n,
{
    if m > n {
        lemma_align_err_stable(hay, words, n, (m - 1) as nat);
    }
}

proof fn lemma_first_occurrence_none_beyond(hay: Seq<u8>, needle: Seq<u8>, from: int)
    requires
        from + needle.len() > hay.len(),
    ensures
        first_occurrence(hay, needle, from) < 0,
{
}

/// Finds each word in the text, in order, each search starting where the
/// previous word ended, and returns their byte ranges shifted by `base_offset`.
/// Fails with the first word that cannot be found.
pub fn align_words_to_offsets(text: &str, words: &[&str], base_offset: u64) -> (r: Result<Vec<(u64, u64)>, AlignError>)
    requires
        base_offset + encode_utf8(text@).len() <= u64::MAX,
    ensures
        ({
            let hay = encode_utf8(text@);
            let ws = words@.map_values(|w: &str| encode_utf8(w@));
            match align_prefix(hay, ws, words@.len()) {
                Ok((ranges, _)) => r matches Ok(v) && v@.len() == ranges.len() && forall|k: int|
                    0 <= k < ranges.len() ==> (#[trigger] v@[k]).0 == base_offset + ranges[k].0
                        && v@[k].1 == base_offset + ranges[k].1,
                Err(i) => r matches Err(e) && e.word@ == words@[i as int]@,
            }
        }),
{
    let hay: &[u8] = text.as_bytes();
    let hay_len: usize = hay.len();
    let ghost ws = words@.map_values(|w: &str| encode_utf8(w@));
    let mut cursor: usize = 0;
    let mut offsets: Vec<(u64, u64)> = Vec::new();
    for wi in 0..words.len()
        invariant
            hay@ == encode_utf8(text@),
            hay@.len() == hay_len,
            base_offset + hay@.len() <= u64::MAX,
            ws == words@.map_values(|w: &str| encode_utf8(w@)),
            cursor <= hay@.len(),
            align_prefix(hay@, ws, wi as nat) matches Ok((ranges, c)) && c == cursor
                && offsets@.len() == ranges.len() && forall|k: int|
                0 <= k < ranges.len() ==> (#[trigger] offsets@[k]).0 == base_offset + ranges[k].0
                    && offsets@[k].1 == base_offset + ranges[k].1,
    {
        let word: &str = words[wi];
        let needle: &[u8] = word.as_bytes();
        assert(ws[wi as int] == needle@);
        match find_from(hay, needle, cursor) {
            None => {
                proof {
                    lemma_align_err_stable(hay@, ws, (wi + 1) as nat, words@.len());
                }
                return Err(AlignError { word: string_from_str(word) });
            }
            Some(start) => {
                proof {
                    lemma_first_occurrence_found(hay@, needle@, cursor as int);
                }
                let end: usize = start + needle.len();
                let ghost prev = offsets@;
                offsets.push((base_offset + start as u64, base_offset + end as u64));
                cursor = end;
                proof {
                    let ranges = align_prefix(hay@, ws, wi as nat)->Ok_0.0;
                    let nr = ranges.push((start as nat, end as nat));
                    assert forall|k: int| 0 <= k < nr.len() implies (#[trigger] offsets@[k]).0 == base_offset + nr[k].0
                        && offsets@[k].1 == base_offset + nr[k].1 by {
                        if k < ranges.len() {
                            assert(offsets@[k] == prev[k]);
                        }
                    }
                }
            }
        }
    }
    Ok(offsets)
}

/// An owned copy of `s`.
pub(crate) fn string_from_str(s: &str) -> (r: String)
    ensures
        r@ == s@,
{
    s.to_owned()
}

} // verus!
