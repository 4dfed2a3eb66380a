use vstd::prelude::*;
use crate::highlight::analyzer::TextAnalyzer;
use crate::highlight::annotation::AnnotationKind;
use crate::utf8_text::{str_eq, char_boundary};

verus! {

/// Highlight kind of a jieba part-of-speech tag.
pub open spec fn jieba_kind(tag: Seq<char>) -> Option<AnnotationKind> {
    if tag == "n"@ || tag == "nr"@ || tag == "ns"@ || tag == "nt"@ || tag == "nz"@ {
        Some(AnnotationKind::Noun)
    } else if tag == "v"@ || tag == "vd"@ || tag == "vn"@ {
        Some(AnnotationKind::Verb)
    } else if tag == "r"@ {
        Some(AnnotationKind::Pronoun)
    } else if tag == "d"@ {
        Some(AnnotationKind::Adverb)
    } else if tag == "a"@ || tag == "ad"@ || tag == "an"@ {
        Some(AnnotationKind::Adjective)
    } else {
        None
    }
}

/// Law: jieba's tag table. The noun tags `n`, `nr` (person), `ns` (place), `nt`
/// (organization) and `nz` (other proper noun) are nouns; `v`, `vd`, `vn` verbs;
/// `r` a pronoun; `d` an adverb; `a`, `ad`, `an` adjectives; a tag outside these
/// lists (such as `m`, `x` or the empty tag) is not highlighted.
pub proof fn lemma_jieba_tag_table()
    ensures
        jieba_kind("n"@) == Some(AnnotationKind::Noun),
        jieba_kind("nr"@) == Some(AnnotationKind::Noun),
        jieba_kind("ns"@) == Some(AnnotationKind::Noun),
        jieba_kind("nt"@) == Some(AnnotationKind::Noun),
        jieba_kind("nz"@) == Some(AnnotationKind::Noun),
        jieba_kind("v"@) == Some(AnnotationKind::Verb),
        jieba_kind("vd"@) == Some(AnnotationKind::Verb),
        jieba_kind("vn"@) == Some(AnnotationKind::Verb),
        jieba_kind("r"@) == Some(AnnotationKind::Pronoun),
        jieba_kind("d"@) == Some(AnnotationKind::Adverb),
        jieba_kind("a"@) == Some(AnnotationKind::Adjective),
        jieba_kind("ad"@) == Some(AnnotationKind::Adjective),
        jieba_kind("an"@) == Some(AnnotationKind::Adjective),
        jieba_kind("m"@) is None,
        jieba_kind("x"@) is None,
        jieba_kind(Seq::<char>::empty()) is None,
{
    reveal_strlit("n");
    reveal_strlit("nr");
    reveal_strlit("ns");
    reveal_strlit("nt");
    reveal_strlit("nz");
    reveal_strlit("v");
    reveal_strlit("vd");
    reveal_strlit("vn");
    reveal_strlit("r");
    reveal_strlit("d");
    reveal_strlit("a");
    reveal_strlit("ad");
    reveal_strlit("an");
    reveal_strlit("m");
    reveal_strlit("x");
    assert("n"@[0] == 'n');
    assert("nr"@[0] == 'n');
    assert("ns"@[0] == 'n');
    assert("nt"@[0] == 'n');
    assert("nz"@[0] == 'n');
    assert("v"@[0] == 'v');
    assert("vd"@[0] == 'v');
    assert("vn"@[0] == 'v');
    assert("r"@[0] == 'r');
    assert("d"@[0] == 'd');
    assert("a"@[0] == 'a');
    assert("ad"@[0] == 'a');
    assert("an"@[0] == 'a');
    assert("m"@[0] == 'm');
    assert("x"@[0] == 'x');
    assert("v"@ != "n"@ && "v"@ != "nr"@ && "v"@ != "ns"@ && "v"@ != "nt"@ && "v"@ != "nz"@);
    assert("n"@.len() > 0);
    assert("nr"@.len() > 0);
    assert("ns"@.len() > 0);
    assert("nt"@.len() > 0);
    assert("nz"@.len() > 0);
    assert("v"@.len() > 0);
    assert("vd"@.len() > 0);
    assert("vn"@.len() > 0);
    assert("r"@.len() > 0);
    assert("d"@.len() > 0);
    assert("a"@.len() > 0);
    assert("ad"@.len() > 0);
    assert("an"@.len() > 0);
    assert("vd"@ != "n"@ && "vd"@ != "nr"@ && "vd"@ != "ns"@ && "vd"@ != "nt"@ && "vd"@ != "nz"@);
}

/// Maps a jieba part-of-speech tag to the highlight it gets, if any.
pub fn map_jieba_tag(tag: &str) -> (k: Option<AnnotationKind>)
    ensures
        k == jieba_kind(tag@),
{
    if str_eq(tag, "n") || str_eq(tag, "nr") || str_eq(tag, "ns") || str_eq(tag, "nt") || str_eq(tag, "nz") {
        Some(AnnotationKind::Noun)
    } else if str_eq(tag, "v") || str_eq(tag, "vd") || str_eq(tag, "vn") {
        Some(AnnotationKind::Verb)
    } else if str_eq(tag, "r") {
        Some(AnnotationKind::Pronoun)
    } else if str_eq(tag, "d") {
        Some(AnnotationKind::Adverb)
    } else if str_eq(tag, "a") || str_eq(tag, "ad") || str_eq(tag, "an") {
        Some(AnnotationKind::Adjective)
    } else {
        None
    }
}

} // verus!

verus! {

broadcast use vstd::string::group_string_axioms;

/// The jieba segmenter of the `jieba-rs` crate.
#[verifier::external_type_specification]
#[verifier::external_body]
pub struct ExJieba(jieba_rs::Jieba);

/// One tagged word: its byte range in the analyzed text and its tag.
pub struct JiebaTag {
    pub byte_start: usize,
    pub byte_end: usize,
    pub tag: String,
}

pub open spec fn jieba_tag_spec(t: JiebaTag) -> (nat, nat, Seq<char>) {
    (t.byte_start as nat, t.byte_end as nat, t.tag@)
}

/// What `Jieba::tag(text, true)` of a `Jieba::new()` segmenter yields for `text`:
/// each word's byte range and part-of-speech tag, in order.
pub uninterp spec fn spec_jieba_tags(text: Seq<char>) -> Seq<(nat, nat, Seq<char>)>;

/// Calls `Jieba::new` of `jieba-rs`: a segmenter with the embedded default dictionary.
#[verifier::external_body]
fn jieba_default() -> (j: jieba_rs::Jieba) {
    jieba_rs::Jieba::new()
}

/// A tagged word's range `t` lies in `text`: `t.0 <= t.1 <= text`'s byte length,
/// both ends on character boundaries.
pub open spec fn word_range_in(text: Seq<char>, t: (nat, nat, Seq<char>)) -> bool {
    &&& t.0 <= t.1 <= vstd::utf8::encode_utf8(text).len()
    &&& char_boundary(text, t.0)
    &&& char_boundary(text, t.1)
}

/// Calls `Jieba::tag` with the HMM enabled. Claimed of it: the result is a
/// function of the text (named `spec_jieba_tags`; the analyzer only ever holds
/// the segmenter `Jieba::new()` builds), and each word is a `&str` slice of the
/// text, so `byte_start <= byte_end <= text.len()` and both ends lie on
/// character boundaries (its source computes the range from the word's address
/// within the text and the word's length).
#[verifier::external_body]
fn jieba_tag(jieba: &jieba_rs::Jieba, text: &str) -> (tags: Vec<JiebaTag>)
    ensures
        tags@.map_values(|t: JiebaTag| jieba_tag_spec(t)) == spec_jieba_tags(text@),
        forall|k: int| 0 <= k < tags@.len() ==> word_range_in(text@, jieba_tag_spec(#[trigger] tags@[k])),
{
    jieba
        .tag(text, true)
        .into_iter()
        .map(|t| JiebaTag { byte_start: t.byte_start, byte_end: t.byte_end, tag: t.tag.to_string() })
        .collect()
}

/// Annotations for tagged words: words with a highlighted tag and a non-empty
/// range, shifted by `base_offset`, in order.
pub open spec fn tag_annotations(tags: Seq<(nat, nat, Seq<char>)>, base_offset: nat) -> Seq<
    crate::highlight::annotation::Annotation,
>
    decreases tags.len(),
{
    if tags.len() == 0 {
        Seq::empty()
    } else {
        let prev = tag_annotations(tags.drop_last(), base_offset);
        let t = tags.last();
        match jieba_kind(t.2) {
            Some(kind) => if t.0 < t.1 {
                prev.push(
                    crate::highlight::annotation::Annotation {
                        start_offset: (base_offset + t.0) as u64,
                        end_offset: (base_offset + t.1) as u64,
                        kind,
                    },
                )
            } else {
                prev
            },
            None => prev,
        }
    }
}

/// Every annotation made from tagged words comes from one word with a non-empty
/// range, shifted by `base_offset`.
proof fn lemma_tag_annotation_source(tags: Seq<(nat, nat, Seq<char>)>, base_offset: nat, k: int)
    requires
        0 <= k < tag_annotations(tags, base_offset).len(),
        forall|j: int| 0 <= j < tags.len() ==> base_offset + (#[trigger] tags[j]).1 <= u64::MAX,
    ensures
        exists|j: int|
            0 <= j < tags.len() && (#[trigger] tags[j]).0 < tags[j].1 && tag_annotations(tags, base_offset)[k].start_offset
                == base_offset + tags[j].0 && tag_annotations(tags, base_offset)[k].end_offset == base_offset + tags[j].1,
    decreases tags.len(),
{
    let prev = tag_annotations(tags.drop_last(), base_offset);
    let t = tags.last();
    let j = tags.len() - 1;
    assert(tags[j] == t);
    if k < prev.len() {
        assert forall|i: int| 0 <= i < tags.drop_last().len() implies base_offset + (#[trigger] tags.drop_last()[i]).1
            <= u64::MAX by {
            assert(tags.drop_last()[i] == tags[i]);
        }
        lemma_tag_annotation_source(tags.drop_last(), base_offset, k);
        let i = choose|i: int|
            0 <= i < tags.drop_last().len() && (#[trigger] tags.drop_last()[i]).0 < tags.drop_last()[i].1
                && prev[k].start_offset == base_offset + tags.drop_last()[i].0 && prev[k].end_offset
                == base_offset + tags.drop_last()[i].1;
        assert(tags.drop_last()[i] == tags[i]);
        assert(tag_annotations(tags, base_offset)[k] == prev[k]);
    } else {
        assert(base_offset + t.1 <= u64::MAX);
        assert(tag_annotations(tags, base_offset)[k].start_offset == base_offset + tags[j].0);
    }
}

/// Turns jieba's tagged words into annotations.
pub fn annotations_from_tags(tags: &Vec<JiebaTag>, base_offset: u64) -> (anns: Vec<crate::highlight::annotation::Annotation>)
    requires
        forall|k: int| 0 <= k < tags@.len() ==> base_offset + (#[trigger] tags@[k]).byte_end <= u64::MAX,
    ensures
        anns@ == tag_annotations(tags@.map_values(|t: JiebaTag| jieba_tag_spec(t)), base_offset as nat),
{
    let ghost ts = tags@.map_values(|t: JiebaTag| jieba_tag_spec(t));
    let mut anns: Vec<crate::highlight::annotation::Annotation> = Vec::new();
    for i in 0..tags.len()
        invariant
            ts == tags@.map_values(|t: JiebaTag| jieba_tag_spec(t)),
            forall|k: int| 0 <= k < tags@.len() ==> base_offset + (#[trigger] tags@[k]).byte_end <= u64::MAX,
            anns@ == tag_annotations(ts.take(i as int), base_offset as nat),
    {
        let t = &tags[i];
        assert(ts.take(i + 1).drop_last() =~= ts.take(i as int));
        assert(ts.take(i + 1).last() == jieba_tag_spec(tags@[i as int]));
        match map_jieba_tag(t.tag.as_str()) {
            Some(kind) => {
                if t.byte_start < t.byte_end {
                    anns.push(crate::highlight::annotation::Annotation {
                        start_offset: base_offset + t.byte_start as u64,
                        end_offset: base_offset + t.byte_end as u64,
                        kind,
                    });
                }
            }
            None => {}
        }
    }
    assert(ts.take(ts.len() as int) =~= ts);
    anns
}

/// Part-of-speech highlighting with jieba.
pub struct JiebaAnalyzer {
    jieba: jieba_rs::Jieba,
}

impl JiebaAnalyzer {
    /// An analyzer using jieba's embedded default dictionary.
    pub fn new() -> JiebaAnalyzer {
        JiebaAnalyzer { jieba: jieba_default() }
    }
}

impl TextAnalyzer for JiebaAnalyzer {
    fn analyzer_id(&self) -> (id: &'static str)
        ensures
            id@ == "jieba"@,
    {
        "jieba"
    }

    /// Annotations of `text`, which starts at byte `base_offset` of the book: a
    /// highlight for each word jieba tags with a highlighted part of speech; a
    /// piece whose offsets would pass the largest offset is refused.
    fn analyze(&self, text: &str, base_offset: u64) -> (res: Result<Vec<crate::highlight::annotation::Annotation>, String>)
        ensures
            match res {
                Ok(found) => {
                    &&& base_offset + vstd::utf8::encode_utf8(text@).len() <= u64::MAX
                    &&& found@ == tag_annotations(spec_jieba_tags(text@), base_offset as nat)
                    &&& forall|k: int|
                        0 <= k < found@.len() ==> {
                            let a = #[trigger] found@[k];
                            &&& base_offset <= a.start_offset < a.end_offset <= base_offset
                                + vstd::utf8::encode_utf8(text@).len()
                            &&& char_boundary(text@, (a.start_offset - base_offset) as nat)
                            &&& char_boundary(text@, (a.end_offset - base_offset) as nat)
                        }
                },
                Err(_) => base_offset + vstd::utf8::encode_utf8(text@).len() > u64::MAX,
            },
    {
        let len: usize = text.as_bytes().len();
        assert(len == vstd::utf8::encode_utf8(text@).len());
        if base_offset > u64::MAX - (len as u64) {
            return Err(crate::highlight::analyzer::string_from_str("text offsets pass the largest offset"));
        }
        let tags = jieba_tag(&self.jieba, text);
        let found = annotations_from_tags(&tags, base_offset);
        proof {
            let ts = tags@.map_values(|t: JiebaTag| jieba_tag_spec(t));
            assert forall|j: int| 0 <= j < ts.len() implies word_range_in(text@, #[trigger] ts[j]) by {
                assert(ts[j] == jieba_tag_spec(tags@[j]));
            }
            assert forall|j: int| 0 <= j < ts.len() implies base_offset + (#[trigger] ts[j]).1 <= u64::MAX by {
                assert(word_range_in(text@, ts[j]));
            }
            assert forall|k: int| 0 <= k < found@.len() implies {
                let a = #[trigger] found@[k];
                &&& base_offset <= a.start_offset < a.end_offset <= base_offset + vstd::utf8::encode_utf8(text@).len()
                &&& char_boundary(text@, (a.start_offset - base_offset) as nat)
                &&& char_boundary(text@, (a.end_offset - base_offset) as nat)
            } by {
                lemma_tag_annotation_source(ts, base_offset as nat, k);
                let j = choose|j: int|
                    0 <= j < ts.len() && (#[trigger] ts[j]).0 < ts[j].1 && tag_annotations(ts, base_offset as nat)[k].start_offset
                        == base_offset + ts[j].0 && tag_annotations(ts, base_offset as nat)[k].end_offset == base_offset
                        + ts[j].1;
                assert(word_range_in(text@, ts[j]));
                assert((found@[k].start_offset - base_offset) as nat == ts[j].0);
                assert((found@[k].end_offset - base_offset) as nat == ts[j].1);
            }
        }
        Ok(found)
    }
}

} // verus!
