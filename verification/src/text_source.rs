//! The decoded novel text, read by UTF-8 byte offsets.
use encoding_rs::GBK;
use vstd::prelude::*;
use vstd::utf8::*;
use crate::utf8_text::utf8_len;

verus! {

broadcast use vstd::string::group_string_axioms;

/// What `String::from_utf8_lossy` yields for `bytes`.
pub uninterp spec fn spec_utf8_lossy(bytes: Seq<u8>) -> Seq<char>;

/// What `encoding_rs::GBK.decode` yields for `bytes` (BOM sniffing included).
pub uninterp spec fn spec_gbk_decode(bytes: Seq<u8>) -> Seq<char>;

/// Calls `String::from_utf8_lossy`. Claimed of it: the result is a function of the
/// bytes (named `spec_utf8_lossy`); on valid UTF-8 it is exactly the decoded text,
/// as std documents. What it yields on invalid input is left unsaid.
#[verifier::external_body]
fn utf8_lossy(bytes: &[u8]) -> (s: String)
    ensures
        s@ == spec_utf8_lossy(bytes@),
        valid_utf8(bytes@) ==> s@ == decode_utf8(bytes@),
{
    String::from_utf8_lossy(bytes).into_owned()
}

/// Calls `Encoding::decode` of `encoding_rs` on `GBK`. Claimed of it: the result is
/// a function of the bytes (named `spec_gbk_decode`). What that function is (the
/// GBK table, BOM sniffing, replacement of malformed sequences) is left unsaid.
#[verifier::external_body]
fn gbk_decode(bytes: &[u8]) -> (s: String)
    ensures
        s@ == spec_gbk_decode(bytes@),
{
    let (content, _, _) = GBK.decode(bytes);
    content.into_owned()
}

/// Calls `String::from_utf8`. Claimed of it, as std documents: it succeeds exactly
/// on valid UTF-8, and then the string holds the decoded characters.
#[verifier::external_body]
pub(crate) fn string_from_utf8(bytes: Vec<u8>) -> (r: Option<String>)
    ensures
        r is Some <==> valid_utf8(bytes@),
        r matches Some(s) ==> s@ == decode_utf8(bytes@),
{
    String::from_utf8(bytes).ok()
}

/// The byte-order mark that marks UTF-8 text.
pub open spec fn utf8_bom() -> Seq<u8> {
    seq![0xefu8, 0xbbu8, 0xbfu8]
}

pub open spec fn starts_with_bom(bytes: Seq<u8>) -> bool {
    bytes.len() >= 3 && bytes.take(3) == utf8_bom()
}

/// How a raw file decodes: text after a UTF-8 BOM decodes leniently, valid UTF-8
/// decodes as is, anything else decodes as GBK.
pub open spec fn decoded_text(bytes: Seq<u8>) -> Seq<char> {
    if starts_with_bom(bytes) {
        spec_utf8_lossy(bytes.skip(3))
    } else if valid_utf8(bytes) {
        decode_utf8(bytes)
    } else {
        spec_gbk_decode(bytes)
    }
}

/// Decoded file content and whether it differs from the bytes on disk.
pub struct DecodedText {
    pub content: String,
    pub needs_utf8_cache: bool,
}

/// Copies a byte slice into a vector.
pub fn bytes_to_vec(bytes: &[u8]) -> (v: Vec<u8>)
    ensures
        v@ == bytes@,
{
    let mut v: Vec<u8> = Vec::new();
    for i in 0..bytes.len()
        invariant
            v@ == bytes@.take(i as int),
    {
        v.push(bytes[i]);
        assert(v@ =~= bytes@.take(i + 1));
    }
    assert(v@ =~= bytes@);
    v
}

/// Copies `bytes[start..end]` into a vector.
pub fn copy_range(bytes: &Vec<u8>, start: usize, end: usize) -> (v: Vec<u8>)
    requires
        start <= end <= bytes.len(),
    ensures
        v@ == bytes@.subrange(start as int, end as int),
{
    let mut v: Vec<u8> = Vec::new();
    let mut i: usize = start;
    while i < end
        invariant
            start <= i <= end <= bytes.len(),
            v@ == bytes@.subrange(start as int, i as int),
        decreases end - i,
    {
        v.push(bytes[i]);
        i = i + 1;
        assert(v@ =~= bytes@.subrange(start as int, i as int));
    }
    v
}

/// Decodes a raw text file: a leading UTF-8 BOM is dropped and the rest decoded
/// leniently, valid UTF-8 is kept, anything else is read as GBK.
/// `needs_utf8_cache` tells whether the decoded text differs from the raw bytes.
pub fn decode_text(bytes: &[u8]) -> (d: DecodedText)
    ensures
        d.content@ == decoded_text(bytes@),
        d.needs_utf8_cache == (starts_with_bom(bytes@) || !valid_utf8(bytes@)),
{
    if bytes.len() >= 3 && bytes[0] == 0xef && bytes[1] == 0xbb && bytes[2] == 0xbf {
        assert(bytes@.take(3) =~= utf8_bom());
        let all: Vec<u8> = bytes_to_vec(bytes);
        let rest: Vec<u8> = copy_range(&all, 3, all.len());
        assert(rest@ =~= bytes@.skip(3));
        let content = utf8_lossy(rest.as_slice());
        return DecodedText { content, needs_utf8_cache: true };
    }
    assert(!starts_with_bom(bytes@)) by {
        if bytes@.len() >= 3 && bytes@.take(3) == utf8_bom() {
            assert(bytes@.take(3)[0] == bytes@[0]);
            assert(bytes@.take(3)[1] == bytes@[1]);
            assert(bytes@.take(3)[2] == bytes@[2]);
        }
    }

    match string_from_utf8(bytes_to_vec(bytes)) {
        Some(content) => DecodedText { content, needs_utf8_cache: false },
        None => DecodedText { content: gbk_decode(bytes), needs_utf8_cache: true },
    }
}

/// Length of the longest prefix of `buf` that is valid UTF-8.
pub open spec fn valid_prefix_len(buf: Seq<u8>) -> nat
    decreases buf.len(),
{
    if buf.len() == 0 || valid_utf8(buf) {
        buf.len()
    } else {
        valid_prefix_len(buf.drop_last())
    }
}

/// Number of leading bytes to drop from `buf` to reach valid UTF-8.
pub open spec fn invalid_head_len(buf: Seq<u8>) -> nat
    decreases buf.len(),
{
    if buf.len() == 0 || valid_utf8(buf) {
        0
    } else {
        1 + invalid_head_len(buf.drop_first())
    }
}

/// The bytes `read_from_offset` looks at: at most `max_bytes` from `offset`.
pub open spec fn window_after(bytes: Seq<u8>, offset: int, max_bytes: int) -> Seq<u8> {
    if offset >= bytes.len() {
        Seq::empty()
    } else if bytes.len() - offset <= max_bytes {
        bytes.subrange(offset, bytes.len() as int)
    } else {
        bytes.subrange(offset, offset + max_bytes)
    }
}

/// What `read_from_offset` returns.
pub open spec fn text_after(bytes: Seq<u8>, offset: int, max_bytes: int) -> Seq<char> {
    let w = window_after(bytes, offset, max_bytes);
    decode_utf8(w.take(valid_prefix_len(w) as int))
}

/// End of the window `read_before_offset` looks at.
pub open spec fn window_end(bytes: Seq<u8>, offset: int) -> int {
    if offset <= bytes.len() { offset } else { bytes.len() as int }
}

/// Start of the window `read_before_offset` looks at.
pub open spec fn window_start(bytes: Seq<u8>, offset: int, max_bytes: int) -> int {
    let end = window_end(bytes, offset);
    if end >= max_bytes { end - max_bytes } else { 0 }
}

/// The bytes `read_before_offset` looks at.
pub open spec fn window_before(bytes: Seq<u8>, offset: int, max_bytes: int) -> Seq<u8> {
    bytes.subrange(window_start(bytes, offset, max_bytes), window_end(bytes, offset))
}

/// The offset where the text `read_before_offset` returns begins.
pub open spec fn start_before(bytes: Seq<u8>, offset: int, max_bytes: int) -> int {
    if window_end(bytes, offset) == 0 {
        0
    } else {
        window_start(bytes, offset, max_bytes) + invalid_head_len(window_before(bytes, offset, max_bytes))
    }
}

/// The text `read_before_offset` returns.
pub open spec fn text_before(bytes: Seq<u8>, offset: int, max_bytes: int) -> Seq<char> {
    let w = window_before(bytes, offset, max_bytes);
    decode_utf8(w.skip(invalid_head_len(w) as int))
}

/// The trimmed prefix is valid UTF-8 and no longer prefix is.
pub proof fn lemma_valid_prefix_len(buf: Seq<u8>)
    ensures
        valid_prefix_len(buf) <= buf.len(),
        valid_utf8(buf.take(valid_prefix_len(buf) as int)),
        forall|j: int| valid_prefix_len(buf) < j <= buf.len() ==> !valid_utf8(#[trigger] buf.take(j)),
    decreases buf.len(),
{
    if buf.len() == 0 || valid_utf8(buf) {
        assert(buf.take(buf.len() as int) =~= buf);
    } else {
        let d = buf.drop_last();
        lemma_valid_prefix_len(d);
        assert(d.take(valid_prefix_len(d) as int) =~= buf.take(valid_prefix_len(d) as int));
        assert forall|j: int| valid_prefix_len(buf) < j <= buf.len() implies !valid_utf8(#[trigger] buf.take(j)) by {
            if j < buf.len() {
                assert(d.take(j) =~= buf.take(j));
            } else {
                assert(buf.take(j) =~= buf);
            }
        }
    }
}

/// Dropping the invalid head leaves valid UTF-8, and dropping fewer bytes does not.
pub proof fn lemma_invalid_head_len(buf: Seq<u8>)
    ensures
        invalid_head_len(buf) <= buf.len(),
        valid_utf8(buf.skip(invalid_head_len(buf) as int)),
        forall|j: int| 0 <= j < invalid_head_len(buf) ==> !valid_utf8(#[trigger] buf.skip(j)),
    decreases buf.len(),
{
    if buf.len() == 0 || valid_utf8(buf) {
        assert(buf.skip(0) =~= buf);
    } else {
        let d = buf.drop_first();
        lemma_invalid_head_len(d);
        assert(d.skip(invalid_head_len(d) as int) =~= buf.skip(invalid_head_len(buf) as int));
        assert forall|j: int| 0 <= j < invalid_head_len(buf) implies !valid_utf8(#[trigger] buf.skip(j)) by {
            if j == 0 {
                assert(buf.skip(0) =~= buf);
            } else {
                assert(d.skip(j - 1) =~= buf.skip(j));
            }
        }
    }
}

/// The decoded text of one book, addressed by UTF-8 byte offsets.
pub struct TextSource {
    content: Vec<u8>,
    file_len: u64,
}

impl TextSource {
    /// The text's UTF-8 bytes.
    pub closed spec fn bytes(&self) -> Seq<u8> {
        self.content@
    }

    /// The text's bytes are valid UTF-8 and their count is `file_len`.
    pub closed spec fn wf(&self) -> bool {
        &&& valid_utf8(self.content@)
        &&& self.file_len == self.content@.len()
    }

    /// Builds the text source of a file from its raw bytes.
    pub fn from_bytes(raw: &[u8]) -> (src: TextSource)
        ensures
            src.wf(),
            src.bytes() == encode_utf8(decoded_text(raw@)),
    {
        let decoded = decode_text(raw);
        let content = bytes_to_vec(decoded.content.as_str().as_bytes());
        proof {
            vstd::utf8::encode_utf8_valid_utf8(decoded.content@);
        }
        let file_len: u64 = content.len() as u64;
        TextSource { content, file_len }
    }

    #[verifier::loop_isolation(false)]
    /// Reads up to `max_bytes` bytes from byte offset `offset`, trimmed at the end
    /// to the longest valid UTF-8 prefix; empty at or past the end of the text.
    pub fn read_from_offset(&self, offset: u64, max_bytes: usize) -> (text: String)
        requires
            self.wf(),
        ensures
            text@ == text_after(self.bytes(), offset as int, max_bytes as int),
            utf8_len(text@) <= window_after(self.bytes(), offset as int, max_bytes as int).len(),
    {
        let file_len = self.file_len;
        if offset >= file_len {
            return String::new();
        }
        let remaining: u64 = file_len - offset;
        let read_len: usize = if remaining <= max_bytes as u64 { remaining as usize } else { max_bytes };
        let content_len: usize = self.content.len();
        let start: usize = offset as usize;
        let mut buffer: Vec<u8> = copy_range(&self.content, start, start + read_len);
        let ghost buf = buffer@;
        assert(buf == window_after(self.bytes(), offset as int, max_bytes as int));
        proof {
            lemma_valid_prefix_len(buf);
        }
        loop
            invariant
                buffer@ == buf.take(buffer@.len() as int),
                buffer@.len() <= buf.len(),
                valid_prefix_len(buffer@) == valid_prefix_len(buf),
            decreases buffer@.len(),
        {
            match string_from_utf8(buffer.clone()) {
                Some(text) => {
                    proof {
                        vstd::utf8::decode_utf8_encode_utf8(buffer@);
                    }
                    return text;
                }
                None => {
                    buffer.pop();
                    assert(buffer@ =~= buf.take(buffer@.len() as int));
                }
            }
        }
    }

    #[verifier::loop_isolation(false)]
    /// Reads up to `max_bytes` bytes ending at `min(offset, file_len)`, dropping
    /// leading bytes until the rest is valid UTF-8; returns where the text starts.
    pub fn read_before_offset(&self, offset: u64, max_bytes: usize) -> (r: (u64, String))
        requires
            self.wf(),
        ensures
            r.0 == start_before(self.bytes(), offset as int, max_bytes as int),
            r.1@ == text_before(self.bytes(), offset as int, max_bytes as int),
    {
        let file_len = self.file_len;
        let end: u64 = if offset <= file_len { offset } else { file_len };
        if end == 0 {
            proof {
                assert(window_before(self.bytes(), offset as int, max_bytes as int) =~= Seq::<u8>::empty());
            }
            return (0, String::new());
        }
        let start: u64 = if end >= max_bytes as u64 { end - max_bytes as u64 } else { 0 };
        let content_len: usize = self.content.len();
        let mut buffer: Vec<u8> = copy_range(&self.content, start as usize, end as usize);
        let ghost buf = buffer@;
        assert(buf == window_before(self.bytes(), offset as int, max_bytes as int));
        let mut actual_start: u64 = start;
        assert(buffer@ =~= buf.skip(0));
        loop
            invariant
                start <= actual_start <= end,
                buf.len() == end - start,
                buffer@ == buf.skip(actual_start - start),
                actual_start - start + invalid_head_len(buffer@) == invalid_head_len(buf),
            decreases buffer@.len(),
        {
            match string_from_utf8(buffer.clone()) {
                Some(text) => {
                    proof {
                        vstd::utf8::decode_utf8_encode_utf8(buffer@);
                    }
                    return (actual_start, text);
                }
                None => {
                    buffer.remove(0);
                    actual_start = actual_start + 1;
                    assert(buffer@ =~= buf.skip(actual_start - start));
                }
            }
        }
    }

    /// Number of UTF-8 bytes of the decoded text.
    pub fn file_len(&self) -> (n: u64)
        requires
            self.wf(),
        ensures
            n == self.bytes().len(),
    {
        self.file_len
    }
}

} // verus!
