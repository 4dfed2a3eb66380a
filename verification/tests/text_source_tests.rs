use encoding_rs::GBK;
use reading_cli::text_source::{decode_text, TextSource};

#[test]
fn text_source_reads_text_from_byte_offsets() {
    let source = TextSource::from_bytes("一二三四五六".as_bytes());

    let offset = "一二".len() as u64;
    let text = source.read_from_offset(offset, 1024);

    assert_eq!(text, "三四五六");
}

#[test]
fn text_source_reads_gbk_text_as_utf8() {
    let text = "\u{4e00}\u{4e8c}\u{4e09}\u{56db}\u{4e94}\u{516d}";
    let (gbk_bytes, _, _) = GBK.encode(text);

    let source = TextSource::from_bytes(gbk_bytes.as_ref());

    assert_eq!(source.read_from_offset(0, 12), "\u{4e00}\u{4e8c}\u{4e09}\u{56db}");
    assert_eq!(source.read_from_offset(12, 12), "\u{4e94}\u{516d}");
    assert_eq!(source.file_len(), text.len() as u64);
}

#[test]
fn text_source_drops_a_utf8_byte_order_mark() {
    let mut bytes = vec![0xef, 0xbb, 0xbf];
    bytes.extend_from_slice("正文".as_bytes());
    let decoded = decode_text(&bytes);
    assert_eq!(decoded.content, "正文");
    let source = TextSource::from_bytes(&bytes);
    assert_eq!(source.file_len(), "正文".len() as u64);
}

#[test]
fn reading_stops_before_a_cut_character() {
    let source = TextSource::from_bytes("一二三".as_bytes());
    assert_eq!(source.read_from_offset(0, 4), "一");
    assert_eq!(source.read_from_offset(0, 2), "");
}

#[test]
fn reading_from_inside_a_character_gives_nothing() {
    let source = TextSource::from_bytes("一二三".as_bytes());
    assert_eq!(source.read_from_offset(1, 1024), "");
    assert_eq!(source.read_from_offset(3, 1024), "二三");
    assert_eq!(source.read_from_offset(9, 10), "");
    assert_eq!(source.read_from_offset(100, 10), "");
}

#[test]
fn reading_before_an_offset_returns_where_the_text_starts() {
    let source = TextSource::from_bytes("一二三四".as_bytes());
    let (start, text) = source.read_before_offset(9, 6);
    assert_eq!(start, 3);
    assert_eq!(text, "二三");
    let (start, text) = source.read_before_offset(8, 6);
    assert_eq!(start, 8);
    assert_eq!(text, "");
    assert_eq!(source.read_before_offset(0, 6), (0, String::new()));
}
