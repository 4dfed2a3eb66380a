use reading_cli::page_index::PageIndex;
use reading_cli::text_source::TextSource;

#[test]
fn page_index_can_report_page_count() {
    let index = PageIndex { columns: 100, rows: 28, page_starts: vec![0, 1200, 2400] };
    assert_eq!(index.page_count(), 3);
}

#[test]
fn page_index_finds_page_by_offset() {
    let index = PageIndex { columns: 100, rows: 28, page_starts: vec![0, 100, 200] };

    assert_eq!(index.find_page_by_offset(0), 0);
    assert_eq!(index.find_page_by_offset(50), 0);
    assert_eq!(index.find_page_by_offset(100), 1);
    assert_eq!(index.find_page_by_offset(199), 1);
    assert_eq!(index.find_page_by_offset(200), 2);
    assert_eq!(index.find_page_by_offset(999), 2);
}

#[test]
fn page_index_returns_page_start_by_page_number() {
    let index = PageIndex { columns: 100, rows: 28, page_starts: vec![0, 100, 200] };
    assert_eq!(index.page_start(0), Some(0));
    assert_eq!(index.page_start(1), Some(100));
    assert_eq!(index.page_start(2), Some(200));
    assert_eq!(index.page_start(3), None);
}

#[test]
fn page_index_builds_from_text_source() {
    let text_source = TextSource::from_bytes("一二三四五六七八九十".as_bytes());

    let index = PageIndex::build(&text_source, 4, 2);

    assert_eq!(index.page_starts, vec![0, 12, 24]);
    assert_eq!(index.columns, 4);
    assert_eq!(index.rows, 2);
}

#[test]
fn page_index_of_empty_text_has_no_pages() {
    let text_source = TextSource::from_bytes(b"");
    let index = PageIndex::build(&text_source, 10, 5);
    assert!(index.page_starts.is_empty());
    assert_eq!(index.find_page_by_offset(30), 0);
    assert_eq!(index.page_start(0), None);
}

#[test]
fn page_index_with_no_room_stops_after_one_page() {
    let text_source = TextSource::from_bytes("abc".as_bytes());
    let index = PageIndex::build(&text_source, 10, 0);
    assert_eq!(index.page_starts, vec![0]);
    let narrow = PageIndex::build(&text_source, 0, 3);
    assert_eq!(narrow.page_starts, vec![0, 2]);
}

#[test]
fn page_starts_increase_and_stay_in_the_text() {
    let text = "第一章\n\n他看见海。她跑步。\r\n这是一个很长很长的句子，需要换行好几次才能放下。".repeat(5);
    let text_source = TextSource::from_bytes(text.as_bytes());
    let index = PageIndex::build(&text_source, 12, 3);
    assert_eq!(index.page_starts[0], 0);
    for pair in index.page_starts.windows(2) {
        assert!(pair[0] < pair[1]);
    }
    assert!(*index.page_starts.last().unwrap() < text.len() as u64);
    for (page, start) in index.page_starts.iter().enumerate() {
        assert_eq!(index.find_page_by_offset(*start), page);
    }
}
