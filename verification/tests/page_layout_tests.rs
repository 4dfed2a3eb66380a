use reading_cli::page_layout::{char_display_width, layout_page};

#[test]
fn layout_page_wraps_wide_characters_by_termianl_columns() {
    let page = layout_page("一二三ABC", 0, 4, 2);

    assert_eq!(page.text, "一二\n三AB");
    assert_eq!(page.end_offset, "一二三AB".len() as u64);
}

#[test]
fn layout_page_keeps_line_breaks_and_counts_them() {
    let page = layout_page("ab\ncd\r\nef", 10, 5, 2);
    assert_eq!(page.text, "ab\ncd\r\n");
    assert_eq!(page.end_offset, 10 + "ab\ncd\r\n".len() as u64);
}

#[test]
fn layout_page_of_a_short_text_ends_at_its_end() {
    let page = layout_page("短文", 100, 80, 24);
    assert_eq!(page.text, "短文");
    assert_eq!(page.end_offset, 100 + "短文".len() as u64);
}

#[test]
fn layout_page_without_rows_shows_nothing() {
    let page = layout_page("abc", 7, 10, 0);
    assert_eq!(page.text, "");
    assert_eq!(page.end_offset, 7);
}

#[test]
fn display_width_of_characters() {
    assert_eq!(char_display_width('a'), 1);
    assert_eq!(char_display_width('一'), 2);
    assert_eq!(char_display_width('\u{7}'), 0);
}

#[test]
fn ascii_characters_are_one_column_and_controls_none() {
    assert_eq!(char_display_width(' '), 1);
    assert_eq!(char_display_width('~'), 1);
    assert_eq!(char_display_width('\u{7}'), 0);
    assert_eq!(char_display_width('\u{85}'), 0);
}
