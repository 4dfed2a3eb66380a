use reading_cli::path_text::{book_title, has_txt_extension, is_white_char, trim_typed_path};

#[test]
fn book_title_is_the_file_stem() {
    assert_eq!(book_title("/books/novel.txt"), "novel");
    assert_eq!(book_title("novel.tar.gz"), "novel.tar");
    assert_eq!(book_title("/books/README"), "README");
    assert_eq!(book_title("/books/.hidden"), ".hidden");
    assert_eq!(book_title("/books/novel.txt/"), "novel");
    assert_eq!(book_title("/books/novel.txt/."), "novel");
    assert_eq!(book_title("name."), "name");
}

#[test]
fn book_title_falls_back_to_the_whole_path() {
    assert_eq!(book_title("/"), "/");
    assert_eq!(book_title(""), "");
    assert_eq!(book_title("books/.."), "books/..");
    assert_eq!(book_title("."), ".");
}

#[test]
fn txt_extension_ignores_ascii_case() {
    assert!(has_txt_extension("/books/novel.txt"));
    assert!(has_txt_extension("/books/novel.TXT"));
    assert!(has_txt_extension("novel.TxT"));
    assert!(!has_txt_extension("/books/novel.md"));
    assert!(!has_txt_extension("/books/novel.txt.bak"));
    assert!(!has_txt_extension("/books/.txt"));
    assert!(!has_txt_extension("/books/txt"));
    assert!(!has_txt_extension("/books/novel.txtx"));
    assert!(!has_txt_extension("/books/.."));
}

#[test]
fn typed_paths_lose_white_space_then_quotes() {
    assert_eq!(trim_typed_path("  \"/books/novel.txt\"  "), "/books/novel.txt");
    assert_eq!(trim_typed_path("\t/books/a b.txt\n"), "/books/a b.txt");
    assert_eq!(trim_typed_path("\"\"x\"\""), "x");
    assert_eq!(trim_typed_path("\" spaced \""), " spaced ");
    assert_eq!(trim_typed_path("\u{3000}书.txt\u{a0}"), "书.txt");
    assert_eq!(trim_typed_path("   "), "");
    assert_eq!(trim_typed_path("\"\""), "");
}

#[test]
fn white_space_follows_the_unicode_property() {
    for c in [' ', '\t', '\n', '\r', '\u{b}', '\u{c}', '\u{85}', '\u{a0}', '\u{2000}', '\u{200a}', '\u{3000}'] {
        assert!(is_white_char(c));
        assert!(c.is_whitespace());
    }
    for c in ['a', '"', '\u{200b}', '\u{1}', '书'] {
        assert!(!is_white_char(c));
        assert!(!c.is_whitespace());
    }
}
