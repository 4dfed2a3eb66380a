use reading_cli::library::{book_path_key, identity_key, migrate_library, BookLibrary};
use reading_cli::path_text::same_path;

fn unresolved(_: &str) -> Option<String> {
    None
}
use reading_cli::metadata::BookMetadata;

#[test]
fn library_starts_with_default_book() {
    let default_path = "default.txt".to_string();
    let library = BookLibrary::new(default_path.clone());

    assert_eq!(library.current_book_path, default_path);
    assert_eq!(library.books.len(), 1);
    assert_eq!(library.current_book(&unresolved, false).unwrap().book_path, default_path);
}

#[test]
fn library_upsert_replaces_existing_book() {
    let book_path = "novel.txt".to_string();
    let mut library = BookLibrary::new("default.txt".to_string());

    library.upsert_book(BookMetadata::new(book_path.clone()), &unresolved, false);

    let mut updated_book = BookMetadata::new(book_path.clone());
    updated_book.current_offset = 120;
    updated_book.last_opened_at = 10;
    library.upsert_book(updated_book, &unresolved, false);

    let saved_book = library.books.iter().find(|book| book.book_path == book_path).unwrap();

    assert_eq!(library.books.len(), 2);
    assert_eq!(saved_book.current_offset, 120);
    assert_eq!(saved_book.last_opened_at, 10);
}

#[test]
fn visible_books_filters_default_and_sorts_by_last_opened() {
    let default_path = "default.txt".to_string();
    let mut library = BookLibrary::new(default_path.clone());

    let mut older_book = BookMetadata::new("older.txt".to_string());
    older_book.last_opened_at = 1;

    let mut newer_book = BookMetadata::new("newer.txt".to_string());
    newer_book.last_opened_at = 2;

    library.upsert_book(older_book, &unresolved, false);
    library.upsert_book(newer_book, &unresolved, false);

    let visible_books = library.visible_books(&default_path);

    assert_eq!(visible_books.len(), 2);
    assert_eq!(visible_books[0].book_path, "newer.txt");
    assert_eq!(visible_books[1].book_path, "older.txt");
}

#[test]
fn visible_books_keep_shelf_order_for_equal_times() {
    let mut library = BookLibrary::new("default.txt".to_string());
    for (name, at) in [("a.txt", 5), ("b.txt", 7), ("c.txt", 5), ("d.txt", 7)] {
        let mut book = BookMetadata::new(name.to_string());
        book.last_opened_at = at;
        library.upsert_book(book, &unresolved, false);
    }
    let shown: Vec<String> = library.visible_books("default.txt").into_iter().map(|b| b.book_path).collect();
    assert_eq!(shown, ["b.txt", "d.txt", "a.txt", "c.txt"]);
}

#[test]
fn activate_book_reuses_existing_offset() {
    let book_path = "novel.txt".to_string();
    let mut library = BookLibrary::new("default.txt".to_string());
    let mut book = BookMetadata::new(book_path.clone());
    book.current_offset = 256;
    book.last_opened_at = 1;
    library.upsert_book(book, &unresolved, false);

    let activated_book = library.activate_book(book_path.clone(), 2, &unresolved, false);

    assert_eq!(activated_book.book_path, book_path);
    assert_eq!(activated_book.current_offset, 256);
    assert_eq!(activated_book.last_opened_at, 2);
    assert_eq!(library.current_book_path, book_path);
}

#[test]
fn activate_book_adds_new_book() {
    let book_path = "novel.txt".to_string();
    let mut library = BookLibrary::new("default.txt".to_string());

    let activated_book = library.activate_book(book_path.clone(), 2, &unresolved, false);

    assert_eq!(activated_book.book_path, book_path);
    assert_eq!(activated_book.current_offset, 0);
    assert_eq!(activated_book.last_opened_at, 2);
    assert_eq!(library.current_book_path, book_path);
    assert_eq!(library.books.len(), 2);
}

#[test]
fn activated_book_is_the_current_book() {
    let mut library = BookLibrary::new("default.txt".to_string());
    let activated = library.activate_book("books\\novel.txt".to_string(), 9, &unresolved, false);
    let current = library.current_book(&unresolved, false).unwrap();
    assert_eq!(current.book_path, activated.book_path);
    assert_eq!(current.last_opened_at, 9);
}

#[test]
fn upsert_then_lookup_gives_the_stored_book() {
    let mut library = BookLibrary::new("default.txt".to_string());
    let mut book = BookMetadata::new("shelf/novel.txt".to_string());
    book.current_offset = 77;
    library.upsert_book(book.clone(), &unresolved, false);
    library.current_book_path = "shelf\\novel.txt".to_string();
    let found = library.current_book(&unresolved, false).unwrap();
    assert_eq!(found.current_offset, 77);
    assert_eq!(found.book_path, "shelf/novel.txt");
}

#[test]
fn book_path_key_uses_forward_slashes() {
    assert_eq!(book_path_key("C:\\books\\novel.txt", &unresolved, false), "C:/books/novel.txt");
    assert_eq!(book_path_key("plain.txt", &unresolved, false), "plain.txt");
    let once = book_path_key("a\\b/c\\d.txt", &unresolved, false);
    assert_eq!(book_path_key(&once, &unresolved, false), once);
}

#[test]
fn identity_key_prefers_the_resolved_path() {
    assert_eq!(identity_key(Some("/books/novel.txt".to_string()), "novel.txt", false), "/books/novel.txt");
    assert_eq!(identity_key(None, "dir\\novel.txt", false), "dir/novel.txt");
    assert_eq!(identity_key(Some("C:\\Books\\Novel.TXT".to_string()), "novel.txt", true), "c:/books/novel.txt");
    assert_eq!(identity_key(None, "Dir\\Novel.txt", false), "Dir/Novel.txt");
}

fn resolve_in_books(path: &str) -> Option<String> {
    match path {
        "novel.txt" | "/books/novel.txt" => Some("/books/novel.txt".to_string()),
        _ => None,
    }
}

#[test]
fn upsert_by_relative_path_replaces_the_absolute_record() {
    let mut library = BookLibrary::new("default.txt".to_string());
    let mut stored = BookMetadata::new("/books/novel.txt".to_string());
    stored.current_offset = 30;
    library.upsert_book(stored, &resolve_in_books, false);
    let mut again = BookMetadata::new("novel.txt".to_string());
    again.current_offset = 90;
    library.upsert_book(again, &resolve_in_books, false);
    assert_eq!(library.books.len(), 2);
    assert_eq!(library.books[1].book_path, "novel.txt");
    assert_eq!(library.books[1].current_offset, 90);
}

#[test]
fn activate_by_relative_path_reuses_saved_progress() {
    let mut library = BookLibrary::new("default.txt".to_string());
    let mut stored = BookMetadata::new("/books/novel.txt".to_string());
    stored.current_offset = 512;
    stored.last_opened_at = 3;
    library.upsert_book(stored, &resolve_in_books, false);
    let book = library.activate_book("novel.txt".to_string(), 8, &resolve_in_books, false);
    assert_eq!(book.book_path, "/books/novel.txt");
    assert_eq!(book.current_offset, 512);
    assert_eq!(book.last_opened_at, 8);
    assert_eq!(library.books.len(), 2);
    assert_eq!(library.current_book_path, "/books/novel.txt");
    assert_eq!(library.current_book(&resolve_in_books, false).unwrap().current_offset, 512);
}

#[test]
fn deduplicate_merges_relative_and_absolute_paths() {
    let mut library = BookLibrary::new("default.txt".to_string());
    let mut relative = BookMetadata::new("novel.txt".to_string());
    relative.current_offset = 40;
    relative.last_opened_at = 9;
    let mut absolute = BookMetadata::new("/books/novel.txt".to_string());
    absolute.current_offset = 10;
    absolute.last_opened_at = 2;
    absolute.file_len = 700;
    library.books.push(relative);
    library.books.push(absolute);
    library.deduplicate_books(&resolve_in_books, false);
    assert_eq!(library.books.len(), 2);
    assert_eq!(library.books[1].book_path, "novel.txt");
    assert_eq!(library.books[1].current_offset, 40);
    assert_eq!(library.books[1].last_opened_at, 9);
    assert_eq!(library.books[1].file_len, 700);
}

#[test]
fn lower_case_identity_joins_spellings_differing_in_case() {
    let mut library = BookLibrary::new("default.txt".to_string());
    library.upsert_book(BookMetadata::new("Books\\Novel.TXT".to_string()), &unresolved, true);
    library.upsert_book(BookMetadata::new("books/novel.txt".to_string()), &unresolved, true);
    assert_eq!(library.books.len(), 2);
    library.upsert_book(BookMetadata::new("books/other.txt".to_string()), &unresolved, false);
    library.upsert_book(BookMetadata::new("Books/Other.txt".to_string()), &unresolved, false);
    assert_eq!(library.books.len(), 4);
}

#[test]
fn visible_books_hide_every_spelling_of_the_default_path() {
    let mut library = BookLibrary::new("default.txt/".to_string());
    library.books.push(BookMetadata::new("./default.txt".to_string()));
    library.books.push(BookMetadata::new("novel.txt".to_string()));
    let shown: Vec<String> = library.visible_books("default.txt").into_iter().map(|b| b.book_path).collect();
    assert_eq!(shown, ["./default.txt", "novel.txt"]);
}

#[test]
fn same_path_compares_components() {
    assert!(same_path("default.txt/", "default.txt"));
    assert!(same_path("a//b", "a/b"));
    assert!(same_path("a/./b/", "a/b"));
    assert!(same_path("/", "//"));
    assert!(same_path("./a", ".//a"));
    assert!(!same_path("./a", "a"));
    assert!(!same_path("/a", "a"));
    assert!(!same_path("a/../b", "b"));
    assert!(!same_path("a\\b", "a/b"));
    assert!(same_path("", ""));
    assert!(!same_path("", "."));
}

#[test]
fn deduplicate_books_merges_same_book() {
    let mut library = BookLibrary::new("default.txt".to_string());
    let mut first = BookMetadata::new("dir/book.txt".to_string());
    first.current_offset = 10;
    first.last_opened_at = 1;
    let mut second = BookMetadata::new("dir\\book.txt".to_string());
    second.current_offset = 20;
    second.last_opened_at = 5;
    library.books.push(first);
    library.books.push(second);
    library.deduplicate_books(&unresolved, false);
    assert_eq!(library.books.len(), 2);
    assert_eq!(library.books[0].book_path, "default.txt");
    assert_eq!(library.books[1].last_opened_at, 5);
    assert_eq!(library.books[1].current_offset, 20);

    let before: Vec<String> = library.books.iter().map(|b| b.book_path.clone()).collect();
    library.deduplicate_books(&unresolved, false);
    let after: Vec<String> = library.books.iter().map(|b| b.book_path.clone()).collect();
    assert_eq!(before, after);
}

#[test]
fn load_or_migrate_prefers_existing_library() {
    let mut library = BookLibrary::new("default.txt".to_string());
    let library_book = BookMetadata::new("library-book.txt".to_string());
    let legacy_book = BookMetadata::new("legacy-book.txt".to_string());

    library.current_book_path = library_book.book_path.clone();
    library.upsert_book(library_book, &unresolved, false);

    let loaded_library = migrate_library(Some(library), Some(legacy_book), "default.txt".to_string(), &unresolved, false);

    assert_eq!(loaded_library.current_book_path, "library-book.txt");
}

#[test]
fn load_or_migrate_uses_legacy_metadata_when_library_is_missing() {
    let mut legacy_book = BookMetadata::new("legacy-book.txt".to_string());
    legacy_book.current_offset = 42;

    let loaded_library = migrate_library(None, Some(legacy_book), "default.txt".to_string(), &unresolved, false);

    assert_eq!(loaded_library.current_book_path, "legacy-book.txt");
    assert_eq!(loaded_library.current_book(&unresolved, false).unwrap().current_offset, 42);
}

#[test]
fn load_or_migrate_uses_default_when_no_storage_exists() {
    let loaded_library = migrate_library(None, None, "default.txt".to_string(), &unresolved, false);

    assert_eq!(loaded_library.current_book_path, "default.txt");
    assert_eq!(loaded_library.current_book(&unresolved, false).unwrap().book_path, "default.txt");
}
