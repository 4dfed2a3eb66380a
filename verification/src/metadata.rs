use vstd::prelude::*;

verus! {

/// What is remembered about one book.
#[derive(Debug)]
pub struct BookMetadata {
    pub book_path: String,
    pub current_offset: u64,
    pub last_opened_at: u64,
    pub file_len: u64,
}

impl Clone for BookMetadata {
    fn clone(&self) -> (r: Self)
        ensures
            r == *self,
    {
        BookMetadata {
            book_path: self.book_path.clone(),
            current_offset: self.current_offset,
            last_opened_at: self.last_opened_at,
            file_len: self.file_len,
        }
    }
}

impl BookMetadata {
    /// A book that has never been read.
    pub fn new(book_path: String) -> (m: BookMetadata)
        ensures
            m.book_path == book_path,
            m.current_offset == 0,
            m.last_opened_at == 0,
            m.file_len == 0,
    {
        BookMetadata { book_path, current_offset: 0, last_opened_at: 0, file_len: 0 }
    }
}

} // verus!
