//! The bookshelf: every book read so far and which one is current.
use vstd::prelude::*;
use crate::metadata::BookMetadata;
use crate::utf8_text::{str_eq, str_chars};
use crate::path_text::{path_components, same_path};
use crate::page_layout::string_push;

verus! {

broadcast use vstd::string::group_string_axioms;

/// Name for the lower-case form that `str::to_lowercase` gives a string.
pub uninterp spec fn spec_to_lowercase(s: Seq<char>) -> Seq<char>;

/// `str::to_lowercase`: the string with every character replaced by its
/// lower-case form (Unicode's `Lowercase` property); what that form is for each
/// character is left to the name `spec_to_lowercase`.
#[verifier::external_body]
fn str_to_lowercase(s: &str) -> (r: String)
    ensures
        r@ == spec_to_lowercase(s@),
{
    s.to_lowercase()
}

/// The view of a resolver's answer.
pub open spec fn answer_view(o: Option<String>) -> Option<Seq<char>> {
    match o {
        Some(s) => Some(s@),
        None => None,
    }
}

/// `resolve` may answer `r` for the path spelled `path`.
pub open spec fn resolves_to<F: Fn(&str) -> Option<String>>(resolve: F, path: Seq<char>, r: Option<Seq<char>>) -> bool {
    exists|s: &str, o: Option<String>|
        #![trigger call_ensures(resolve, (s,), o)]
        s@ == path && call_ensures(resolve, (s,), o) && answer_view(o) == r
}

/// A resolver the shelf can use: it accepts every path and gives one answer
/// per path. A resolver that reads the disk (such as one that canonicalizes a
/// path) meets this only while the files it looks at are not created, removed
/// or moved; the shelf's contracts assume that for the length of each call.
pub open spec fn resolver_ok<F: Fn(&str) -> Option<String>>(resolve: F) -> bool {
    &&& forall|s: &str| #[trigger] call_requires(resolve, (s,))
    &&& forall|p: Seq<char>, a: Option<Seq<char>>, b: Option<Seq<char>>|
        #![trigger resolves_to(resolve, p, a), resolves_to(resolve, p, b)]
        resolves_to(resolve, p, a) && resolves_to(resolve, p, b) ==> a == b
}

/// The answer `resolve` gives for `path`.
pub open spec fn resolved<F: Fn(&str) -> Option<String>>(resolve: F, path: Seq<char>) -> Option<Seq<char>> {
    choose|r: Option<Seq<char>>| resolves_to(resolve, path, r)
}

/// Separators unified to `/`.
pub open spec fn unify_separators(path: Seq<char>) -> Seq<char> {
    path.map_values(|c: char| if c == '\\' { '/' } else { c })
}

/// Identity of a book path: the resolved path, or the path as written where it
/// does not resolve, with separators unified to `/`, and lower-cased where
/// `lower_case`.
pub open spec fn identity(resolved: Option<Seq<char>>, path: Seq<char>, lower_case: bool) -> Seq<char> {
    let base = match resolved {
        Some(r) => r,
        None => path,
    };
    if lower_case {
        spec_to_lowercase(unify_separators(base))
    } else {
        unify_separators(base)
    }
}

/// The identity of each path under `resolve`.
pub open spec fn identity_under<F: Fn(&str) -> Option<String>>(resolve: F, lower_case: bool) -> spec_fn(Seq<char>) -> Seq<char> {
    |p: Seq<char>| identity(resolved(resolve, p), p, lower_case)
}

/// Law: unifying separators twice gives the same text as once.
pub proof fn lemma_unify_separators_idempotent(path: Seq<char>)
    ensures
        unify_separators(unify_separators(path)) == unify_separators(path),
{
    assert(unify_separators(unify_separators(path)) =~= unify_separators(path));
}

/// The identity of a path from what resolving it gave.
pub fn identity_key(resolved: Option<String>, path: &str, lower_case: bool) -> (key: String)
    ensures
        key@ == identity(answer_view(resolved), path@, lower_case),
{
    let chars = match &resolved {
        Some(r) => str_chars(r.as_str()),
        None => str_chars(path),
    };
    let ghost base = match answer_view(resolved) {
        Some(r) => r,
        None => path@,
    };
    let mut unified = String::new();
    for i in 0..chars.len()
        invariant
            chars@ == base,
            unified@ == unify_separators(base).take(i as int),
    {
        let c = chars[i];
        string_push(&mut unified, if c == '\\' { '/' } else { c });
        assert(unified@ =~= unify_separators(base).take(i + 1));
    }
    assert(unified@ =~= unify_separators(base));
    if lower_case {
        str_to_lowercase(unified.as_str())
    } else {
        unified
    }
}

/// The identity key of a path: resolved by `resolve`, then as `identity_key`.
pub fn book_path_key<F: Fn(&str) -> Option<String>>(path: &str, resolve: &F, lower_case: bool) -> (key: String)
    requires
        resolver_ok(*resolve),
    ensures
        key@ == identity_under(*resolve, lower_case)(path@),
{
    let r = resolve(path);
    proof {
        assert(call_ensures(*resolve, (path,), r));
        assert(resolves_to(*resolve, path@, answer_view(r)));
        assert(resolved(*resolve, path@) == answer_view(r));
    }
    identity_key(r, path, lower_case)
}

} // verus!

verus! {

/// Index of the first book with identity `key`, or -1.
pub open spec fn find_book(books: Seq<BookMetadata>, id: spec_fn(Seq<char>) -> Seq<char>, key: Seq<char>) -> int
    decreases books.len(),
{
    if books.len() == 0 {
        -1
    } else if id(books[0].book_path@) == key {
        0
    } else {
        let r = find_book(books.drop_first(), id, key);
        if r < 0 { -1 } else { r + 1 }
    }
}

/// `find_book` finds the first book with that identity, or reports none.
pub proof fn lemma_find_book(books: Seq<BookMetadata>, id: spec_fn(Seq<char>) -> Seq<char>, key: Seq<char>)
    ensures
        find_book(books, id, key) < 0 <==> (forall|k: int| 0 <= k < books.len() ==> id(
            (#[trigger] books[k]).book_path@,
        ) != key),
        find_book(books, id, key) >= 0 ==> {
            let f = find_book(books, id, key);
            &&& f < books.len()
            &&& id(books[f].book_path@) == key
            &&& forall|k: int| 0 <= k < f ==> id((#[trigger] books[k]).book_path@) != key
        },
        find_book(books, id, key) >= -1,
    decreases books.len(),
{
    if books.len() > 0 && id(books[0].book_path@) != key {
        let t = books.drop_first();
        lemma_find_book(t, id, key);
        assert forall|k: int| 0 < k < books.len() implies books[k] == t[k - 1] by {}
    }
}

/// The book stored under an identity, if any.
pub open spec fn book_with_key(books: Seq<BookMetadata>, id: spec_fn(Seq<char>) -> Seq<char>, key: Seq<char>) -> Option<BookMetadata> {
    let i = find_book(books, id, key);
    if i < 0 { None } else { Some(books[i]) }
}

/// Effect of storing `book`: it replaces the first book with the same identity,
/// or is appended.
pub open spec fn upsert_spec(books: Seq<BookMetadata>, id: spec_fn(Seq<char>) -> Seq<char>, book: BookMetadata) -> Seq<BookMetadata> {
    let i = find_book(books, id, id(book.book_path@));
    if i < 0 { books.push(book) } else { books.update(i, book) }
}

/// Which of two records of the same book survives: the more recently opened
/// one; otherwise the older record, filling in an offset or a length it lacks.
pub open spec fn merge_spec(existing: BookMetadata, incoming: BookMetadata) -> BookMetadata {
    if incoming.last_opened_at >= existing.last_opened_at {
        incoming
    } else {
        BookMetadata {
            current_offset: if existing.current_offset == 0 && incoming.current_offset != 0 {
                incoming.current_offset
            } else {
                existing.current_offset
            },
            file_len: if existing.file_len == 0 && incoming.file_len != 0 {
                incoming.file_len
            } else {
                existing.file_len
            },
            ..existing
        }
    }
}

/// Law: merging two records of one book. A record opened at least as recently
/// as the kept one replaces it whole. An older record changes only what the kept
/// one lacks: where the kept record has no reading position (or no length), the
/// older one's is taken; path, opening time and any position or length the kept
/// record has stay.
pub proof fn lemma_merge_keeps_progress(existing: BookMetadata, incoming: BookMetadata)
    ensures
        incoming.last_opened_at >= existing.last_opened_at ==> merge_spec(existing, incoming) == incoming,
        incoming.last_opened_at < existing.last_opened_at ==> {
            let m = merge_spec(existing, incoming);
            &&& m.book_path == existing.book_path
            &&& m.last_opened_at == existing.last_opened_at
            &&& existing.current_offset == 0 ==> m.current_offset == incoming.current_offset
            &&& existing.current_offset != 0 ==> m.current_offset == existing.current_offset
            &&& existing.file_len == 0 ==> m.file_len == incoming.file_len
            &&& existing.file_len != 0 ==> m.file_len == existing.file_len
        },
{
}

/// Books after merging the records of the first `n` books by identity, in the
/// order each identity first appears.
pub open spec fn dedup_prefix(books: Seq<BookMetadata>, id: spec_fn(Seq<char>) -> Seq<char>, n: nat) -> Seq<BookMetadata>
    decreases n,
{
    if n == 0 {
        Seq::empty()
    } else {
        let merged = dedup_prefix(books, id, (n - 1) as nat);
        let b = books[n - 1];
        let i = find_book(merged, id, id(b.book_path@));
        if i < 0 { merged.push(b) } else { merged.update(i, merge_spec(merged[i], b)) }
    }
}

/// No two books share an identity.
pub open spec fn distinct_keys(books: Seq<BookMetadata>, id: spec_fn(Seq<char>) -> Seq<char>) -> bool {
    forall|i: int, j: int|
        0 <= i < j < books.len() ==> id((#[trigger] books[i]).book_path@) != id(
            (#[trigger] books[j]).book_path@,
        )
}

fn merge_book_metadata(existing: &mut BookMetadata, incoming: BookMetadata)
    ensures
        *final(existing) == merge_spec(*old(existing), incoming),
{
    if incoming.last_opened_at >= existing.last_opened_at {
        *existing = incoming;
        return;
    }
    if existing.current_offset == 0 && incoming.current_offset != 0 {
        existing.current_offset = incoming.current_offset;
    }
    if existing.file_len == 0 && incoming.file_len != 0 {
        existing.file_len = incoming.file_len;
    }
}

/// Position of the first book whose identity under `resolve` is `key`.
fn find_book_index<F: Fn(&str) -> Option<String>>(
    books: &Vec<BookMetadata>,
    key: &str,
    resolve: &F,
    lower_case: bool,
) -> (r: Option<usize>)
    requires
        resolver_ok(*resolve),
    ensures
        match r {
            Some(i) => i == find_book(books@, identity_under(*resolve, lower_case), key@) && i < books@.len(),
            None => find_book(books@, identity_under(*resolve, lower_case), key@) < 0,
        },
{
    let ghost id = identity_under(*resolve, lower_case);
    let mut i: usize = 0;
    while i < books.len()
        invariant
            i <= books@.len(),
            id == identity_under(*resolve, lower_case),
            resolver_ok(*resolve),
            forall|k: int| 0 <= k < i ==> id((#[trigger] books@[k]).book_path@) != key@,
        decreases books@.len() - i,
    {
        let k = book_path_key(books[i].book_path.as_str(), resolve, lower_case);
        if str_eq(k.as_str(), key) {
            proof {
                lemma_find_book(books@, id, key@);
                let f = find_book(books@, id, key@);
                if f >= 0 && f < i {
                    assert(id(books@[f].book_path@) != key@);
                }
            }
            return Some(i);
        }
        i = i + 1;
    }
    proof {
        lemma_find_book(books@, id, key@);
    }
    None
}

/// The bookshelf.
#[derive(Debug)]
pub struct BookLibrary {
    pub current_book_path: String,
    pub books: Vec<BookMetadata>,
}

impl BookLibrary {
    /// A shelf holding only the default book, which is current.
    pub fn new(default_book_path: String) -> (lib: BookLibrary)
        ensures
            lib.current_book_path == default_book_path,
            lib.books@ == seq![BookMetadata::new_spec(default_book_path)],
    {
        let default_book = BookMetadata::new(default_book_path.clone());
        let mut books: Vec<BookMetadata> = Vec::new();
        books.push(default_book);
        BookLibrary { current_book_path: default_book_path, books }
    }

    /// The current book's record, if the shelf has one: the first record whose
    /// path has the current path's identity under `resolve`.
    pub fn current_book<F: Fn(&str) -> Option<String>>(&self, resolve: &F, lower_case: bool) -> (b: Option<BookMetadata>)
        requires
            resolver_ok(*resolve),
        ensures
            ({
                let id = identity_under(*resolve, lower_case);
                b == book_with_key(self.books@, id, id(self.current_book_path@))
            }),
    {
        let key = book_path_key(self.current_book_path.as_str(), resolve, lower_case);
        match find_book_index(&self.books, key.as_str(), resolve, lower_case) {
            Some(i) => Some(self.books[i].clone()),
            None => None,
        }
    }

    /// Stores `book`, replacing the first record of the same book (the same
    /// identity under `resolve`) if there is one.
    pub fn upsert_book<F: Fn(&str) -> Option<String>>(&mut self, book: BookMetadata, resolve: &F, lower_case: bool)
        requires
            resolver_ok(*resolve),
        ensures
            final(self).books@ == upsert_spec(old(self).books@, identity_under(*resolve, lower_case), book),
            final(self).current_book_path == old(self).current_book_path,
    {
        let key = book_path_key(book.book_path.as_str(), resolve, lower_case);
        match find_book_index(&self.books, key.as_str(), resolve, lower_case) {
            Some(i) => {
                self.books.set(i, book);
            }
            None => {
                self.books.push(book);
            }
        }
    }

    /// Makes `book_path` the current book and records that it was opened at
    /// `opened_at`; a known book (the same identity under `resolve`) keeps its
    /// progress and stored path, a new one starts at 0.
    pub fn activate_book<F: Fn(&str) -> Option<String>>(
        &mut self,
        book_path: String,
        opened_at: u64,
        resolve: &F,
        lower_case: bool,
    ) -> (book: BookMetadata)
        requires
            resolver_ok(*resolve),
        ensures
            book == activated_spec(old(self).books@, identity_under(*resolve, lower_case), book_path, opened_at),
            final(self).current_book_path == book.book_path,
            final(self).books@ == upsert_spec(old(self).books@, identity_under(*resolve, lower_case), book),
    {
        let key = book_path_key(book_path.as_str(), resolve, lower_case);
        let mut book = match find_book_index(&self.books, key.as_str(), resolve, lower_case) {
            Some(i) => self.books[i].clone(),
            None => BookMetadata::new(book_path),
        };
        book.last_opened_at = opened_at;
        self.current_book_path = book.book_path.clone();
        self.upsert_book(book.clone(), resolve, lower_case);
        book
    }

    /// Merges records of the same book, such as a relative and an absolute path
    /// of one file (the same identity under `resolve`), keeping the order in
    /// which the books first appear.
    pub fn deduplicate_books<F: Fn(&str) -> Option<String>>(&mut self, resolve: &F, lower_case: bool)
        requires
            resolver_ok(*resolve),
        ensures
            final(self).books@ == dedup_prefix(
                old(self).books@,
                identity_under(*resolve, lower_case),
                old(self).books@.len(),
            ),
            final(self).current_book_path == old(self).current_book_path,
    {
        let ghost id = identity_under(*resolve, lower_case);
        let mut merged_books: Vec<BookMetadata> = Vec::new();
        let ghost orig = self.books@;
        let mut books: Vec<BookMetadata> = Vec::new();
        std::mem::swap(&mut books, &mut self.books);
        for i in 0..books.len()
            invariant
                books@ == orig,
                id == identity_under(*resolve, lower_case),
                resolver_ok(*resolve),
                merged_books@ == dedup_prefix(orig, id, i as nat),
        {
            let book = books[i].clone();
            let key = book_path_key(book.book_path.as_str(), resolve, lower_case);
            match find_book_index(&merged_books, key.as_str(), resolve, lower_case) {
                Some(j) => {
                    let mut existing = merged_books[j].clone();
                    merge_book_metadata(&mut existing, book);
                    merged_books.set(j, existing);
                }
                None => {
                    merged_books.push(book);
                }
            }
        }
        self.books = merged_books;
    }
}

impl BookMetadata {
    /// The record `BookMetadata::new` makes.
    pub open spec fn new_spec(book_path: String) -> BookMetadata {
        BookMetadata { book_path, current_offset: 0, last_opened_at: 0, file_len: 0 }
    }
}

} // verus!

verus! {

/// Law (read after write): after storing a book, looking up its identity gives
/// back exactly that book.
pub proof fn lemma_upsert_then_lookup(books: Seq<BookMetadata>, id: spec_fn(Seq<char>) -> Seq<char>, book: BookMetadata)
    ensures
        book_with_key(upsert_spec(books, id, book), id, id(book.book_path@)) == Some(book),
{
    let key = id(book.book_path@);
    let after = upsert_spec(books, id, book);
    lemma_find_book(books, id, key);
    lemma_find_book(after, id, key);
    let i = find_book(books, id, key);
    let f = find_book(after, id, key);
    if i < 0 {
        assert(id(after[books.len() as int].book_path@) == key);
        if f >= 0 && f < books.len() {
            assert(after[f] == books[f]);
        }
    } else {
        assert(id(after[i].book_path@) == key);
        if f >= 0 && f < i {
            assert(after[f] == books[f]);
        }
    }
}

/// Law: storing a book leaves the records of other books as they were.
pub proof fn lemma_upsert_keeps_others(books: Seq<BookMetadata>, id: spec_fn(Seq<char>) -> Seq<char>, book: BookMetadata, key: Seq<char>)
    requires
        key != id(book.book_path@),
    ensures
        book_with_key(upsert_spec(books, id, book), id, key) == book_with_key(books, id, key),
{
    let bk = id(book.book_path@);
    let after = upsert_spec(books, id, book);
    lemma_find_book(books, id, key);
    lemma_find_book(after, id, key);
    lemma_find_book(books, id, bk);
    let f0 = find_book(books, id, key);
    let f1 = find_book(after, id, key);
    assert forall|k: int| 0 <= k < books.len() implies id((#[trigger] after[k]).book_path@) == key
        <==> id(books[k].book_path@) == key by {
        if find_book(books, id, bk) >= 0 && k == find_book(books, id, bk) {
        } else {
            assert(after[k] == books[k]);
        }
    }
    if f0 >= 0 {
        if f1 >= 0 && f1 < f0 {
            assert(id(after[f1].book_path@) == key);
        }
        assert(id(after[f0].book_path@) == key);
        assert(f1 == f0);
        if find_book(books, id, bk) < 0 || f0 != find_book(books, id, bk) {
            assert(after[f0] == books[f0]);
        }
    } else {
        if f1 >= 0 {
            if f1 < books.len() {
                assert(id(after[f1].book_path@) == key);
            } else {
                assert(after[f1] == book);
            }
        }
    }
}

/// Law: storing a book keeps identities unique on a shelf where they were unique.
pub proof fn lemma_upsert_keeps_distinct(books: Seq<BookMetadata>, id: spec_fn(Seq<char>) -> Seq<char>, book: BookMetadata)
    requires
        distinct_keys(books, id),
    ensures
        distinct_keys(upsert_spec(books, id, book), id),
{
    let key = id(book.book_path@);
    let after = upsert_spec(books, id, book);
    lemma_find_book(books, id, key);
    let i = find_book(books, id, key);
    assert forall|a: int, b: int| 0 <= a < b < after.len() implies id((#[trigger] after[a]).book_path@)
        != id((#[trigger] after[b]).book_path@) by {
        if i < 0 {
            if b == books.len() {
                assert(after[a] == books[a]);
            } else {
                assert(after[a] == books[a] && after[b] == books[b]);
            }
        } else {
            if a == i {
                assert(after[b] == books[b]);
                assert(id(books[i].book_path@) == key);
            } else if b == i {
                assert(after[a] == books[a]);
                assert(id(books[i].book_path@) == key);
            } else {
                assert(after[a] == books[a] && after[b] == books[b]);
            }
        }
    }
}

/// Law: after merging duplicate records no two books share an identity.
pub proof fn lemma_dedup_distinct(books: Seq<BookMetadata>, id: spec_fn(Seq<char>) -> Seq<char>, n: nat)
    requires
        n <= books.len(),
    ensures
        distinct_keys(dedup_prefix(books, id, n), id),
    decreases n,
{
    if n > 0 {
        lemma_dedup_distinct(books, id, (n - 1) as nat);
        let merged = dedup_prefix(books, id, (n - 1) as nat);
        let b = books[n - 1];
        let key = id(b.book_path@);
        let i = find_book(merged, id, key);
        lemma_find_book(merged, id, key);
        let after = dedup_prefix(books, id, n);
        if i < 0 {
            assert forall|a: int, c: int| 0 <= a < c < after.len() implies id((#[trigger] after[a]).book_path@)
                != id((#[trigger] after[c]).book_path@) by {
                assert(after[a] == merged[a]);
                if c < merged.len() {
                    assert(after[c] == merged[c]);
                }
            }
        } else {
            assert(merge_spec(merged[i], b).book_path@ == merged[i].book_path@
                || merge_spec(merged[i], b) == b);
            assert(id(merge_spec(merged[i], b).book_path@) == id(merged[i].book_path@));
            assert forall|a: int, c: int| 0 <= a < c < after.len() implies id((#[trigger] after[a]).book_path@)
                != id((#[trigger] after[c]).book_path@) by {
                if a != i {
                    assert(after[a] == merged[a]);
                }
                if c != i {
                    assert(after[c] == merged[c]);
                }
            }
        }
    }
}

/// Law: merging duplicates changes nothing on a shelf whose identities are unique.
pub proof fn lemma_dedup_identity_on_distinct(books: Seq<BookMetadata>, id: spec_fn(Seq<char>) -> Seq<char>, n: nat)
    requires
        n <= books.len(),
        distinct_keys(books, id),
    ensures
        dedup_prefix(books, id, n) == books.take(n as int),
    decreases n,
{
    if n > 0 {
        lemma_dedup_identity_on_distinct(books, id, (n - 1) as nat);
        let merged = dedup_prefix(books, id, (n - 1) as nat);
        let b = books[n - 1];
        let key = id(b.book_path@);
        lemma_find_book(merged, id, key);
        if find_book(merged, id, key) >= 0 {
            let f = find_book(merged, id, key);
            assert(merged[f] == books[f]);
        }
        assert(books.take(n as int) =~= books.take(n - 1).push(b));
    }
}

} // verus!

verus! {

/// The books not stored under the path `path` (compared component by
/// component), in shelf order.
pub open spec fn books_except(books: Seq<BookMetadata>, path: Seq<char>) -> Seq<BookMetadata>
    decreases books.len(),
{
    if books.len() == 0 {
        Seq::empty()
    } else {
        let rest = books_except(books.drop_first(), path);
        if path_components(books[0].book_path@) != path_components(path) { seq![books[0]] + rest } else { rest }
    }
}

/// The books last opened at time `t`, in order.
pub open spec fn opened_at(books: Seq<BookMetadata>, t: u64) -> Seq<BookMetadata>
    decreases books.len(),
{
    if books.len() == 0 {
        Seq::empty()
    } else {
        let rest = opened_at(books.drop_first(), t);
        if books[0].last_opened_at == t { seq![books[0]] + rest } else { rest }
    }
}

/// Most recently opened first.
pub open spec fn newest_first(books: Seq<BookMetadata>) -> bool {
    forall|i: int, j: int| 0 <= i < j < books.len() ==> (#[trigger] books[i]).last_opened_at >= (#[trigger] books[j]).last_opened_at
}

proof fn lemma_books_except_push(books: Seq<BookMetadata>, b: BookMetadata, path: Seq<char>)
    ensures
        books_except(books.push(b), path) == books_except(books, path) + (if path_components(b.book_path@) != path_components(path) {
            seq![b]
        } else {
            Seq::empty()
        }),
    decreases books.len(),
{
    if books.len() == 0 {
        assert(books.push(b).drop_first() =~= Seq::<BookMetadata>::empty());
        assert(books.push(b)[0] == b);
        assert(books_except(books.push(b).drop_first(), path) =~= Seq::<BookMetadata>::empty());
        assert(books_except(books, path) =~= Seq::<BookMetadata>::empty());
        assert(books_except(books.push(b), path) =~= books_except(books, path) + (if path_components(b.book_path@) != path_components(path) {
            seq![b]
        } else {
            Seq::empty()
        }));
    } else {
        assert(books.push(b).drop_first() =~= books.drop_first().push(b));
        lemma_books_except_push(books.drop_first(), b, path);
        assert(books_except(books.push(b), path) =~= books_except(books, path) + (if path_components(b.book_path@) != path_components(path) {
            seq![b]
        } else {
            Seq::empty()
        }));
    }
}

proof fn lemma_opened_at_concat(a: Seq<BookMetadata>, b: Seq<BookMetadata>, t: u64)
    ensures
        opened_at(a + b, t) == opened_at(a, t) + opened_at(b, t),
    decreases a.len(),
{
    if a.len() == 0 {
        assert(a + b =~= b);
        assert(opened_at(a, t) + opened_at(b, t) =~= opened_at(b, t));
    } else {
        assert((a + b).drop_first() =~= a.drop_first() + b);
        lemma_opened_at_concat(a.drop_first(), b, t);
        assert((a + b)[0] == a[0]);
        assert(opened_at(a + b, t) =~= opened_at(a, t) + opened_at(b, t));
    }
}

proof fn lemma_opened_at_none(books: Seq<BookMetadata>, t: u64)
    requires
        forall|k: int| 0 <= k < books.len() ==> (#[trigger] books[k]).last_opened_at != t,
    ensures
        opened_at(books, t) == Seq::<BookMetadata>::empty(),
    decreases books.len(),
{
    if books.len() > 0 {
        assert forall|k: int| 0 <= k < books.drop_first().len() implies (#[trigger] books.drop_first()[k]).last_opened_at != t by {
            assert(books.drop_first()[k] == books[k + 1]);
        }
        lemma_opened_at_none(books.drop_first(), t);
    }
}

proof fn lemma_opened_at_single(b: BookMetadata, t: u64)
    ensures
        opened_at(seq![b], t) == if b.last_opened_at == t { seq![b] } else { Seq::<BookMetadata>::empty() },
{
    assert(seq![b].drop_first() =~= Seq::<BookMetadata>::empty());
    assert(opened_at(seq![b].drop_first(), t) =~= Seq::<BookMetadata>::empty());
    assert(seq![b][0] == b);
    assert(opened_at(seq![b], t) =~= if b.last_opened_at == t { seq![b] } else { Seq::<BookMetadata>::empty() });
}

proof fn lemma_opened_at_member(books: Seq<BookMetadata>, t: u64)
    ensures
        opened_at(books, t).len() > 0 ==> exists|k: int| 0 <= k < books.len() && (#[trigger] books[k]).last_opened_at == t,
    decreases books.len(),
{
    if books.len() > 0 && books[0].last_opened_at != t {
        lemma_opened_at_member(books.drop_first(), t);
        if opened_at(books, t).len() > 0 {
            let k = choose|k: int| 0 <= k < books.drop_first().len() && (#[trigger] books.drop_first()[k]).last_opened_at == t;
            assert(books[k + 1] == books.drop_first()[k]);
        }
    }
}

/// Law: the selection list is determined by the books: two lists that both put
/// the most recently opened books first and hold, for every opening time, the
/// same books in the same order are the same list.
pub proof fn lemma_newest_first_unique(a: Seq<BookMetadata>, b: Seq<BookMetadata>)
    requires
        newest_first(a),
        newest_first(b),
        forall|t: u64| #[trigger] opened_at(a, t) == opened_at(b, t),
    ensures
        a == b,
    decreases a.len() + b.len(),
{
    if a.len() == 0 && b.len() == 0 {
        assert(a =~= b);
    } else if a.len() == 0 {
        assert(opened_at(b, b[0].last_opened_at).len() > 0);
        assert(opened_at(a, b[0].last_opened_at) == Seq::<BookMetadata>::empty());
    } else if b.len() == 0 {
        assert(opened_at(a, a[0].last_opened_at).len() > 0);
        assert(opened_at(b, a[0].last_opened_at) == Seq::<BookMetadata>::empty());
    } else {
        let ta = a[0].last_opened_at;
        let tb = b[0].last_opened_at;
        assert(opened_at(a, ta).len() > 0);
        assert(opened_at(b, tb).len() > 0);
        lemma_opened_at_member(b, ta);
        lemma_opened_at_member(a, tb);
        assert(opened_at(b, ta) == opened_at(a, ta));
        assert(opened_at(a, tb) == opened_at(b, tb));
        let kb = choose|k: int| 0 <= k < b.len() && (#[trigger] b[k]).last_opened_at == ta;
        let ka = choose|k: int| 0 <= k < a.len() && (#[trigger] a[k]).last_opened_at == tb;
        if kb > 0 {
            assert(b[0].last_opened_at >= b[kb].last_opened_at);
        }
        if ka > 0 {
            assert(a[0].last_opened_at >= a[ka].last_opened_at);
        }
        assert(ta == tb);
        let a1 = a.drop_first();
        let b1 = b.drop_first();
        assert(opened_at(a, ta) == seq![a[0]] + opened_at(a1, ta));
        assert(opened_at(b, ta) == seq![b[0]] + opened_at(b1, ta));
        assert((seq![a[0]] + opened_at(a1, ta))[0] == a[0]);
        assert((seq![b[0]] + opened_at(b1, ta))[0] == b[0]);
        assert(a[0] == b[0]);
        assert(opened_at(a1, ta) =~= opened_at(a, ta).drop_first());
        assert(opened_at(b1, ta) =~= opened_at(b, ta).drop_first());
        assert forall|t: u64| #[trigger] opened_at(a1, t) == opened_at(b1, t) by {
            if t != ta {
                assert(opened_at(a, t) == opened_at(a1, t));
                assert(opened_at(b, t) == opened_at(b1, t));
            }
        }
        assert forall|i: int, j: int| 0 <= i < j < a1.len() implies (#[trigger] a1[i]).last_opened_at
            >= (#[trigger] a1[j]).last_opened_at by {
            assert(a1[i] == a[i + 1] && a1[j] == a[j + 1]);
        }
        assert forall|i: int, j: int| 0 <= i < j < b1.len() implies (#[trigger] b1[i]).last_opened_at
            >= (#[trigger] b1[j]).last_opened_at by {
            assert(b1[i] == b[i + 1] && b1[j] == b[j + 1]);
        }
        lemma_newest_first_unique(a1, b1);
        assert(a =~= b) by {
            assert forall|i: int| 0 <= i < a.len() implies a[i] == b[i] by {
                if i > 0 {
                    assert(a[i] == a1[i - 1] && b[i] == b1[i - 1]);
                }
            }
        }
    }
}

impl BookLibrary {
    /// The books the selection screen lists: all but those stored under the path
    /// `default_book_path` (as paths compare: `default.txt/` is that path too),
    /// most recently opened first, books opened at the same time keeping their
    /// shelf order.
    pub fn visible_books(&self, default_book_path: &str) -> (shown: Vec<BookMetadata>)
        ensures
            shown@.len() == books_except(self.books@, default_book_path@).len(),
            newest_first(shown@),
            forall|t: u64| #[trigger] opened_at(shown@, t) == opened_at(
                books_except(self.books@, default_book_path@),
                t,
            ),
    {
        let mut filtered: Vec<BookMetadata> = Vec::new();
        for i in 0..self.books.len()
            invariant
                filtered@ == books_except(self.books@.take(i as int), default_book_path@),
        {
            proof {
                assert(self.books@.take(i + 1) =~= self.books@.take(i as int).push(self.books@[i as int]));
                lemma_books_except_push(self.books@.take(i as int), self.books@[i as int], default_book_path@);
            }
            if !same_path(self.books[i].book_path.as_str(), default_book_path) {
                filtered.push(self.books[i].clone());
                assert(filtered@ =~= books_except(self.books@.take(i as int), default_book_path@) + seq![self.books@[i as int]]);
            } else {
                assert(books_except(self.books@.take(i + 1), default_book_path@) =~= books_except(self.books@.take(i as int), default_book_path@));
            }
        }
        assert(self.books@.take(self.books@.len() as int) =~= self.books@);

        let mut sorted: Vec<BookMetadata> = Vec::new();
        for i in 0..filtered.len()
            invariant
                sorted@.len() == i,
                newest_first(sorted@),
                forall|t: u64| #[trigger] opened_at(sorted@, t) == opened_at(filtered@.take(i as int), t),
        {
            let x = filtered[i].clone();
            let mut p: usize = 0;
            while p < sorted.len() && sorted[p].last_opened_at >= x.last_opened_at
                invariant
                    p <= sorted@.len(),
                    forall|k: int| 0 <= k < p ==> (#[trigger] sorted@[k]).last_opened_at >= x.last_opened_at,
                decreases sorted@.len() - p,
            {
                p = p + 1;
            }
            let ghost old_sorted = sorted@;
            proof {
                assert forall|k: int| p <= k < old_sorted.len() implies (#[trigger] old_sorted[k]).last_opened_at
                    < x.last_opened_at by {
                    if k > p {
                        assert(old_sorted[p as int].last_opened_at >= old_sorted[k].last_opened_at);
                    }
                }
            }
            sorted.insert(p, x);
            proof {
                let pre = old_sorted.take(p as int);
                let post = old_sorted.skip(p as int);
                assert(old_sorted =~= pre + post);
                assert(sorted@ =~= pre + seq![x] + post);
                assert forall|a: int, b: int| 0 <= a < b < sorted@.len() implies (#[trigger] sorted@[a]).last_opened_at
                    >= (#[trigger] sorted@[b]).last_opened_at by {
                    if b < p {
                    } else if b == p {
                    } else if a < p {
                        assert(sorted@[b] == old_sorted[b - 1]);
                        assert(sorted@[a] == old_sorted[a]);
                        assert(old_sorted[a].last_opened_at >= old_sorted[b - 1].last_opened_at);
                    } else if a == p {
                        assert(sorted@[b] == old_sorted[b - 1]);
                    } else {
                        assert(sorted@[b] == old_sorted[b - 1]);
                        assert(sorted@[a] == old_sorted[a - 1]);
                    }
                }
                assert(filtered@.take(i + 1) =~= filtered@.take(i as int) + seq![x]);
                assert forall|t: u64| #[trigger] opened_at(sorted@, t) == opened_at(filtered@.take(i + 1), t) by {
                    lemma_opened_at_concat(pre + seq![x], post, t);
                    lemma_opened_at_concat(pre, seq![x], t);
                    lemma_opened_at_concat(pre, post, t);
                    lemma_opened_at_concat(filtered@.take(i as int), seq![x], t);
                    lemma_opened_at_single(x, t);
                    if t == x.last_opened_at {
                        assert forall|k: int| 0 <= k < post.len() implies (#[trigger] post[k]).last_opened_at != t by {
                            assert(post[k] == old_sorted[p + k]);
                        }
                        lemma_opened_at_none(post, t);
                        assert(opened_at(sorted@, t) =~= opened_at(old_sorted, t) + seq![x]);
                    } else {
                        assert(opened_at(sorted@, t) =~= opened_at(old_sorted, t));
                    }
                }
            }
        }
        assert(filtered@.take(filtered@.len() as int) =~= filtered@);
        sorted
    }
}

} // verus!

verus! {

/// The record `activate_book` returns.
pub open spec fn activated_spec(books: Seq<BookMetadata>, id: spec_fn(Seq<char>) -> Seq<char>, book_path: String, opened_at: u64) -> BookMetadata {
    let base = match book_with_key(books, id, id(book_path@)) {
        Some(b) => b,
        None => BookMetadata::new_spec(book_path),
    };
    BookMetadata { last_opened_at: opened_at, ..base }
}

/// Law: right after a book is activated, the current book is that book, with
/// the progress it had before.
pub proof fn lemma_activate_then_current(books: Seq<BookMetadata>, id: spec_fn(Seq<char>) -> Seq<char>, book_path: String, opened_at: u64)
    ensures
        ({
            let b = activated_spec(books, id, book_path, opened_at);
            &&& book_with_key(upsert_spec(books, id, b), id, id(b.book_path@)) == Some(b)
            &&& book_with_key(books, id, id(book_path@)) matches Some(old_b) ==> b.current_offset
                == old_b.current_offset && b.file_len == old_b.file_len
        }),
{
    let b = activated_spec(books, id, book_path, opened_at);
    lemma_upsert_then_lookup(books, id, b);
}

/// Picks the shelf to start with: the saved shelf if there is one; else a shelf
/// migrated from the single-book record of older versions (that book current);
/// else a shelf holding only the default book.
pub fn migrate_library<F: Fn(&str) -> Option<String>>(
    loaded: Option<BookLibrary>,
    legacy: Option<BookMetadata>,
    default_book_path: String,
    resolve: &F,
    lower_case: bool,
) -> (lib: BookLibrary)
    requires
        resolver_ok(*resolve),
    ensures
        match loaded {
            Some(l) => lib == l,
            None => match legacy {
                Some(m) => lib.current_book_path == m.book_path && lib.books@ == upsert_spec(
                    seq![BookMetadata::new_spec(default_book_path)],
                    identity_under(*resolve, lower_case),
                    m,
                ),
                None => lib.current_book_path == default_book_path && lib.books@ == seq![
                    BookMetadata::new_spec(default_book_path),
                ],
            },
        },
{
    match loaded {
        Some(library) => library,
        None => match legacy {
            Some(metadata) => {
                let mut library = BookLibrary::new(default_book_path);
                library.current_book_path = metadata.book_path.clone();
                library.upsert_book(metadata, resolve, lower_case);
                library
            }
            None => BookLibrary::new(default_book_path),
        },
    }
}

} // verus!

