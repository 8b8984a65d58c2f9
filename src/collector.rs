use vstd::prelude::*;

use crate::structures::{Book, Page};

verus! {

/// The book can be downloaded in `file_format`.
pub open spec fn has_format(b: Book, file_format: Seq<char>) -> bool {
    b.available_types.deep_view().contains(file_format)
}

/// The books of `books` that can be downloaded in `file_format`, in order.
pub open spec fn books_with_format(books: Seq<Book>, file_format: Seq<char>) -> Seq<Book>
    decreases books.len(),
{
    if books.len() == 0 {
        Seq::empty()
    } else {
        let rest = books_with_format(books.drop_last(), file_format);
        if has_format(books.last(), file_format) {
            rest.push(books.last())
        } else {
            rest
        }
    }
}

/// Whether the book is offered in `file_format`.
pub fn book_has_format(book: &Book, file_format: &String) -> (r: bool)
    ensures
        r == has_format(*book, file_format@),
{
    let types = &book.available_types;
    let mut i: usize = 0;
    while i < types.len()
        invariant
            i <= types.len(),
            types.deep_view() == book.available_types.deep_view(),
            forall|k: int| 0 <= k < i ==> types.deep_view()[k] != file_format@,
        decreases types.len() - i,
    {
        if types[i] == *file_format {
            assert(types.deep_view()[i as int] == file_format@);
            return true;
        }
        i = i + 1;
    }
    assert(!types.deep_view().contains(file_format@));
    false
}

/// Keeps the books offered in `file_format`, in their order.
pub fn filter_books(books: Vec<Book>, file_format: &String) -> (r: Vec<Book>)
    ensures
        r@ == books_with_format(books@, file_format@),
{
    let ghost all = books@;
    let mut r: Vec<Book> = Vec::new();
    for book in it: books
        invariant
            it.seq() == all,
            r@ == books_with_format(all.subrange(0, it.index() as int), file_format@),
    {
        let ghost pre = all.subrange(0, it.index() + 1);
        assert(pre.drop_last() =~= all.subrange(0, it.index() as int));
        if book_has_format(&book, file_format) {
            r.push(book);
        }
    }
    assert(all.subrange(0, all.len() as int) =~= all);
    r
}

/// State of a paginated collection of an entity's books: the items of the
/// pages read so far, in page order, and the page to read next.
pub struct BookCollector {
    pub items: Vec<Book>,
    /// Number of the page to ask for next.
    pub next_page: u64,
    /// Number of pages the listing has, known once the first page is read.
    pub page_count: Option<u64>,
}

impl BookCollector {
    /// Nothing read yet: the first page comes first.
    pub fn new() -> (r: BookCollector)
        ensures
            r.wf(),
            r.items@.len() == 0,
            r.next_page == 1,
            r.page_count is None,
    {
        BookCollector { items: Vec::new(), next_page: 1, page_count: None }
    }

    /// The page counter agrees with what has been read: nothing, or the
    /// first page and then each page in turn.
    pub open spec fn wf(self) -> bool {
        match self.page_count {
            None => self.next_page == 1,
            Some(n) => n <= u32::MAX && 2 <= self.next_page && (self.next_page <= n + 1
                || self.next_page == 2),
        }
    }

    /// More pages are to be read.
    pub open spec fn wants_more(self) -> bool {
        match self.page_count {
            None => true,
            Some(n) => self.next_page <= n,
        }
    }

    /// The page to fetch next, or `None` once every page has been read.
    pub fn page_to_fetch(&self) -> (r: Option<u32>)
        requires
            self.wf(),
        ensures
            r is Some <==> self.wants_more(),
            r matches Some(p) ==> p as u64 == self.next_page,
    {
        match self.page_count {
            None => Some(self.next_page as u32),
            Some(n) => {
                if self.next_page <= n {
                    Some(self.next_page as u32)
                } else {
                    None
                }
            },
        }
    }

    /// Takes in the page just fetched: its items follow those read before,
    /// and the first page fixes how many pages there are.
    pub fn add_page(&mut self, page: Page<Book>)
        requires
            old(self).wf(),
            old(self).wants_more(),
        ensures
            final(self).wf(),
            final(self).items@ == old(self).items@ + page.items@,
            final(self).next_page == old(self).next_page + 1,
            final(self).page_count == (match old(self).page_count {
                None => Some(page.pages as u64),
                Some(n) => Some(n),
            }),
    {
        let mut items = page.items;
        self.items.append(&mut items);
        if self.page_count.is_none() {
            self.page_count = Some(page.pages as u64);
        }
        self.next_page = self.next_page + 1;
    }

    /// The books read, restricted to those offered in `file_format`.
    pub fn finish(self, file_format: &String) -> (r: Vec<Book>)
        ensures
            r@ == books_with_format(self.items@, file_format@),
    {
        filter_books(self.items, file_format)
    }
}

/// The pages that a collection reads, in order, with the items of each.
pub open spec fn collected_items(pages: Seq<Page<Book>>) -> Seq<Book>
    decreases pages.len(),
{
    if pages.len() == 0 {
        Seq::empty()
    } else {
        collected_items(pages.drop_last()) + pages.last().items@
    }
}

/// Collects books from pages handed in one after another, as the catalog
/// returns them, and keeps those offered in `file_format`. The first page
/// tells how many pages follow; the result holds the items of every page in
/// page order.
pub fn get_books(pages: Vec<Page<Book>>, file_format: &String) -> (r: Vec<Book>)
    ensures
        r@ == books_with_format(collected_items(pages@), file_format@),
{
    let ghost all = pages@;
    let mut items: Vec<Book> = Vec::new();
    for page in it: pages
        invariant
            it.seq() == all,
            items@ == collected_items(all.subrange(0, it.index() as int)),
    {
        let ghost pre = all.subrange(0, it.index() + 1);
        assert(pre.drop_last() =~= all.subrange(0, it.index() as int));
        let mut page_items = page.items;
        items.append(&mut page_items);
    }
    assert(all.subrange(0, all.len() as int) =~= all);
    filter_books(items, file_format)
}

} // verus!
