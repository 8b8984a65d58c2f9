use batch_downloader::collector::{filter_books, get_books, BookCollector};
use batch_downloader::structures::{Book, Page};

fn book(id: u64, types: &[&str]) -> Book {
    Book { id, available_types: types.iter().map(|t| t.to_string()).collect() }
}

fn page(n: u32, pages: u32, items: Vec<Book>) -> Page<Book> {
    Page { total: 0, page: n, size: 50, pages, items }
}

fn ids(books: &[Book]) -> Vec<u64> {
    books.iter().map(|b| b.id).collect()
}

#[test]
fn filter_keeps_books_in_format_in_order() {
    let books = vec![book(1, &["fb2", "epub"]), book(2, &["pdf"]), book(3, &["epub"]), book(4, &[])];
    assert_eq!(ids(&filter_books(books, &"epub".to_string())), vec![1, 3]);
    assert!(filter_books(vec![book(9, &["pdf"])], &"fb2".to_string()).is_empty());
}

#[test]
fn collector_reads_every_page_in_order() {
    let mut c = BookCollector::new();
    assert_eq!(c.page_to_fetch(), Some(1));
    c.add_page(page(1, 3, vec![book(1, &["fb2"]), book(2, &["epub"])]));
    assert_eq!(c.page_to_fetch(), Some(2));
    c.add_page(page(2, 3, vec![book(3, &["fb2"])]));
    assert_eq!(c.page_to_fetch(), Some(3));
    c.add_page(page(3, 3, vec![book(4, &["fb2"])]));
    assert_eq!(c.page_to_fetch(), None);
    assert_eq!(ids(&c.finish(&"fb2".to_string())), vec![1, 3, 4]);
}

#[test]
fn collector_with_single_or_empty_listing_stops_after_first_page() {
    let mut c = BookCollector::new();
    c.add_page(page(1, 1, vec![book(1, &["fb2"])]));
    assert_eq!(c.page_to_fetch(), None);
    let mut e = BookCollector::new();
    e.add_page(page(1, 0, vec![]));
    assert_eq!(e.page_to_fetch(), None);
    assert!(e.finish(&"fb2".to_string()).is_empty());
}

#[test]
fn get_books_concatenates_pages_then_filters() {
    let pages = vec![
        page(1, 2, vec![book(10, &["epub"]), book(11, &["fb2"])]),
        page(2, 2, vec![book(12, &["fb2", "epub"])]),
    ];
    assert_eq!(ids(&get_books(pages, &"fb2".to_string())), vec![11, 12]);
}
