use bookshelf::entry::Entry;
use bookshelf::shelf::{Error, Shelf};
use bookshelf::tag::Tag;

fn entry(path: &str) -> Entry {
    Entry::new(Some(path)).unwrap()
}

#[test]
fn round_trip() {
    let mut shelf = Shelf::default();
    let plain = entry("/books/plain.txt");
    let rich = entry("/books/rich.txt")
        .with_bib(Some("/books/rich.bib"))
        .unwrap()
        .with_tags(&[Tag::new("fiction"), Tag::new("classics")])
        .unwrap();
    let gone = entry("/books/gone.txt").with_tags(&[Tag::new("lost")]).unwrap();
    assert!(shelf.add(&plain).is_ok());
    assert!(shelf.add(&rich).is_ok());
    assert!(shelf.add(&gone).is_ok());
    // Removal leaves the removed entry's tag in the tag index, so the
    // index is not derivable from the remaining entries.
    assert!(shelf.remove(&gone).is_ok());

    let data = shelf.save();
    let reopened = Shelf::open(&data).unwrap();

    assert_eq!(reopened.len(), 2);
    let first = reopened.get_index(1).unwrap();
    assert_eq!(first.path().as_str(), "/books/plain.txt");
    assert!(first.bib_path().is_none());
    assert!(first.tags().is_none());

    let second = reopened.get_index(2).unwrap();
    assert_eq!(second.path().as_str(), "/books/rich.txt");
    assert_eq!(second.bib_path().as_ref().unwrap().as_str(), "/books/rich.bib");
    let tags = second.tags().as_ref().unwrap();
    assert_eq!(tags.len(), 2);
    assert_eq!(tags[0].keyword(), "classics");
    assert_eq!(tags[1].keyword(), "fiction");

    // The tag index lists tags in first-seen order: the rich entry's
    // sorted tag list first, then the removed entry's tag, still here.
    assert_eq!(reopened.tags().len(), 3);
    assert_eq!(reopened.tags()[0].keyword(), "classics");
    assert_eq!(reopened.tags()[1].keyword(), "fiction");
    assert_eq!(reopened.tags()[2].keyword(), "lost");
}

#[test]
fn round_trip_empty() {
    let shelf = Shelf::default();
    let data = shelf.save();
    let reopened = Shelf::open(&data).unwrap();
    assert_eq!(reopened.len(), 0);
    assert_eq!(reopened.tags().len(), 0);
}

#[test]
fn open_rejects_garbage() {
    assert!(matches!(Shelf::open(&[]), Err(Error::Read)));
    assert!(matches!(Shelf::open(&[1, 2, 3]), Err(Error::Read)));
    assert!(matches!(Shelf::open("not a shelf".as_bytes()), Err(Error::Read)));
}

#[test]
fn open_rejects_truncation_and_trailing_bytes() {
    let mut shelf = Shelf::default();
    assert!(shelf.add(&entry("/books/book.txt")).is_ok());
    let data = shelf.save();

    let truncated = &data[..data.len() - 1];
    assert!(matches!(Shelf::open(truncated), Err(Error::Read)));

    let mut trailing = data.clone();
    trailing.push(0);
    assert!(matches!(Shelf::open(&trailing), Err(Error::Read)));
}

#[test]
fn open_rejects_colliding_identities() {
    // Two saved shelves spliced together would carry one identity twice;
    // a blob listing the same location twice is rejected.
    let mut shelf = Shelf::default();
    assert!(shelf.add(&entry("/books/book.txt")).is_ok());
    let one = shelf.save();

    // Rebuild the blob by hand: entry count two, the same entry bytes
    // twice, and the empty tag index.
    let entry_bytes = &one[8..one.len() - 8];
    let mut doubled: Vec<u8> = Vec::new();
    doubled.extend_from_slice(&2u64.to_le_bytes());
    doubled.extend_from_slice(entry_bytes);
    doubled.extend_from_slice(entry_bytes);
    doubled.extend_from_slice(&0u64.to_le_bytes());
    assert!(matches!(Shelf::open(&doubled), Err(Error::Read)));
}
