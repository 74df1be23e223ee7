use bookshelf::entry::Entry;
use bookshelf::shelf::{Error, Shelf};
use bookshelf::tag::Tag;

fn entry(path: &str) -> Entry {
    Entry::new(Some(path)).unwrap()
}

#[test]
fn no_duplicate_tags() {
    let entry1 = entry("/books/book.txt").with_tags(&[Tag::new("fiction")]).unwrap();
    let entry2 = entry("/books/another_book.txt")
        .with_tags(&[Tag::new("fiction"), Tag::new("classics")])
        .unwrap();

    let mut shelf = Shelf::default();

    assert!(shelf.add(&entry1).is_ok());
    assert!(shelf.add(&entry2).is_ok());

    assert_eq!(shelf.tags().len(), 2);

    let mut tags_vec = shelf.tags().iter().collect::<Vec<&Tag>>();
    tags_vec.sort_by(|a, b| a.keyword().cmp(b.keyword()));

    assert_eq!(tags_vec[0], &Tag::new("classics"));
    assert_eq!(tags_vec[1], &Tag::new("fiction"));
}

#[test]
fn identity_collision_on_add() {
    // Two entries whose paths resolved to the same file collide: the
    // second add fails and the shelf keeps a single entry.
    let entry1 = entry("/books/book.txt");
    let entry2 = entry("/books/book.txt").with_tags(&[Tag::new("fiction")]).unwrap();
    assert!(entry1 == entry2);

    let mut shelf = Shelf::default();
    assert!(shelf.add(&entry1).is_ok());
    assert_eq!(shelf.len(), 1);
    assert!(matches!(shelf.add(&entry2), Err(Error::DuplicateEntry)));
    assert_eq!(shelf.len(), 1);
}

#[test]
fn order_preserved_on_removal() {
    let paths = ["/b/one", "/b/two", "/b/three", "/b/four", "/b/five"];
    let mut shelf = Shelf::default();
    for p in paths {
        assert!(shelf.add(&entry(p)).is_ok());
    }

    assert!(shelf.remove_index(3).is_ok());

    assert_eq!(shelf.len(), 4);
    assert_eq!(shelf.get_index(1).unwrap().path().as_str(), "/b/one");
    assert_eq!(shelf.get_index(2).unwrap().path().as_str(), "/b/two");
    // The former fourth entry now sits at position three, the former
    // fifth at position four.
    assert_eq!(shelf.get_index(3).unwrap().path().as_str(), "/b/four");
    assert_eq!(shelf.get_index(4).unwrap().path().as_str(), "/b/five");
}

#[test]
fn remove_by_entry() {
    let mut shelf = Shelf::default();
    let e1 = entry("/b/one");
    let e2 = entry("/b/two");
    assert!(shelf.add(&e1).is_ok());
    assert!(shelf.add(&e2).is_ok());

    assert!(shelf.remove(&e1).is_ok());
    assert_eq!(shelf.len(), 1);
    assert_eq!(shelf.get_index(1).unwrap().path().as_str(), "/b/two");

    assert!(matches!(shelf.remove(&e1), Err(Error::NoSuchEntry)));
    assert_eq!(shelf.len(), 1);
}

#[test]
fn out_of_range_lookup() {
    let mut empty = Shelf::default();
    assert!(matches!(empty.get_index(0), Err(Error::NoSuchEntry)));
    assert!(matches!(empty.get_index(1), Err(Error::NoSuchEntry)));
    assert!(matches!(empty.remove_index(0), Err(Error::NoSuchEntry)));
    assert!(matches!(empty.remove_index(1), Err(Error::NoSuchEntry)));
    assert_eq!(empty.len(), 0);

    let mut shelf = Shelf::default();
    assert!(shelf.add(&entry("/b/one")).is_ok());
    assert!(shelf.add(&entry("/b/two")).is_ok());
    assert!(matches!(shelf.get_index(0), Err(Error::NoSuchEntry)));
    assert!(matches!(shelf.get_index(3), Err(Error::NoSuchEntry)));
    assert!(matches!(shelf.remove_index(0), Err(Error::NoSuchEntry)));
    assert!(matches!(shelf.remove_index(3), Err(Error::NoSuchEntry)));
    // The failed lookups left the shelf unmodified.
    assert_eq!(shelf.len(), 2);
    assert_eq!(shelf.get_index(1).unwrap().path().as_str(), "/b/one");
    assert_eq!(shelf.get_index(2).unwrap().path().as_str(), "/b/two");
}

#[test]
fn tags_are_kept_after_removal() {
    // The tag index records every tag ever seen and never shrinks.
    let tagged = entry("/b/one").with_tags(&[Tag::new("fiction")]).unwrap();
    let mut shelf = Shelf::default();
    assert!(shelf.add(&tagged).is_ok());
    assert!(shelf.remove(&tagged).is_ok());
    assert_eq!(shelf.len(), 0);
    assert_eq!(shelf.tags().len(), 1);
    assert_eq!(shelf.tags()[0].keyword(), "fiction");
}

#[test]
fn error_messages() {
    assert_eq!(Error::DuplicateEntry.message(), "The entry is already on the shelf");
    assert_eq!(Error::NoSuchEntry.message(), "The requested entry is not on the shelf");
    assert_eq!(Error::Write.message(), "Writing to the database failed");
    assert_eq!(Error::Read.message(), "Reading from the database failed");
}
