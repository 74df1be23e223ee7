use biblatex::{ChunksExt, EntryType};
use bookshelf::entry::Entry;
use bookshelf::shelf::Error;
use bookshelf::tag::Tag;

#[test]
fn file_does_not_exist() {
    // A path that did not resolve is rejected at construction.
    let r = Entry::new(None);
    assert!(matches!(r, Err(Error::InvalidLocation)));
}

#[test]
fn two_symlinks_same_file() {
    // Two different raw paths (say, two symlinks) that resolve to one
    // file yield the same entry: identity is the resolved location.
    let entry1 = Entry::new(Some("/books/book.txt")).unwrap();
    let entry2 = Entry::new(Some("/books/book.txt"))
        .unwrap()
        .with_tags(&[Tag::new("fiction")])
        .unwrap();

    assert!(entry1 == entry2);
}

#[test]
fn not_a_bib_file() {
    let book = Entry::new(Some("/books/book.txt")).unwrap();
    let r = book.with_bib(Some("/books/invalid"));
    assert!(matches!(r, Err(Error::WrongFileKind)));
    // The original entry's bibliography reference stays unset.
    assert!(book.bib_path().is_none());
}

#[test]
fn bib_extension_needs_a_stem() {
    let book = Entry::new(Some("/books/book.txt")).unwrap();
    // A file named exactly ".bib" has no stem and no extension.
    assert!(matches!(book.with_bib(Some("/books/.bib")), Err(Error::WrongFileKind)));
    // A dotless name has no extension either.
    assert!(matches!(book.with_bib(Some("/books/bib")), Err(Error::WrongFileKind)));
    // A name with an inner dot still ends in the recognized extension.
    assert!(book.with_bib(Some("/books/b.tar.bib")).is_ok());
}

#[test]
fn missing_bib_file() {
    let book = Entry::new(Some("/books/book.txt")).unwrap();
    let r = book.with_bib(None);
    assert!(matches!(r, Err(Error::InvalidLocation)));
}

#[test]
fn duplicate_tags() {
    let r = Entry::new(Some("/books/book.txt"))
        .unwrap()
        .with_tags(&[Tag::new("fiction"), Tag::new("fiction")]);
    assert!(matches!(r, Err(Error::DuplicateTag)));
}

#[test]
fn tags_are_sorted() {
    let book = Entry::new(Some("/books/book.txt"))
        .unwrap()
        .with_tags(&[Tag::new("fiction"), Tag::new("classics"), Tag::new("epic")])
        .unwrap();
    let tags = book.tags().as_ref().unwrap();
    assert_eq!(tags.len(), 3);
    assert_eq!(tags[0].keyword(), "classics");
    assert_eq!(tags[1].keyword(), "epic");
    assert_eq!(tags[2].keyword(), "fiction");
}

#[test]
fn no_bib_reference_resolves_to_nothing() {
    let book = Entry::new(Some("/books/book.txt")).unwrap();
    let r = book.get_bib_entry(Some("@book{book, title = \"A Book\"}"));
    assert!(matches!(r, Ok(None)));
}

#[test]
fn unreadable_bib_file() {
    let book = Entry::new(Some("/books/book.txt"))
        .unwrap()
        .with_bib(Some("/books/book.bib"))
        .unwrap();
    let r = book.get_bib_entry(None);
    assert!(matches!(r, Err(Error::UnreadableBibliography)));
}

#[test]
fn unparsable_bib_file() {
    let book = Entry::new(Some("/books/book.txt"))
        .unwrap()
        .with_bib(Some("/books/book.bib"))
        .unwrap();
    let r = book.get_bib_entry(Some("@book{broken"));
    assert!(matches!(r, Err(Error::UnparsableBibliography)));
}

#[test]
fn empty_bib_file() {
    // An empty bibliography parses but holds no record under the cite key.
    let book = Entry::new(Some("/books/book.txt"))
        .unwrap()
        .with_bib(Some("/books/empty.bib"))
        .unwrap();
    let r = book.get_bib_entry(Some(""));
    assert!(matches!(r, Err(Error::UnknownCiteKey)));
}

#[test]
fn abbreviation_chain_is_malformed() {
    // A self-referential abbreviation: resolving it could never come to
    // an end, so the contents count as malformed and the parser is not
    // even invoked.
    let book = Entry::new(Some("/books/book.txt"))
        .unwrap()
        .with_bib(Some("/books/book.bib"))
        .unwrap();
    let r = book.get_bib_entry(Some("@string{a = a}\n@book{book, title = a}"));
    assert!(matches!(r, Err(Error::UnparsableBibliography)));
}

#[test]
fn crossref_links_are_malformed() {
    // Records linking records: a reference cycle could keep resolution
    // from ever returning, so linking fields count as malformed.
    let book = Entry::new(Some("/books/book.txt"))
        .unwrap()
        .with_bib(Some("/books/book.bib"))
        .unwrap();
    let linked = "@book{book, crossref = {other}}\n@book{other, title = \"T\"}";
    assert!(matches!(book.get_bib_entry(Some(linked)), Err(Error::UnparsableBibliography)));
    let data = "@book{book, xdata = {other}}\n@book{other, title = \"T\"}";
    assert!(matches!(book.get_bib_entry(Some(data)), Err(Error::UnparsableBibliography)));
}

#[test]
fn plain_abbreviations_resolve() {
    // An abbreviation defined by a literal resolves in one step and is
    // accepted.
    let src = "@string{pub = \"Nice Books\"}\n@book{book, title = \"T\", publisher = pub}";
    let book = Entry::new(Some("/books/book.txt"))
        .unwrap()
        .with_bib(Some("/books/book.bib"))
        .unwrap();
    let record = book.get_bib_entry(Some(src)).unwrap().unwrap();
    assert_eq!(record.title().unwrap().format_verbatim(), "T");
}

#[test]
fn bib_resolution_is_deterministic() {
    // Reading the record through twice over the same contents yields the
    // same record; nothing is cached on the entry.
    let src = "@book{book, title = \"A Good Book\", year = 2022}";
    let book = Entry::new(Some("/books/book.txt"))
        .unwrap()
        .with_bib(Some("/books/book.bib"))
        .unwrap();
    let first = book.get_bib_entry(Some(src)).unwrap().unwrap();
    let second = book.get_bib_entry(Some(src)).unwrap().unwrap();
    assert_eq!(first, second);
    assert!(book.bib_path().is_some());
}

#[test]
fn correct_bib_file() {
    let bib_entry = "@book{book,
                title     = \"A Good Book\",
                author    = \"Good, Writer\",
                year      = 2022,
                publisher = \"Good Publisher LLC\",
                address   = \"Goodwill\"
            }";

    let book = Entry::new(Some("/books/book.txt"))
        .unwrap()
        .with_bib(Some("/books/book.bib"))
        .unwrap();
    let record = book.get_bib_entry(Some(bib_entry)).unwrap().unwrap();

    assert_eq!(record.entry_type, EntryType::Book);
    assert_eq!(record.title().unwrap().format_verbatim(), "A Good Book");
}
