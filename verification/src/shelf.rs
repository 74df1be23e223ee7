use indexmap::IndexSet;
use vstd::prelude::*;
use vstd::std_specs::cmp::PartialEqSpec;

use crate::entry::{entry_view_inv, tag_views, Entry, EntryView};
use crate::index::{
    index_get_index_of, index_insert, index_new, index_shift_remove_index, locs_of,
};
use crate::tag::Tag;

verus! {

/// Errors associated with building catalog entries and operating a [`Shelf`].
#[derive(Debug, Clone, Copy, PartialEq, Eq, Structural)]
pub enum Error {
    /// The path provided did not resolve to an existing file.
    InvalidLocation,
    /// The bibliography file provided does not carry the recognized
    /// bibliography extension.
    WrongFileKind,
    /// The tag list provided contains two equal tags.
    DuplicateTag,
    /// The entry specified is already on the [`Shelf`].
    DuplicateEntry,
    /// The entry requested is not on the [`Shelf`].
    NoSuchEntry,
    /// The bibliography file's contents could not be read.
    UnreadableBibliography,
    /// The bibliography file's contents could not be parsed.
    UnparsableBibliography,
    /// No record in the bibliography file matches the entry's cite key.
    UnknownCiteKey,
    /// Writing the [`Shelf`] to the file specified failed.
    Write,
    /// Reading the [`Shelf`] from the file specified failed.
    Read,
}

impl Error {
    /// A short description of the error, suitable for user-facing messages.
    pub fn message(&self) -> (m: &'static str)
        ensures
            self is InvalidLocation ==> m@ == "The file provided does not exist"@,
            self is WrongFileKind ==> m@ == "The file provided is not a BibTeX file"@,
            self is DuplicateTag ==> m@ == "The tags array contains duplicate tags"@,
            self is DuplicateEntry ==> m@ == "The entry is already on the shelf"@,
            self is NoSuchEntry ==> m@ == "The requested entry is not on the shelf"@,
            self is UnreadableBibliography ==> m@ == "Failed to read the contents of the file"@,
            self is UnparsableBibliography ==> m@ == "Failed to parse the bibliographic string"@,
            self is UnknownCiteKey ==> m@
                == "Failed to get the bibliographic entry: invalid cite key"@,
            self is Write ==> m@ == "Writing to the database failed"@,
            self is Read ==> m@ == "Reading from the database failed"@,
    {
        match self {
            Error::InvalidLocation => "The file provided does not exist",
            Error::WrongFileKind => "The file provided is not a BibTeX file",
            Error::DuplicateTag => "The tags array contains duplicate tags",
            Error::DuplicateEntry => "The entry is already on the shelf",
            Error::NoSuchEntry => "The requested entry is not on the shelf",
            Error::UnreadableBibliography => "Failed to read the contents of the file",
            Error::UnparsableBibliography => "Failed to parse the bibliographic string",
            Error::UnknownCiteKey => "Failed to get the bibliographic entry: invalid cite key",
            Error::Write => "Writing to the database failed",
            Error::Read => "Reading from the database failed",
        }
    }
}

/// The identity key of each entry in a list, in order.
pub open spec fn locations(entries: Seq<EntryView>) -> Seq<Seq<char>> {
    entries.map_values(|e: EntryView| e.path)
}

/// The spec-level value of each entry in a list, in order.
pub open spec fn entry_views(entries: Seq<Entry>) -> Seq<EntryView> {
    entries.map_values(|e: Entry| e@)
}

/// The tag keywords an entry carries; the empty sequence when it has none.
pub open spec fn entry_tag_list(e: EntryView) -> Seq<Seq<char>> {
    match e.tags {
        Some(ts) => ts,
        None => Seq::empty(),
    }
}

/// Folds a list of keywords into a tag index: keywords not yet in the
/// index are appended in the order they appear, the rest are dropped.
pub open spec fn merge_tags(tags: Seq<Seq<char>>, new: Seq<Seq<char>>) -> Seq<Seq<char>>
    decreases new.len(),
{
    if new.len() == 0 {
        tags
    } else if tags.contains(new[0]) {
        merge_tags(tags, new.drop_first())
    } else {
        merge_tags(tags.push(new[0]), new.drop_first())
    }
}

/// The spec-level value of a [`Shelf`]: its entries in insertion order,
/// and its tag index in the order tags were first seen.
pub struct ShelfView {
    /// The entries, in insertion order.
    pub entries: Seq<EntryView>,
    /// Every tag keyword ever seen on an added entry, in first-seen order.
    pub tags: Seq<Seq<char>>,
}

/// The view of a shelf with nothing on it.
pub open spec fn empty_shelf() -> ShelfView {
    ShelfView { entries: Seq::empty(), tags: Seq::empty() }
}

/// What every shelf reachable through this type's operations satisfies:
/// entry identities are pairwise distinct, the tag index is duplicate-free,
/// and every entry satisfies its own invariant.
pub open spec fn shelf_view_inv(s: ShelfView) -> bool {
    &&& locations(s.entries).no_duplicates()
    &&& s.tags.no_duplicates()
    &&& forall|i: int| 0 <= i < s.entries.len() ==> entry_view_inv(#[trigger] s.entries[i])
}

/// What adding an entry does to a shelf: an entry whose identity is
/// already present is refused, any other entry is appended at the end and
/// its tags are merged into the tag index.
pub open spec fn spec_add(s: ShelfView, e: EntryView) -> (ShelfView, Result<(), Error>) {
    if locations(s.entries).contains(e.path) {
        (s, Err(Error::DuplicateEntry))
    } else {
        (
            ShelfView {
                entries: s.entries.push(e),
                tags: merge_tags(s.tags, entry_tag_list(e)),
            },
            Ok(()),
        )
    }
}

/// What removing the entry at a valid 1-based position does to a shelf:
/// the entry leaves, every later entry shifts down one position, and the
/// tag index keeps every tag it ever saw.
pub open spec fn spec_remove_at(s: ShelfView, index: int) -> ShelfView {
    ShelfView { entries: s.entries.remove(index - 1), tags: s.tags }
}

/// Identity via resolution: two entries whose resolved locations are equal
/// are the same entry, so adding both to an empty shelf keeps a single
/// entry, the second add failing with [`Error::DuplicateEntry`].
pub proof fn lemma_identity_collision(e1: Entry, e2: Entry)
    requires
        e1@.path == e2@.path,
    ensures
        e1.eq_spec(&e2),
        spec_add(empty_shelf(), e1@).1 == Ok::<(), Error>(()),
        spec_add(empty_shelf(), e1@).0.entries.len() == 1,
        spec_add(spec_add(empty_shelf(), e1@).0, e2@).1 == Err::<(), Error>(Error::DuplicateEntry),
        spec_add(spec_add(empty_shelf(), e1@).0, e2@).0 == spec_add(empty_shelf(), e1@).0,
{
    let s0 = empty_shelf();
    assert(!locations(s0.entries).contains(e1@.path));
    let s1 = spec_add(s0, e1@).0;
    assert(s1.entries =~= s0.entries.push(e1@));
    assert(locations(s1.entries)[0] == e1@.path);
    assert(locations(s1.entries).contains(e2@.path));
}

/// Order preservation under removal: removing the entry at one position
/// drops exactly that entry, leaves every earlier entry at its position,
/// and shifts every later entry down one position.
pub proof fn lemma_order_preserved_on_removal(s: ShelfView, index: int)
    requires
        1 <= index <= s.entries.len(),
    ensures
        spec_remove_at(s, index).entries.len() == s.entries.len() - 1,
        forall|j: int|
            0 <= j < index - 1 ==> spec_remove_at(s, index).entries[j] == s.entries[j],
        forall|j: int|
            index - 1 <= j < s.entries.len() - 1 ==> spec_remove_at(s, index).entries[j]
                == s.entries[j + 1],
        spec_remove_at(s, index).tags == s.tags,
{
}

/// Removing any element from a duplicate-free sequence leaves it
/// duplicate-free.
proof fn lemma_remove_no_dup<A>(s: Seq<A>, i: int)
    requires
        s.no_duplicates(),
        0 <= i < s.len(),
    ensures
        s.remove(i).no_duplicates(),
{
    let r = s.remove(i);
    assert forall|a: int, b: int|
        0 <= a < r.len() && 0 <= b < r.len() && a != b implies r[a] != r[b] by {
        let a0 = if a < i { a } else { a + 1 };
        let b0 = if b < i { b } else { b + 1 };
        assert(r[a] == s[a0]);
        assert(r[b] == s[b0]);
    }
}

/// Merging keywords into a tag index adds each keyword at most once.
proof fn lemma_merge_tags_push(tags: Seq<Seq<char>>, new: Seq<Seq<char>>, x: Seq<char>)
    ensures
        merge_tags(tags, new.push(x)) == (if merge_tags(tags, new).contains(x) {
            merge_tags(tags, new)
        } else {
            merge_tags(tags, new).push(x)
        }),
    decreases new.len(),
{
    if new.len() == 0 {
        assert(new.push(x)[0] == x);
        assert(new.push(x).drop_first().len() == 0);
        assert(merge_tags(tags, new) == tags);
        if tags.contains(x) {
            assert(merge_tags(tags, new.push(x)) == merge_tags(tags, new.push(x).drop_first()));
            assert(merge_tags(tags, new.push(x).drop_first()) == tags);
        } else {
            assert(merge_tags(tags, new.push(x)) == merge_tags(
                tags.push(x),
                new.push(x).drop_first(),
            ));
            assert(merge_tags(tags.push(x), new.push(x).drop_first()) == tags.push(x));
        }
    } else {
        assert(new.push(x)[0] == new[0]);
        assert(new.push(x).drop_first() =~= new.drop_first().push(x));
        if tags.contains(new[0]) {
            lemma_merge_tags_push(tags, new.drop_first(), x);
            assert(merge_tags(tags, new.push(x)) == merge_tags(tags, new.drop_first().push(x)));
            assert(merge_tags(tags, new) == merge_tags(tags, new.drop_first()));
        } else {
            lemma_merge_tags_push(tags.push(new[0]), new.drop_first(), x);
            assert(merge_tags(tags, new.push(x)) == merge_tags(
                tags.push(new[0]),
                new.drop_first().push(x),
            ));
            assert(merge_tags(tags, new) == merge_tags(tags.push(new[0]), new.drop_first()));
        }
    }
}

/// Decides whether a tag with the given keyword is already in a tag list.
fn contains_tag(tags: &Vec<Tag>, t: &Tag) -> (r: bool)
    ensures
        r == tag_views(tags@).contains(t@),
{
    let n = tags.len();
    let mut i: usize = 0;
    while i < n
        invariant
            i <= n,
            n == tags@.len(),
            forall|j: int| 0 <= j < i ==> tag_views(tags@)[j] != t@,
        decreases n - i,
    {
        if tags[i] == *t {
            proof {
                assert(tag_views(tags@)[i as int] == t@);
            }
            return true;
        }
        i = i + 1;
    }
    false
}

/// A storage for entries, which can be books, articles, and the like, as
/// well as the tags those entries have.
///
/// The entries are kept in insertion order, duplicate-free by identity:
/// a hash index from each entry's resolved location to its position backs
/// the ordered list, so membership is decided without scanning.  The tag
/// index holds every tag ever seen on an added entry and never shrinks
/// when entries are removed.  A shelf can be serialized to and restored
/// from a binary blob.
pub struct Shelf {
    /// Items on the shelf, in insertion order.
    entries: Vec<Entry>,
    /// The identity index: each entry's resolved location, in the same
    /// order as `entries`.
    index: IndexSet<String>,
    /// All tags ever seen on entries, in first-seen order.
    tags: Vec<Tag>,
}

impl View for Shelf {
    type V = ShelfView;

    closed spec fn view(&self) -> ShelfView {
        ShelfView { entries: entry_views(self.entries@), tags: tag_views(self.tags@) }
    }
}

impl Shelf {
    /// Whether the shelf's representation is intact: the published
    /// invariant holds of its view, and the identity index lists exactly
    /// the entries' resolved locations, in the entries' order.
    pub closed spec fn wf(&self) -> bool {
        &&& shelf_view_inv(self@)
        &&& locs_of(self.index) == locations(self@.entries)
    }

    /// A well-formed shelf's view satisfies the published invariant.
    pub proof fn lemma_wf_inv(&self)
        requires
            self.wf(),
        ensures
            shelf_view_inv(self@),
    {
    }

    /// Adds a new [`Entry`] and its tags to the shelf if those were not
    /// present before.  The referenced values are copied.  The entries are
    /// stored in the order of insertion, and this order is preserved on
    /// removal from the shelf.
    ///
    /// # Errors
    ///
    /// Fails with [`Error::DuplicateEntry`], leaving the shelf untouched,
    /// if an entry with the same resolved location is already on the shelf.
    pub fn add(&mut self, entry: &Entry) -> (r: Result<(), Error>)
        requires
            old(self).wf(),
            entry.inv(),
        ensures
            final(self).wf(),
            final(self)@ == spec_add(old(self)@, entry@).0,
            r == spec_add(old(self)@, entry@).1,
    {
        let ghost old_view = self@;
        let inserted = index_insert(&mut self.index, entry.path().clone());
        if !inserted {
            proof {
                assert(locations(old_view.entries).contains(entry@.path));
            }
            return Err(Error::DuplicateEntry);
        }
        proof {
            assert(!locations(old_view.entries).contains(entry@.path));
        }
        self.entries.push(entry.clone());
        proof {
            assert(entry_views(self.entries@) =~= old_view.entries.push(entry@));
            assert(locations(self@.entries) =~= locations(old_view.entries).push(entry@.path));
            assert(locations(self@.entries).no_duplicates());
        }
        match entry.tags() {
            Some(ts) => {
                let ghost mid_entries = self.entries@;
                let ghost mid_locs = locs_of(self.index);
                let ghost tags0 = tag_views(self.tags@);
                let ghost new_views = tag_views(ts@);
                let n = ts.len();
                let mut k: usize = 0;
                proof {
                    assert(new_views.take(0) =~= Seq::<Seq<char>>::empty());
                }
                while k < n
                    invariant
                        k <= n,
                        n == ts@.len(),
                        new_views == tag_views(ts@),
                        self.entries@ == mid_entries,
                        locs_of(self.index) == mid_locs,
                        tag_views(self.tags@) == merge_tags(tags0, new_views.take(k as int)),
                        tag_views(self.tags@).no_duplicates(),
                    decreases n - k,
                {
                    let ghost cur = tag_views(self.tags@);
                    let t = &ts[k];
                    let present = contains_tag(&self.tags, t);
                    if !present {
                        self.tags.push(t.clone());
                        proof {
                            assert(tag_views(self.tags@) =~= cur.push(t@));
                            assert(forall|j: int| 0 <= j < cur.len() ==> cur[j] != t@);
                        }
                    }
                    proof {
                        lemma_merge_tags_push(tags0, new_views.take(k as int), t@);
                        assert(new_views.take(k + 1) =~= new_views.take(k as int).push(t@));
                    }
                    k = k + 1;
                }
                proof {
                    assert(new_views.take(n as int) =~= new_views);
                    assert(entry_tag_list(entry@) == new_views);
                }
                Ok(())
            },
            None => {
                proof {
                    assert(entry_tag_list(entry@) =~= Seq::<Seq<char>>::empty());
                }
                Ok(())
            },
        }
    }

    /// Removes the given [`Entry`] from the shelf, resolved by identity.
    /// Preserves the relative order of the remaining entries; the tag
    /// index keeps every tag it ever saw.
    ///
    /// # Errors
    ///
    /// Fails with [`Error::NoSuchEntry`], leaving the shelf untouched, if
    /// no entry with the same resolved location is on the shelf.
    pub fn remove(&mut self, entry: &Entry) -> (r: Result<(), Error>)
        requires
            old(self).wf(),
        ensures
            final(self).wf(),
            r is Ok <==> locations(old(self)@.entries).contains(entry@.path),
            r is Ok ==> final(self)@.entries == old(self)@.entries.remove(
                locations(old(self)@.entries).index_of(entry@.path),
            ) && final(self)@.tags == old(self)@.tags,
            r is Err ==> r == Err::<(), Error>(Error::NoSuchEntry) && final(self)@ == old(self)@,
    {
        let ghost old_view = self@;
        let pos = index_get_index_of(&self.index, entry.path());
        match pos {
            Some(i) => {
                proof {
                    let locs = locations(old_view.entries);
                    assert(locs[i as int] == entry@.path);
                    assert(locs.contains(entry@.path));
                    let i0 = locs.index_of(entry@.path);
                    assert(locs[i0] == entry@.path);
                    assert(i0 == i);
                    assert(old_view.entries.len() == locs.len());
                }
                self.entries.remove(i);
                let _ = index_shift_remove_index(&mut self.index, i);
                proof {
                    assert(entry_views(self.entries@) =~= old_view.entries.remove(i as int));
                    assert(locations(self@.entries) =~= locations(old_view.entries).remove(
                        i as int,
                    ));
                    lemma_remove_no_dup(locations(old_view.entries), i as int);
                }
                Ok(())
            },
            None => Err(Error::NoSuchEntry),
        }
    }

    /// Retrieves a reference to an [`Entry`] by its **1-based** position
    /// in insertion order.
    ///
    /// # Errors
    ///
    /// Fails with [`Error::NoSuchEntry`] if the position is outside
    /// `[1, count]`.
    pub fn get_index(&self, index: usize) -> (r: Result<&Entry, Error>)
        requires
            self.wf(),
        ensures
            1 <= index <= self@.entries.len() ==> (r matches Ok(e) && e@ == self@.entries[index
                - 1]),
            !(1 <= index <= self@.entries.len()) ==> (r matches Err(e) && e == Error::NoSuchEntry),
    {
        if 1 <= index && index <= self.entries.len() {
            Ok(&self.entries[index - 1])
        } else {
            Err(Error::NoSuchEntry)
        }
    }

    /// Removes an [`Entry`] by its **1-based** position on the shelf.
    /// Preserves the relative order of the remaining entries (insertion
    /// order); the tag index keeps every tag it ever saw.
    ///
    /// # Errors
    ///
    /// Fails with [`Error::NoSuchEntry`], leaving the shelf untouched, if
    /// the position is outside `[1, count]`.
    pub fn remove_index(&mut self, index: usize) -> (r: Result<(), Error>)
        requires
            old(self).wf(),
        ensures
            final(self).wf(),
            1 <= index <= old(self)@.entries.len() ==> r == Ok::<(), Error>(()) && final(self)@
                == spec_remove_at(old(self)@, index as int),
            !(1 <= index <= old(self)@.entries.len()) ==> r == Err::<(), Error>(
                Error::NoSuchEntry,
            ) && final(self)@ == old(self)@,
    {
        let ghost old_view = self@;
        if 1 <= index && index <= self.entries.len() {
            let i = index - 1;
            self.entries.remove(i);
            let _ = index_shift_remove_index(&mut self.index, i);
            proof {
                assert(entry_views(self.entries@) =~= old_view.entries.remove(i as int));
                assert(locations(self@.entries) =~= locations(old_view.entries).remove(i as int));
                lemma_remove_no_dup(locations(old_view.entries), i as int);
            }
            Ok(())
        } else {
            Err(Error::NoSuchEntry)
        }
    }

    /// Assembles a shelf from an entry list and a tag index, rebuilding
    /// the identity index; shelf deserialization uses this after
    /// validating each entry.  Yields `None` when the parts break the
    /// shelf's invariant: two entries with one identity, or a duplicated
    /// tag.
    pub(crate) fn from_parts(entries: Vec<Entry>, tags: Vec<Tag>) -> (r: Option<Shelf>)
        requires
            forall|i: int|
                0 <= i < entries@.len() ==> entry_view_inv(#[trigger] entry_views(entries@)[i]),
        ensures
            r matches Some(s) ==> (s.wf() && shelf_view_inv(s@) && s@ == (ShelfView {
                entries: entry_views(entries@),
                tags: tag_views(tags@),
            })),
            r is None ==> !shelf_view_inv(
                ShelfView { entries: entry_views(entries@), tags: tag_views(tags@) },
            ),
    {
        if crate::entry::has_duplicate(&tags) {
            return None;
        }
        let mut index = index_new();
        let n = entries.len();
        let ghost locs = locations(entry_views(entries@));
        let mut i: usize = 0;
        proof {
            assert(locs.take(0) =~= Seq::<Seq<char>>::empty());
        }
        while i < n
            invariant
                i <= n,
                n == entries@.len(),
                locs == locations(entry_views(entries@)),
                locs_of(index) == locs.take(i as int),
                locs.take(i as int).no_duplicates(),
            decreases n - i,
        {
            let e = &entries[i];
            proof {
                assert(locs[i as int] == e@.path);
            }
            let ok = index_insert(&mut index, e.path().clone());
            if !ok {
                proof {
                    let prefix = locs.take(i as int);
                    assert(prefix.contains(e@.path));
                    let j = choose|j: int| 0 <= j < prefix.len() && prefix[j] == e@.path;
                    assert(locs[j] == locs[i as int]);
                    assert(!locs.no_duplicates());
                }
                return None;
            }
            proof {
                assert(locs.take(i + 1) =~= locs.take(i as int).push(e@.path));
            }
            i = i + 1;
        }
        proof {
            assert(locs.take(n as int) =~= locs);
        }
        Some(Shelf { entries, index, tags })
    }

    /// The entries on the shelf, in insertion order.
    pub fn entries(&self) -> (es: &Vec<Entry>)
        ensures
            entry_views(es@) == self@.entries,
    {
        &self.entries
    }

    /// Every tag ever seen on an entry added to this shelf, in the order
    /// the tags were first seen.
    pub fn tags(&self) -> (ts: &Vec<Tag>)
        ensures
            tag_views(ts@) == self@.tags,
    {
        &self.tags
    }

    /// The number of entries on the shelf.
    pub fn len(&self) -> (n: usize)
        ensures
            n == self@.entries.len(),
    {
        self.entries.len()
    }
}

impl Default for Shelf {
    /// Creates a shelf with nothing on it.
    fn default() -> (s: Shelf)
        ensures
            s.wf(),
            s@ == empty_shelf(),
    {
        let s = Shelf { entries: Vec::new(), index: index_new(), tags: Vec::new() };
        proof {
            assert(entry_views(s.entries@) =~= Seq::<EntryView>::empty());
            assert(tag_views(s.tags@) =~= Seq::<Seq<char>>::empty());
            assert(locations(s@.entries) =~= Seq::<Seq<char>>::empty());
        }
        s
    }
}

} // verus!
