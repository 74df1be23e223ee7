use biblatex::Entry as BibRecord;
use vstd::multiset::Multiset;
use vstd::utf8::encode_utf8;
use vstd::prelude::*;
use vstd::relations::sorted_by;
use vstd::string::StrSliceExecFns;

use crate::shelf::Error;
use crate::tag::{str_le, tag_order, Tag};

verus! {

/// The part of a path after its last `/` separator: the file's name.
pub open spec fn file_name_of(p: Seq<char>) -> Seq<char>
    decreases p.len(),
{
    if p.len() == 0 {
        p
    } else if p.last() == '/' {
        Seq::empty()
    } else {
        file_name_of(p.drop_last()).push(p.last())
    }
}

/// Whether the file name of `p` carries the recognized bibliography
/// extension: a final ".bib" behind a nonempty stem.
pub open spec fn has_bib_ext(p: Seq<char>) -> bool {
    let f = file_name_of(p);
    f.len() > 4 && f.skip(f.len() - 4) == seq!['.', 'b', 'i', 'b']
}

/// The cite key a bibliography reference is looked up under: the file name
/// of the reference without its ".bib" extension.
pub open spec fn cite_key_of(p: Seq<char>) -> Seq<char> {
    file_name_of(p).take(file_name_of(p).len() - 4)
}

/// The keyword of each tag in a list, in the same order.
pub open spec fn tag_views(tags: Seq<Tag>) -> Seq<Seq<char>> {
    tags.map_values(|t: Tag| t@)
}

/// The index at which the file name of `p` starts.
fn file_name_start(p: &str) -> (start: usize)
    ensures
        start <= p@.len(),
        file_name_of(p@) =~= p@.skip(start as int),
{
    let n = p.unicode_len();
    let mut start: usize = 0;
    let mut i: usize = 0;
    proof {
        assert(p@.take(0) =~= Seq::<char>::empty());
    }
    while i < n
        invariant
            n == p@.len(),
            start <= i <= n,
            file_name_of(p@.take(i as int)) =~= p@.take(i as int).skip(start as int),
        decreases n - i,
    {
        let c = p.get_char(i);
        proof {
            assert(p@.take(i + 1).drop_last() =~= p@.take(i as int));
            assert(p@.take(i + 1).last() == p@[i as int]);
        }
        if c == '/' {
            start = i + 1;
            proof {
                assert(file_name_of(p@.take(i + 1)) =~= p@.take(i + 1).skip(start as int));
            }
        } else {
            proof {
                assert(file_name_of(p@.take(i + 1)) =~= file_name_of(p@.take(i as int)).push(
                    p@[i as int],
                ));
                assert(file_name_of(p@.take(i as int)).push(p@[i as int]) =~= p@.take(
                    i + 1,
                ).skip(start as int));
            }
        }
        i = i + 1;
    }
    proof {
        assert(p@.take(n as int) =~= p@);
    }
    start
}

/// Decides whether a path carries the recognized bibliography extension.
pub(crate) fn bib_ext_ok(p: &str) -> (r: bool)
    ensures
        r == has_bib_ext(p@),
{
    let n = p.unicode_len();
    let start = file_name_start(p);
    proof {
        assert(file_name_of(p@).len() == p@.len() - start);
    }
    if n - start <= 4 {
        return false;
    }
    let c0 = p.get_char(n - 4);
    let c1 = p.get_char(n - 3);
    let c2 = p.get_char(n - 2);
    let c3 = p.get_char(n - 1);
    let r = c0 == '.' && c1 == 'b' && c2 == 'i' && c3 == 'b';
    proof {
        let f = file_name_of(p@);
        assert(f.skip(f.len() - 4) =~= p@.skip(n - 4));
        if r {
            assert(p@.skip(n - 4) =~= seq!['.', 'b', 'i', 'b']);
        } else {
            assert(p@.skip(n - 4) != seq!['.', 'b', 'i', 'b']) by {
                if p@.skip(n - 4) == seq!['.', 'b', 'i', 'b'] {
                    assert(p@.skip(n - 4)[0] == '.');
                    assert(p@.skip(n - 4)[1] == 'b');
                    assert(p@.skip(n - 4)[2] == 'i');
                    assert(p@.skip(n - 4)[3] == 'b');
                }
            }
        }
    }
    r
}

/// The cite key a bibliography reference is looked up under.
fn cite_key(p: &str) -> (k: String)
    requires
        has_bib_ext(p@),
    ensures
        k@ == cite_key_of(p@),
{
    let n = p.unicode_len();
    let start = file_name_start(p);
    proof {
        assert(file_name_of(p@).len() == p@.len() - start);
        assert(p@.skip(start as int).take(p@.len() - start - 4) =~= p@.subrange(
            start as int,
            n - 4,
        ));
    }
    let sub = p.substring_char(start, n - 4);
    sub.to_owned()
}

/// The spec-level value of an [`Entry`]: its resolved location, its
/// optional bibliography reference, and the keywords of its optional tags.
pub struct EntryView {
    /// The resolved location: the entry's identity.
    pub path: Seq<char>,
    /// The resolved location of the bibliography reference, if attached.
    pub bib_path: Option<Seq<char>>,
    /// The tag keywords, if a tag list is attached.
    pub tags: Option<Seq<Seq<char>>>,
}

/// What every entry built through this module's constructors satisfies:
/// an attached bibliography reference carries the recognized extension,
/// and an attached tag list is sorted and duplicate-free.
pub open spec fn entry_view_inv(e: EntryView) -> bool {
    &&& match e.bib_path {
        Some(b) => has_bib_ext(b),
        None => true,
    }
    &&& match e.tags {
        Some(ts) => sorted_by(ts, tag_order()) && ts.no_duplicates(),
        None => true,
    }
}

/// [`Entry`] is any file that can be contained in the catalog.
///
/// Essentially, it is a resolved path to a file, which in turn can be a
/// book, an article, or a poster image.  The resolved path is the entry's
/// sole identity: two entries are equal exactly when their resolved paths
/// are equal, whatever their other fields hold.  Resolving a raw,
/// possibly-relative or symlinked path against the filesystem is the
/// caller's job; an entry never touches the filesystem itself.
#[derive(Debug)]
pub struct Entry {
    /// Resolved path to the entry, must be unique on a shelf.
    path: String,
    /// Resolved path to an optional bibliography reference in BibTeX format.
    bib_path: Option<String>,
    /// Optional sorted, duplicate-free list of tags.
    tags: Option<Vec<Tag>>,
}

impl Clone for Entry {
    /// Copies the entry, keeping its location, bibliography reference and
    /// tags.
    fn clone(&self) -> (r: Entry)
        ensures
            r@ == self@,
    {
        Entry {
            path: self.path.clone(),
            bib_path: match &self.bib_path {
                Some(b) => Some(b.clone()),
                None => None,
            },
            tags: clone_tags_opt(&self.tags),
        }
    }
}

impl PartialEq for Entry {
    /// Two entries are equal exactly when their resolved locations are
    /// equal, whatever their other fields hold.
    fn eq(&self, other: &Entry) -> bool {
        self.path == other.path
    }
}

impl vstd::std_specs::cmp::PartialEqSpecImpl for Entry {
    open spec fn obeys_eq_spec() -> bool {
        true
    }

    open spec fn eq_spec(&self, other: &Entry) -> bool {
        self@.path == other@.path
    }
}

impl View for Entry {
    type V = EntryView;

    closed spec fn view(&self) -> EntryView {
        EntryView {
            path: self.path@,
            bib_path: match self.bib_path {
                Some(b) => Some(b@),
                None => None,
            },
            tags: match self.tags {
                Some(ts) => Some(tag_views(ts@)),
                None => None,
            },
        }
    }
}

impl Entry {
    /// What every entry built through this type's constructors satisfies.
    pub open spec fn inv(&self) -> bool {
        entry_view_inv(self@)
    }

    /// Creates a new [`Entry`] from the result of resolving a path against
    /// the filesystem: the canonical path if the file exists, `None`
    /// otherwise.  Fails with [`Error::InvalidLocation`] when the path did
    /// not resolve.
    pub fn new(resolved: Option<&str>) -> (r: Result<Entry, Error>)
        ensures
            match resolved {
                Some(p) => r matches Ok(e) && e@ == (EntryView {
                    path: p@,
                    bib_path: None,
                    tags: None,
                }) && e.inv(),
                None => r == Err::<Entry, Error>(Error::InvalidLocation),
            },
    {
        match resolved {
            Some(p) => Ok(Entry { path: p.to_owned(), bib_path: None, tags: None }),
            None => Err(Error::InvalidLocation),
        }
    }

    /// Builds an entry directly from its parts; shelf deserialization
    /// uses this after validating each part.
    pub(crate) fn from_parts(path: String, bib_path: Option<String>, tags: Option<Vec<Tag>>) -> (e:
        Entry)
        ensures
            e@.path == path@,
            e@.bib_path == (match bib_path {
                Some(b) => Some(b@),
                None => None::<Seq<char>>,
            }),
            e@.tags == (match tags {
                Some(ts) => Some(tag_views(ts@)),
                None => None::<Seq<Seq<char>>>,
            }),
    {
        Entry { path, bib_path, tags }
    }

    /// The entry's resolved location: its identity.
    pub fn path(&self) -> (p: &String)
        ensures
            p@ == self@.path,
    {
        &self.path
    }

    /// The resolved location of the bibliography reference, if one is
    /// attached.
    pub fn bib_path(&self) -> (b: &Option<String>)
        ensures
            match b {
                Some(p) => self@.bib_path == Some(p@),
                None => self@.bib_path is None,
            },
    {
        &self.bib_path
    }

    /// The entry's tags, if a tag list is attached.
    pub fn tags(&self) -> (t: &Option<Vec<Tag>>)
        ensures
            match t {
                Some(ts) => self@.tags == Some(tag_views(ts@)),
                None => self@.tags is None,
            },
    {
        &self.tags
    }

    /// Links a bibliography reference to this [`Entry`], given the result
    /// of resolving the reference's path against the filesystem.  Fails
    /// with [`Error::InvalidLocation`] when the path did not resolve, and
    /// with [`Error::WrongFileKind`] when the resolved file does not carry
    /// the recognized ".bib" extension; either way the receiver is left
    /// untouched.  Returns a new entry, the receiver's copy with the
    /// reference attached.
    pub fn with_bib(&self, resolved_bib: Option<&str>) -> (r: Result<Entry, Error>)
        requires
            self.inv(),
        ensures
            match resolved_bib {
                Some(b) => if has_bib_ext(b@) {
                    r matches Ok(e) && e@ == (EntryView { bib_path: Some(b@), ..self@ })
                        && e.inv()
                } else {
                    r == Err::<Entry, Error>(Error::WrongFileKind)
                },
                None => r == Err::<Entry, Error>(Error::InvalidLocation),
            },
    {
        match resolved_bib {
            Some(b) => {
                if bib_ext_ok(b) {
                    Ok(Entry {
                        path: self.path.clone(),
                        bib_path: Some(b.to_owned()),
                        tags: clone_tags_opt(&self.tags),
                    })
                } else {
                    Err(Error::WrongFileKind)
                }
            },
            None => Err(Error::InvalidLocation),
        }
    }

    /// Returns the bibliographic record for this [`Entry`] from the
    /// contents of its bibliography reference, and `Ok(None)` when no
    /// reference is attached.  The caller reads the referenced file and
    /// hands its contents over, `None` standing for a file that could not
    /// be read; the entry is read through, never changed, and the record
    /// depends only on the reference and the contents.  It is looked up
    /// under the entry's cite key: the reference's file name without its
    /// ".bib" extension.
    ///
    /// # Errors
    ///
    /// With a reference attached, fails with
    /// [`Error::UnreadableBibliography`] when no contents could be read,
    /// [`Error::UnparsableBibliography`] when they do not parse — a
    /// source outside [`crate::bibscan::bib_source_plain`], whose
    /// reference cycles could keep the parser from returning, counts as
    /// malformed — and [`Error::UnknownCiteKey`] when no record in them
    /// carries the entry's cite key.
    pub fn get_bib_entry(&self, contents: Option<&str>) -> (r: Result<
        Option<BibRecord>,
        Error,
    >)
        requires
            self.inv(),
        ensures
            self@.bib_path is None ==> r == Ok::<Option<BibRecord>, Error>(None),
            self@.bib_path matches Some(bp) ==> match contents {
                None => r == Err::<Option<BibRecord>, Error>(
                    Error::UnreadableBibliography,
                ),
                Some(src) => if !crate::bibscan::bib_source_plain(encode_utf8(src@)) {
                    r == Err::<Option<BibRecord>, Error>(Error::UnparsableBibliography)
                } else {
                    match crate::bib::parsed_records(src@) {
                        None => r == Err::<Option<BibRecord>, Error>(
                            Error::UnparsableBibliography,
                        ),
                        Some(recs) => if recs.dom().contains(cite_key_of(bp)) {
                            r == Ok::<Option<BibRecord>, Error>(Some(recs[cite_key_of(bp)]))
                        } else {
                            r == Err::<Option<BibRecord>, Error>(Error::UnknownCiteKey)
                        },
                    }
                },
            },
    {
        match &self.bib_path {
            None => Ok(None),
            Some(bp) => match contents {
                None => Err(Error::UnreadableBibliography),
                Some(src) => {
                    let src_bytes = src.as_bytes_vec();
                    if !crate::bibscan::source_plain(&src_bytes) {
                        return Err(Error::UnparsableBibliography);
                    }
                    match crate::bib::parse_bibliography(src) {
                        None => Err(Error::UnparsableBibliography),
                        Some(bib) => {
                            let key = cite_key(bp.as_str());
                            match crate::bib::bib_get(&bib, key.as_str()) {
                                Some(rec) => Ok(Some(rec)),
                                None => Err(Error::UnknownCiteKey),
                            }
                        },
                    }
                },
            },
        }
    }

    /// Adds optional tags to this [`Entry`], after checking the list for
    /// duplicates and sorting it by keyword.  Fails with
    /// [`Error::DuplicateTag`] when the list provided contains two equal
    /// tags; the receiver is left untouched either way.  Returns a new
    /// entry, the receiver's copy with the tag list attached.
    pub fn with_tags(&self, tags: &[Tag]) -> (r: Result<Entry, Error>)
        requires
            self.inv(),
        ensures
            !tag_views(tags@).no_duplicates() ==> r == Err::<Entry, Error>(Error::DuplicateTag),
            tag_views(tags@).no_duplicates() ==> (r matches Ok(e) && (e@.path == self@.path
                && e@.bib_path == self@.bib_path && (e@.tags matches Some(ts) && (sorted_by(
                ts,
                tag_order(),
            ) && ts.to_multiset() == tag_views(tags@).to_multiset())) && e.inv())),
    {
        let owned = clone_tags_slice(tags);
        if has_duplicate(&owned) {
            return Err(Error::DuplicateTag);
        }
        let sorted = sort_tags(owned);
        proof {
            tag_views(tags@).lemma_multiset_has_no_duplicates();
            tag_views(sorted@).lemma_multiset_has_no_duplicates_conv();
        }
        Ok(Entry {
            path: self.path.clone(),
            bib_path: match &self.bib_path {
                Some(b) => Some(b.clone()),
                None => None,
            },
            tags: Some(sorted),
        })
    }
}

/// Inserting an element anywhere in a sequence adds it, and nothing else,
/// to the sequence's multiset of elements.
proof fn lemma_seq_insert_multiset<A>(s: Seq<A>, p: int, a: A)
    requires
        0 <= p <= s.len(),
    ensures
        s.insert(p, a).to_multiset() =~= s.to_multiset().insert(a),
{
    broadcast use vstd::seq_lib::group_to_multiset_ensures;

    let prefix = s.take(p);
    let suffix = s.skip(p);
    assert(s.insert(p, a) =~= prefix.push(a) + suffix);
    assert(s =~= prefix + suffix);
    vstd::seq_lib::lemma_multiset_commutative(prefix.push(a), suffix);
    vstd::seq_lib::lemma_multiset_commutative(prefix, suffix);
    assert(prefix.push(a).to_multiset() =~= prefix.to_multiset().insert(a));
}

/// Clones the caller's tag slice so the new entry owns its tag list.
fn clone_tags_slice(tags: &[Tag]) -> (r: Vec<Tag>)
    ensures
        r@ =~= tags@,
{
    let mut r: Vec<Tag> = Vec::new();
    let mut i: usize = 0;
    while i < tags.len()
        invariant
            i <= tags@.len(),
            r@ =~= tags@.take(i as int),
        decreases tags@.len() - i,
    {
        let t = &tags[i];
        r.push(t.clone());
        proof {
            assert(r@ =~= tags@.take(i + 1));
        }
        i = i + 1;
    }
    proof {
        assert(tags@.take(tags@.len() as int) =~= tags@);
    }
    r
}

/// Decides whether a tag list holds two equal tags.
pub(crate) fn has_duplicate(tags: &Vec<Tag>) -> (r: bool)
    ensures
        r == !tag_views(tags@).no_duplicates(),
{
    let n = tags.len();
    let ghost views = tag_views(tags@);
    let mut i: usize = 0;
    while i < n
        invariant
            i <= n,
            n == tags@.len(),
            views == tag_views(tags@),
            forall|a: int, b: int| 0 <= a < i && a < b < n ==> views[a] != views[b],
        decreases n - i,
    {
        let mut j: usize = i + 1;
        while j < n
            invariant
                i < j <= n,
                n == tags@.len(),
                views == tag_views(tags@),
                forall|b: int| i < b < j ==> views[i as int] != views[b],
            decreases n - j,
        {
            if tags[i] == tags[j] {
                proof {
                    assert(views[i as int] == tags@[i as int]@);
                    assert(views[j as int] == tags@[j as int]@);
                    assert(!views.no_duplicates());
                }
                return true;
            }
            j = j + 1;
        }
        i = i + 1;
    }
    false
}

/// A tag list in which each keyword comes at or before the next one is
/// sorted throughout.
proof fn lemma_adjacent_sorted(l: Seq<Seq<char>>)
    requires
        forall|i: int| 0 <= i < l.len() - 1 ==> str_le(#[trigger] l[i], l[i + 1]),
    ensures
        sorted_by(l, tag_order()),
    decreases l.len(),
{
    crate::tag::lemma_tag_order_total();
    let leq = tag_order();
    if l.len() > 1 {
        let d = l.drop_last();
        assert forall|i: int| 0 <= i < d.len() - 1 implies str_le(#[trigger] d[i], d[i + 1]) by {
            assert(str_le(l[i], l[i + 1]));
        }
        lemma_adjacent_sorted(d);
        let last = l.len() - 1;
        assert forall|i: int, j: int| 0 <= i < j < l.len() implies #[trigger] leq(l[i], l[j]) by {
            if j < last {
                assert(leq(d[i], d[j]));
            } else {
                assert(str_le(l[last - 1], l[last]));
                if i < last - 1 {
                    assert(leq(d[i], d[last - 1]));
                    assert(leq(l[i], l[last - 1]) && leq(l[last - 1], l[last]) ==> leq(
                        l[i],
                        l[last],
                    ));
                }
            }
        }
    }
}

/// Decides whether a tag list is sorted by keyword.
pub(crate) fn tags_sorted(ts: &Vec<Tag>) -> (r: bool)
    ensures
        r == sorted_by(tag_views(ts@), tag_order()),
{
    let ghost views = tag_views(ts@);
    let n = ts.len();
    if n == 0 {
        return true;
    }
    let mut i: usize = 1;
    while i < n
        invariant
            1 <= i <= n,
            n == ts@.len(),
            views == tag_views(ts@),
            forall|j: int| 0 <= j < i - 1 ==> str_le(#[trigger] views[j], views[j + 1]),
        decreases n - i,
    {
        if !ts[i - 1].lex_le(&ts[i]) {
            proof {
                assert(!str_le(views[i - 1], views[i as int]));
                assert(sorted_by(views, tag_order()) ==> tag_order()(views[i - 1], views[i as int]));
            }
            return false;
        }
        i = i + 1;
    }
    proof {
        lemma_adjacent_sorted(views);
    }
    true
}

/// Sorts a tag list by keyword in lexicographic order, by insertion.
fn sort_tags(input: Vec<Tag>) -> (r: Vec<Tag>)
    ensures
        sorted_by(tag_views(r@), tag_order()),
        tag_views(r@).to_multiset() == tag_views(input@).to_multiset(),
{
    broadcast use vstd::seq_lib::group_to_multiset_ensures;

    proof {
        crate::tag::lemma_tag_order_total();
    }
    let ghost vin = tag_views(input@);
    let mut rest = input;
    let mut r: Vec<Tag> = Vec::new();
    while rest.len() > 0
        invariant
            sorted_by(tag_views(r@), tag_order()),
            tag_views(r@).to_multiset().add(tag_views(rest@).to_multiset()) =~= vin.to_multiset(),
        decreases rest@.len(),
    {
        let ghost vr = tag_views(r@);
        let ghost vrest = tag_views(rest@);
        let x = rest.remove(0);
        proof {
            broadcast use vstd::seq_lib::group_to_multiset_ensures;

            assert(tag_views(rest@) =~= vrest.remove(0));
            assert(vrest[0] == x@);
            assert(vrest.contains(x@));
        }
        let mut p: usize = 0;
        while p < r.len() && !x.lex_le(&r[p])
            invariant
                p <= r@.len(),
                vr == tag_views(r@),
                forall|j: int| 0 <= j < p ==> !str_le(x@, vr[j]),
            decreases r@.len() - p,
        {
            p = p + 1;
        }
        r.insert(p, x);
        proof {
            broadcast use vstd::seq_lib::group_to_multiset_ensures;
            broadcast use vstd::multiset::group_multiset_axioms;

            crate::tag::lemma_tag_order_total();
            let leq = tag_order();
            assert(tag_views(r@) =~= vr.insert(p as int, x@));
            lemma_seq_insert_multiset(vr, p as int, x@);
            let vr2 = vr.insert(p as int, x@);
            assert forall|a: int, b: int| 0 <= a < b < vr2.len() implies leq(vr2[a], vr2[b]) by {
                if b < p {
                    assert(leq(vr[a], vr[b]));
                } else if a > p {
                    assert(leq(vr[a - 1], vr[b - 1]));
                } else if a < p && b == p {
                    assert(!leq(x@, vr[a]));
                    assert(leq(vr[a], x@));
                } else if a == p && b > p {
                    if p < vr.len() {
                        assert(leq(x@, vr[p as int]));
                        if b - 1 > p {
                            assert(leq(vr[p as int], vr[b - 1]));
                        }
                    }
                } else if a < p && b > p {
                    assert(leq(vr[a], vr[b - 1]));
                }
            }
        }
    }
    proof {
        broadcast use vstd::seq_lib::group_to_multiset_ensures;
        broadcast use vstd::multiset::group_multiset_axioms;

        assert(tag_views(rest@) =~= Seq::<Seq<char>>::empty());
        assert(tag_views(rest@).to_multiset() =~= Multiset::<Seq<char>>::empty());
        assert(tag_views(r@).to_multiset() =~= vin.to_multiset());
    }
    r
}

/// Clones a tag list, keeping every keyword.
fn clone_tags(tags: &Vec<Tag>) -> (r: Vec<Tag>)
    ensures
        r@ =~= tags@,
{
    let mut r: Vec<Tag> = Vec::new();
    let mut i: usize = 0;
    while i < tags.len()
        invariant
            i <= tags@.len(),
            r@ =~= tags@.take(i as int),
        decreases tags@.len() - i,
    {
        r.push(tags[i].clone());
        proof {
            assert(r@ =~= tags@.take(i + 1));
        }
        i = i + 1;
    }
    proof {
        assert(tags@.take(tags@.len() as int) =~= tags@);
    }
    r
}

/// Clones an optional tag list, keeping every keyword.
fn clone_tags_opt(tags: &Option<Vec<Tag>>) -> (r: Option<Vec<Tag>>)
    ensures
        match tags {
            Some(ts) => r matches Some(rs) && rs@ =~= ts@,
            None => r is None,
        },
{
    match tags {
        Some(ts) => Some(clone_tags(ts)),
        None => None,
    }
}

} // verus!
