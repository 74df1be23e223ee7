use vstd::bytes::{spec_u64_from_le_bytes, spec_u64_to_le_bytes, u64_to_le_bytes};
use vstd::prelude::*;
use vstd::string::StrSliceExecFns;
use vstd::utf8::{decode_utf8, encode_utf8, valid_utf8};

use crate::entry::{tag_views, Entry, EntryView};
use crate::shelf::{entry_views, shelf_view_inv, Error, Shelf, ShelfView};
use crate::tag::Tag;

verus! {

/// The serialized form of a length or count: eight little-endian bytes.
pub open spec fn enc_u64(x: u64) -> Seq<u8> {
    spec_u64_to_le_bytes(x)
}

/// The serialized form of a string: the length of its UTF-8 encoding,
/// then the encoding itself.
pub open spec fn enc_str(s: Seq<char>) -> Seq<u8> {
    enc_u64(encode_utf8(s).len() as u64) + encode_utf8(s)
}

/// The serialized form of each string in a list, in order.
pub open spec fn enc_strs(l: Seq<Seq<char>>) -> Seq<u8>
    decreases l.len(),
{
    if l.len() == 0 {
        Seq::empty()
    } else {
        enc_str(l[0]) + enc_strs(l.drop_first())
    }
}

/// The serialized form of a string list: its count, then each string.
pub open spec fn enc_str_list(l: Seq<Seq<char>>) -> Seq<u8> {
    enc_u64(l.len() as u64) + enc_strs(l)
}

/// The serialized form of an optional string: a presence byte, then the
/// string when present.
pub open spec fn enc_opt_str(o: Option<Seq<char>>) -> Seq<u8> {
    match o {
        None => seq![0u8],
        Some(s) => seq![1u8] + enc_str(s),
    }
}

/// The serialized form of an optional string list: a presence byte, then
/// the list when present.
pub open spec fn enc_opt_list(o: Option<Seq<Seq<char>>>) -> Seq<u8> {
    match o {
        None => seq![0u8],
        Some(l) => seq![1u8] + enc_str_list(l),
    }
}

/// The serialized form of one entry: its location, its optional
/// bibliography reference, and its optional tag list.
pub open spec fn enc_entry(e: EntryView) -> Seq<u8> {
    enc_str(e.path) + enc_opt_str(e.bib_path) + enc_opt_list(e.tags)
}

/// The serialized form of each entry in a list, in order.
pub open spec fn enc_entries(es: Seq<EntryView>) -> Seq<u8>
    decreases es.len(),
{
    if es.len() == 0 {
        Seq::empty()
    } else {
        enc_entry(es[0]) + enc_entries(es.drop_first())
    }
}

/// The serialized form of a whole shelf: the entry count, each entry in
/// insertion order, and the tag index.
pub open spec fn spec_save(s: ShelfView) -> Seq<u8> {
    enc_u64(s.entries.len() as u64) + enc_entries(s.entries) + enc_str_list(s.tags)
}

/// Whether a string's UTF-8 encoding fits the format's length field.
pub open spec fn str_fits(s: Seq<char>) -> bool {
    encode_utf8(s).len() <= u64::MAX
}

/// Whether a string list's count and every string fit the format.
pub open spec fn list_fits(l: Seq<Seq<char>>) -> bool {
    &&& l.len() <= u64::MAX
    &&& forall|i: int| 0 <= i < l.len() ==> str_fits(#[trigger] l[i])
}

/// Whether one entry's fields fit the format.
pub open spec fn entry_fits(e: EntryView) -> bool {
    &&& str_fits(e.path)
    &&& match e.bib_path {
        Some(b) => str_fits(b),
        None => true,
    }
    &&& match e.tags {
        Some(ts) => list_fits(ts),
        None => true,
    }
}

/// Whether every count and string in a shelf's view fits the fixed-width
/// length fields of the binary format.  Any shelf held in memory fits.
pub open spec fn view_fits(s: ShelfView) -> bool {
    &&& s.entries.len() <= u64::MAX
    &&& forall|i: int| 0 <= i < s.entries.len() ==> entry_fits(#[trigger] s.entries[i])
    &&& list_fits(s.tags)
}

/// Reads a length or count at the position given.
pub open spec fn dec_u64(b: Seq<u8>, pos: int) -> Option<(u64, int)> {
    if 0 <= pos && pos + 8 <= b.len() {
        Some((spec_u64_from_le_bytes(b.subrange(pos, pos + 8)), pos + 8))
    } else {
        None
    }
}

/// Reads a string at the position given: a length, then that many bytes,
/// which must be valid UTF-8.
pub open spec fn dec_str(b: Seq<u8>, pos: int) -> Option<(Seq<char>, int)> {
    match dec_u64(b, pos) {
        None => None,
        Some((n, p)) => if p + n <= b.len() && valid_utf8(b.subrange(p, p + n)) {
            Some((decode_utf8(b.subrange(p, p + n)), p + n))
        } else {
            None
        },
    }
}

/// Reads `n` strings one after another from the position given.
pub open spec fn dec_strs(b: Seq<u8>, pos: int, n: int) -> Option<(Seq<Seq<char>>, int)>
    decreases n,
{
    if n <= 0 {
        Some((Seq::empty(), pos))
    } else {
        match dec_str(b, pos) {
            None => None,
            Some((s, p)) => match dec_strs(b, p, n - 1) {
                None => None,
                Some((l, q)) => Some((seq![s] + l, q)),
            },
        }
    }
}

/// Reads a string list at the position given: a count, then the strings.
pub open spec fn dec_str_list(b: Seq<u8>, pos: int) -> Option<(Seq<Seq<char>>, int)> {
    match dec_u64(b, pos) {
        None => None,
        Some((n, p)) => dec_strs(b, p, n as int),
    }
}

/// Reads an optional string at the position given: a presence byte, then
/// the string when present.
pub open spec fn dec_opt_str(b: Seq<u8>, pos: int) -> Option<(Option<Seq<char>>, int)> {
    if 0 <= pos && pos < b.len() {
        if b[pos] == 0u8 {
            Some((None, pos + 1))
        } else if b[pos] == 1u8 {
            match dec_str(b, pos + 1) {
                None => None,
                Some((s, p)) => Some((Some(s), p)),
            }
        } else {
            None
        }
    } else {
        None
    }
}

/// Reads an optional string list at the position given: a presence byte,
/// then the list when present.
pub open spec fn dec_opt_list(b: Seq<u8>, pos: int) -> Option<(Option<Seq<Seq<char>>>, int)> {
    if 0 <= pos && pos < b.len() {
        if b[pos] == 0u8 {
            Some((None, pos + 1))
        } else if b[pos] == 1u8 {
            match dec_str_list(b, pos + 1) {
                None => None,
                Some((l, p)) => Some((Some(l), p)),
            }
        } else {
            None
        }
    } else {
        None
    }
}

/// Reads one entry at the position given.
pub open spec fn dec_entry(b: Seq<u8>, pos: int) -> Option<(EntryView, int)> {
    match dec_str(b, pos) {
        None => None,
        Some((path, p)) => match dec_opt_str(b, p) {
            None => None,
            Some((bib_path, p2)) => match dec_opt_list(b, p2) {
                None => None,
                Some((tags, p3)) => Some((EntryView { path, bib_path, tags }, p3)),
            },
        },
    }
}

/// Reads `n` entries one after another from the position given.
pub open spec fn dec_entries(b: Seq<u8>, pos: int, n: int) -> Option<(Seq<EntryView>, int)>
    decreases n,
{
    if n <= 0 {
        Some((Seq::empty(), pos))
    } else {
        match dec_entry(b, pos) {
            None => None,
            Some((e, p)) => match dec_entries(b, p, n - 1) {
                None => None,
                Some((es, q)) => Some((seq![e] + es, q)),
            },
        }
    }
}

/// Reads back a whole shelf: the entry count, the entries, and the tag
/// index, which must together use the blob exactly and satisfy the
/// shelf's published invariant.
pub open spec fn spec_open(b: Seq<u8>) -> Option<ShelfView> {
    match dec_u64(b, 0) {
        None => None,
        Some((n, p)) => match dec_entries(b, p, n as int) {
            None => None,
            Some((es, p2)) => match dec_str_list(b, p2) {
                None => None,
                Some((ts, p3)) => if p3 == b.len() && shelf_view_inv(
                    ShelfView { entries: es, tags: ts },
                ) {
                    Some(ShelfView { entries: es, tags: ts })
                } else {
                    None
                },
            },
        },
    }
}

/// A serialized length or count reads back as itself.
proof fn lemma_dec_u64_enc(b: Seq<u8>, pos: int, x: u64)
    requires
        0 <= pos,
        pos + 8 <= b.len(),
        b.subrange(pos, pos + 8) == enc_u64(x),
    ensures
        dec_u64(b, pos) == Some((x, pos + 8)),
{
    vstd::bytes::lemma_auto_spec_u64_to_from_le_bytes();
}

/// A serialized string reads back as itself.
proof fn lemma_dec_str_enc(b: Seq<u8>, pos: int, s: Seq<char>)
    requires
        str_fits(s),
        0 <= pos,
        pos + enc_str(s).len() <= b.len(),
        b.subrange(pos, pos + enc_str(s).len()) == enc_str(s),
    ensures
        dec_str(b, pos) == Some((s, pos + enc_str(s).len())),
{
    broadcast use vstd::utf8::encode_utf8_valid_utf8;
    broadcast use vstd::utf8::encode_utf8_decode_utf8;

    let u = encode_utf8(s);
    let m = u.len() as int;
    vstd::bytes::lemma_auto_spec_u64_to_from_le_bytes();
    assert(enc_u64(m as u64).len() == 8);
    assert(b.subrange(pos, pos + 8) =~= enc_u64(m as u64)) by {
        assert forall|i: int| 0 <= i < 8 implies #[trigger] b.subrange(pos, pos + 8)[i] == enc_u64(
            m as u64,
        )[i] by {
            assert(b.subrange(pos, pos + enc_str(s).len())[i] == enc_str(s)[i]);
        }
    }
    assert(dec_u64(b, pos) == Some((m as u64, pos + 8)));
    assert((m as u64) as int == m);
    assert(b.subrange(pos + 8, pos + 8 + m) =~= u) by {
        assert forall|i: int| 0 <= i < m implies b.subrange(pos + 8, pos + 8 + m)[i] == u[i] by {
            assert(b.subrange(pos, pos + enc_str(s).len())[8 + i] == enc_str(s)[8 + i]);
        }
    }
}

/// A serialized string sequence reads back as itself.
proof fn lemma_dec_strs_enc(b: Seq<u8>, pos: int, l: Seq<Seq<char>>)
    requires
        forall|i: int| 0 <= i < l.len() ==> str_fits(#[trigger] l[i]),
        0 <= pos,
        pos + enc_strs(l).len() <= b.len(),
        b.subrange(pos, pos + enc_strs(l).len()) == enc_strs(l),
    ensures
        dec_strs(b, pos, l.len() as int) == Some((l, pos + enc_strs(l).len())),
    decreases l.len(),
{
    if l.len() == 0 {
        assert(l =~= Seq::<Seq<char>>::empty());
    } else {
        let e0 = enc_str(l[0]);
        let rest = enc_strs(l.drop_first());
        assert(enc_strs(l) == e0 + rest);
        assert(b.subrange(pos, pos + e0.len()) =~= e0) by {
            assert forall|i: int| 0 <= i < e0.len() implies b.subrange(pos, pos + e0.len())[i]
                == e0[i] by {
                assert(b.subrange(pos, pos + enc_strs(l).len())[i] == enc_strs(l)[i]);
            }
        }
        lemma_dec_str_enc(b, pos, l[0]);
        let p = pos + e0.len();
        assert(b.subrange(p, p + rest.len()) =~= rest) by {
            assert forall|i: int| 0 <= i < rest.len() implies b.subrange(p, p + rest.len())[i]
                == rest[i] by {
                assert(b.subrange(pos, pos + enc_strs(l).len())[e0.len() + i] == enc_strs(
                    l,
                )[e0.len() + i]);
            }
        }
        lemma_dec_strs_enc(b, p, l.drop_first());
        assert(seq![l[0]] + l.drop_first() =~= l);
    }
}

/// A serialized string list reads back as itself.
proof fn lemma_dec_str_list_enc(b: Seq<u8>, pos: int, l: Seq<Seq<char>>)
    requires
        list_fits(l),
        0 <= pos,
        pos + enc_str_list(l).len() <= b.len(),
        b.subrange(pos, pos + enc_str_list(l).len()) == enc_str_list(l),
    ensures
        dec_str_list(b, pos) == Some((l, pos + enc_str_list(l).len())),
{
    let cnt = enc_u64(l.len() as u64);
    vstd::bytes::lemma_auto_spec_u64_to_from_le_bytes();
    assert(b.subrange(pos, pos + 8) =~= cnt) by {
        assert forall|i: int| 0 <= i < 8 implies #[trigger] b.subrange(pos, pos + 8)[i]
            == cnt[i] by {
            assert(b.subrange(pos, pos + enc_str_list(l).len())[i] == enc_str_list(l)[i]);
        }
    }
    lemma_dec_u64_enc(b, pos, l.len() as u64);
    assert((l.len() as u64) as int == l.len() as int);
    let p = pos + 8;
    let rest = enc_strs(l);
    assert(b.subrange(p, p + rest.len()) =~= rest) by {
        assert forall|i: int| 0 <= i < rest.len() implies b.subrange(p, p + rest.len())[i]
            == rest[i] by {
            assert(b.subrange(pos, pos + enc_str_list(l).len())[8 + i] == enc_str_list(l)[8 + i]);
        }
    }
    lemma_dec_strs_enc(b, p, l);
}

/// A serialized optional string reads back as itself.
proof fn lemma_dec_opt_str_enc(b: Seq<u8>, pos: int, o: Option<Seq<char>>)
    requires
        match o {
            Some(s) => str_fits(s),
            None => true,
        },
        0 <= pos,
        pos + enc_opt_str(o).len() <= b.len(),
        b.subrange(pos, pos + enc_opt_str(o).len()) == enc_opt_str(o),
    ensures
        dec_opt_str(b, pos) == Some((o, pos + enc_opt_str(o).len())),
{
    assert(b[pos] == enc_opt_str(o)[0]) by {
        assert(b.subrange(pos, pos + enc_opt_str(o).len())[0] == enc_opt_str(o)[0]);
    }
    match o {
        None => {
            assert(b[pos] == 0u8);
        },
        Some(s) => {
            assert(b[pos] == 1u8);
            let es = enc_str(s);
            assert(b.subrange(pos + 1, pos + 1 + es.len()) =~= es) by {
                assert forall|i: int| 0 <= i < es.len() implies b.subrange(
                    pos + 1,
                    pos + 1 + es.len(),
                )[i] == es[i] by {
                    assert(b.subrange(pos, pos + enc_opt_str(o).len())[1 + i] == enc_opt_str(
                        o,
                    )[1 + i]);
                }
            }
            lemma_dec_str_enc(b, pos + 1, s);
        },
    }
}

/// A serialized optional string list reads back as itself.
proof fn lemma_dec_opt_list_enc(b: Seq<u8>, pos: int, o: Option<Seq<Seq<char>>>)
    requires
        match o {
            Some(l) => list_fits(l),
            None => true,
        },
        0 <= pos,
        pos + enc_opt_list(o).len() <= b.len(),
        b.subrange(pos, pos + enc_opt_list(o).len()) == enc_opt_list(o),
    ensures
        dec_opt_list(b, pos) == Some((o, pos + enc_opt_list(o).len())),
{
    assert(b[pos] == enc_opt_list(o)[0]) by {
        assert(b.subrange(pos, pos + enc_opt_list(o).len())[0] == enc_opt_list(o)[0]);
    }
    match o {
        None => {
            assert(b[pos] == 0u8);
        },
        Some(l) => {
            assert(b[pos] == 1u8);
            let el = enc_str_list(l);
            assert(b.subrange(pos + 1, pos + 1 + el.len()) =~= el) by {
                assert forall|i: int| 0 <= i < el.len() implies b.subrange(
                    pos + 1,
                    pos + 1 + el.len(),
                )[i] == el[i] by {
                    assert(b.subrange(pos, pos + enc_opt_list(o).len())[1 + i] == enc_opt_list(
                        o,
                    )[1 + i]);
                }
            }
            lemma_dec_str_list_enc(b, pos + 1, l);
        },
    }
}

/// A serialized entry reads back as itself.
proof fn lemma_dec_entry_enc(b: Seq<u8>, pos: int, e: EntryView)
    requires
        entry_fits(e),
        0 <= pos,
        pos + enc_entry(e).len() <= b.len(),
        b.subrange(pos, pos + enc_entry(e).len()) == enc_entry(e),
    ensures
        dec_entry(b, pos) == Some((e, pos + enc_entry(e).len())),
{
    let ep = enc_str(e.path);
    let eb = enc_opt_str(e.bib_path);
    let et = enc_opt_list(e.tags);
    assert(enc_entry(e) == ep + eb + et);
    assert(b.subrange(pos, pos + ep.len()) =~= ep) by {
        assert forall|i: int| 0 <= i < ep.len() implies b.subrange(pos, pos + ep.len())[i]
            == ep[i] by {
            assert(b.subrange(pos, pos + enc_entry(e).len())[i] == enc_entry(e)[i]);
        }
    }
    lemma_dec_str_enc(b, pos, e.path);
    let p = pos + ep.len();
    assert(b.subrange(p, p + eb.len()) =~= eb) by {
        assert forall|i: int| 0 <= i < eb.len() implies b.subrange(p, p + eb.len())[i] == eb[i] by {
            assert(b.subrange(pos, pos + enc_entry(e).len())[ep.len() + i] == enc_entry(
                e,
            )[ep.len() + i]);
        }
    }
    lemma_dec_opt_str_enc(b, p, e.bib_path);
    let p2 = p + eb.len();
    assert(b.subrange(p2, p2 + et.len()) =~= et) by {
        assert forall|i: int| 0 <= i < et.len() implies b.subrange(p2, p2 + et.len())[i]
            == et[i] by {
            assert(b.subrange(pos, pos + enc_entry(e).len())[ep.len() + eb.len() + i] == enc_entry(
                e,
            )[ep.len() + eb.len() + i]);
        }
    }
    lemma_dec_opt_list_enc(b, p2, e.tags);
}

/// A serialized entry sequence reads back as itself.
proof fn lemma_dec_entries_enc(b: Seq<u8>, pos: int, es: Seq<EntryView>)
    requires
        forall|i: int| 0 <= i < es.len() ==> entry_fits(#[trigger] es[i]),
        0 <= pos,
        pos + enc_entries(es).len() <= b.len(),
        b.subrange(pos, pos + enc_entries(es).len()) == enc_entries(es),
    ensures
        dec_entries(b, pos, es.len() as int) == Some((es, pos + enc_entries(es).len())),
    decreases es.len(),
{
    if es.len() == 0 {
        assert(es =~= Seq::<EntryView>::empty());
    } else {
        let e0 = enc_entry(es[0]);
        let rest = enc_entries(es.drop_first());
        assert(enc_entries(es) == e0 + rest);
        assert(b.subrange(pos, pos + e0.len()) =~= e0) by {
            assert forall|i: int| 0 <= i < e0.len() implies b.subrange(pos, pos + e0.len())[i]
                == e0[i] by {
                assert(b.subrange(pos, pos + enc_entries(es).len())[i] == enc_entries(es)[i]);
            }
        }
        lemma_dec_entry_enc(b, pos, es[0]);
        let p = pos + e0.len();
        assert(b.subrange(p, p + rest.len()) =~= rest) by {
            assert forall|i: int| 0 <= i < rest.len() implies b.subrange(p, p + rest.len())[i]
                == rest[i] by {
                assert(b.subrange(pos, pos + enc_entries(es).len())[e0.len() + i] == enc_entries(
                    es,
                )[e0.len() + i]);
            }
        }
        lemma_dec_entries_enc(b, p, es.drop_first());
        assert(seq![es[0]] + es.drop_first() =~= es);
    }
}

/// Round-trip fidelity: reading back the serialized form of any
/// well-formed shelf yields exactly the shelf that was saved — the same
/// entries in the same order, with the same bibliography references and
/// tags, and the same tag index.
pub proof fn lemma_round_trip(s: ShelfView)
    requires
        shelf_view_inv(s),
        view_fits(s),
    ensures
        spec_open(spec_save(s)) == Some(s),
{
    let b = spec_save(s);
    let cnt = enc_u64(s.entries.len() as u64);
    let ee = enc_entries(s.entries);
    let et = enc_str_list(s.tags);
    vstd::bytes::lemma_auto_spec_u64_to_from_le_bytes();
    assert(b == cnt + ee + et);
    assert(b.subrange(0, 8) =~= cnt);
    lemma_dec_u64_enc(b, 0, s.entries.len() as u64);
    assert((s.entries.len() as u64) as int == s.entries.len() as int);
    assert(b.subrange(8, 8 + ee.len() as int) =~= ee) by {
        assert forall|i: int| 0 <= i < ee.len() implies b.subrange(8, 8 + ee.len() as int)[i]
            == ee[i] by {
            assert(b[8 + i] == (cnt + ee + et)[8 + i]);
        }
    }
    lemma_dec_entries_enc(b, 8, s.entries);
    let p2: int = 8 + ee.len() as int;
    assert(b.subrange(p2, p2 + et.len() as int) =~= et) by {
        assert forall|i: int| 0 <= i < et.len() implies b.subrange(p2, p2 + et.len() as int)[i]
            == et[i] by {
            assert(b[p2 + i] == (cnt + ee + et)[p2 + i]);
        }
    }
    lemma_dec_str_list_enc(b, p2, s.tags);
    assert(p2 + et.len() == b.len());
}

/// Appending an element to a list appends its serialized form.
proof fn lemma_enc_strs_push(l: Seq<Seq<char>>, x: Seq<char>)
    ensures
        enc_strs(l.push(x)) == enc_strs(l) + enc_str(x),
    decreases l.len(),
{
    if l.len() == 0 {
        let d = l.push(x).drop_first();
        assert(l.push(x)[0] == x);
        assert(d =~= Seq::<Seq<char>>::empty());
        assert(enc_strs(d) =~= Seq::<u8>::empty());
        assert(enc_strs(l.push(x)) =~= enc_str(x));
        assert(enc_strs(l) + enc_str(x) =~= enc_str(x));
    } else {
        assert(l.push(x)[0] == l[0]);
        assert(l.push(x).drop_first() =~= l.drop_first().push(x));
        lemma_enc_strs_push(l.drop_first(), x);
        assert(enc_strs(l.push(x)) == enc_str(l[0]) + (enc_strs(l.drop_first()) + enc_str(x)));
        assert(enc_str(l[0]) + (enc_strs(l.drop_first()) + enc_str(x)) =~= (enc_str(l[0])
            + enc_strs(l.drop_first())) + enc_str(x));
    }
}

/// Appending an entry to a list appends its serialized form.
proof fn lemma_enc_entries_push(es: Seq<EntryView>, e: EntryView)
    ensures
        enc_entries(es.push(e)) == enc_entries(es) + enc_entry(e),
    decreases es.len(),
{
    if es.len() == 0 {
        let d = es.push(e).drop_first();
        assert(es.push(e)[0] == e);
        assert(d =~= Seq::<EntryView>::empty());
        assert(enc_entries(d) =~= Seq::<u8>::empty());
        assert(enc_entries(es.push(e)) =~= enc_entry(e));
        assert(enc_entries(es) + enc_entry(e) =~= enc_entry(e));
    } else {
        assert(es.push(e)[0] == es[0]);
        assert(es.push(e).drop_first() =~= es.drop_first().push(e));
        lemma_enc_entries_push(es.drop_first(), e);
        assert(enc_entries(es.push(e)) == enc_entry(es[0]) + (enc_entries(es.drop_first())
            + enc_entry(e)));
        assert(enc_entry(es[0]) + (enc_entries(es.drop_first()) + enc_entry(e)) =~= (enc_entry(
            es[0],
        ) + enc_entries(es.drop_first())) + enc_entry(e));
    }
}

/// A decoded prefix combined with the outcome of decoding the remaining
/// strings.
spec fn after_strs(prefix: Seq<Seq<char>>, rest: Option<(Seq<Seq<char>>, int)>) -> Option<
    (Seq<Seq<char>>, int),
> {
    match rest {
        None => None,
        Some((l, p)) => Some((prefix + l, p)),
    }
}

/// A decoded prefix combined with the outcome of decoding the remaining
/// entries.
spec fn after_entries(prefix: Seq<EntryView>, rest: Option<(Seq<EntryView>, int)>) -> Option<
    (Seq<EntryView>, int),
> {
    match rest {
        None => None,
        Some((es, p)) => Some((prefix + es, p)),
    }
}

/// Relies on `String::from_utf8`: the bytes convert to a string exactly
/// when they are valid UTF-8, and the string is their UTF-8 decoding.
#[verifier::external_body]
fn bytes_to_string(v: Vec<u8>) -> (r: Option<String>)
    ensures
        r is Some <==> valid_utf8(v@),
        r matches Some(s) ==> s@ == decode_utf8(v@),
{
    match String::from_utf8(v) {
        Ok(s) => Some(s),
        Err(_) => None,
    }
}

/// Reads a length or count at the position given.
fn read_u64(data: &[u8], pos: usize) -> (r: Option<(u64, usize)>)
    requires
        pos <= data@.len(),
    ensures
        r matches Some(v) ==> (dec_u64(data@, pos as int) == Some((v.0, v.1 as int)) && v.1
            <= data@.len()),
        r is None ==> dec_u64(data@, pos as int) is None,
{
    if data.len() - pos >= 8 {
        let sl = vstd::slice::slice_subrange(data, pos, pos + 8);
        let x = vstd::bytes::u64_from_le_bytes(sl);
        Some((x, pos + 8))
    } else {
        None
    }
}

/// Reads a string at the position given.
fn read_str(data: &[u8], pos: usize) -> (r: Option<(String, usize)>)
    requires
        pos <= data@.len(),
    ensures
        r matches Some(v) ==> (dec_str(data@, pos as int) == Some((v.0@, v.1 as int)) && v.1
            <= data@.len()),
        r is None ==> dec_str(data@, pos as int) is None,
{
    match read_u64(data, pos) {
        None => None,
        Some((n, p)) => {
            if n <= (data.len() - p) as u64 {
                let m = n as usize;
                proof {
                    assert(m as int == n as int);
                    assert(p + m <= data@.len());
                }
                let sl = vstd::slice::slice_subrange(data, p, p + m);
                let v = vstd::slice::slice_to_vec(sl);
                match bytes_to_string(v) {
                    Some(s) => Some((s, p + m)),
                    None => None,
                }
            } else {
                proof {
                    assert(p + n as int > data@.len());
                }
                None
            }
        },
    }
}

/// Reads an optional string at the position given.
fn read_opt_str(data: &[u8], pos: usize) -> (r: Option<(Option<String>, usize)>)
    requires
        pos <= data@.len(),
    ensures
        r matches Some(v) ==> (dec_opt_str(data@, pos as int) == Some(
            (
                match v.0 {
                    Some(s) => Some(s@),
                    None => None::<Seq<char>>,
                },
                v.1 as int,
            ),
        ) && v.1 <= data@.len()),
        r is None ==> dec_opt_str(data@, pos as int) is None,
{
    if pos < data.len() {
        let flag = data[pos];
        if flag == 0 {
            Some((None, pos + 1))
        } else if flag == 1 {
            match read_str(data, pos + 1) {
                Some((s, p)) => Some((Some(s), p)),
                None => None,
            }
        } else {
            None
        }
    } else {
        None
    }
}

/// Reads a tag list at the position given: a count, then one tag keyword
/// per string.
fn read_tag_list(data: &[u8], pos: usize) -> (r: Option<(Vec<Tag>, usize)>)
    requires
        pos <= data@.len(),
    ensures
        r matches Some(v) ==> (dec_str_list(data@, pos as int) == Some(
            (tag_views(v.0@), v.1 as int),
        ) && v.1 <= data@.len()),
        r is None ==> dec_str_list(data@, pos as int) is None,
{
    let (n, p0) = match read_u64(data, pos) {
        Some(v) => v,
        None => {
            return None;
        },
    };
    let mut acc: Vec<Tag> = Vec::new();
    let mut p = p0;
    let mut i: u64 = 0;
    proof {
        assert(tag_views(acc@) =~= Seq::<Seq<char>>::empty());
        match dec_strs(data@, p0 as int, n as int) {
            Some((l, q)) => {
                assert(tag_views(acc@) + l =~= l);
            },
            None => {},
        }
    }
    while i < n
        invariant
            i <= n,
            p <= data@.len(),
            dec_u64(data@, pos as int) == Some((n, p0 as int)),
            after_strs(tag_views(acc@), dec_strs(data@, p as int, n as int - i as int))
                == dec_strs(data@, p0 as int, n as int),
        decreases n - i,
    {
        let ghost accv = tag_views(acc@);
        let (s, p2) = match read_str(data, p) {
            Some(v) => v,
            None => {
                proof {
                    assert(dec_strs(data@, p as int, n as int - i as int) is None);
                }
                return None;
            },
        };
        acc.push(Tag::new(s.as_str()));
        proof {
            assert(tag_views(acc@) =~= accv.push(s@));
            match dec_strs(data@, p2 as int, n as int - i as int - 1) {
                Some((l, q)) => {
                    assert(accv.push(s@) + l =~= accv + (seq![s@] + l));
                },
                None => {},
            }
        }
        p = p2;
        i = i + 1;
    }
    proof {
        let rest = dec_strs(data@, p as int, 0);
        assert(rest == Some((Seq::<Seq<char>>::empty(), p as int)));
        assert(tag_views(acc@) + Seq::<Seq<char>>::empty() =~= tag_views(acc@));
    }
    Some((acc, p))
}

/// Reads an optional tag list at the position given.
fn read_opt_tags(data: &[u8], pos: usize) -> (r: Option<(Option<Vec<Tag>>, usize)>)
    requires
        pos <= data@.len(),
    ensures
        r matches Some(v) ==> (dec_opt_list(data@, pos as int) == Some(
            (
                match v.0 {
                    Some(ts) => Some(tag_views(ts@)),
                    None => None::<Seq<Seq<char>>>,
                },
                v.1 as int,
            ),
        ) && v.1 <= data@.len()),
        r is None ==> dec_opt_list(data@, pos as int) is None,
{
    if pos < data.len() {
        let flag = data[pos];
        if flag == 0 {
            Some((None, pos + 1))
        } else if flag == 1 {
            match read_tag_list(data, pos + 1) {
                Some((ts, p)) => Some((Some(ts), p)),
                None => None,
            }
        } else {
            None
        }
    } else {
        None
    }
}

/// Reads one entry at the position given and validates it: the
/// bibliography reference must carry the recognized extension and the tag
/// list must be sorted and duplicate-free.
fn read_entry(data: &[u8], pos: usize) -> (r: Option<(Entry, usize)>)
    requires
        pos <= data@.len(),
    ensures
        r matches Some(v) ==> (dec_entry(data@, pos as int) == Some((v.0@, v.1 as int)) && v.1
            <= data@.len() && v.0.inv()),
        r is None ==> dec_entry(data@, pos as int) is None || (dec_entry(data@, pos as int)
            matches Some(dv) && !crate::entry::entry_view_inv(dv.0)),
{
    let (path, p) = match read_str(data, pos) {
        Some(v) => v,
        None => {
            return None;
        },
    };
    let (bib, p2) = match read_opt_str(data, p) {
        Some(v) => v,
        None => {
            return None;
        },
    };
    let (tags, p3) = match read_opt_tags(data, p2) {
        Some(v) => v,
        None => {
            return None;
        },
    };
    match &bib {
        Some(b) => {
            if !crate::entry::bib_ext_ok(b.as_str()) {
                return None;
            }
        },
        None => {},
    }
    match &tags {
        Some(ts) => {
            if !crate::entry::tags_sorted(ts) {
                return None;
            }
            if crate::entry::has_duplicate(ts) {
                return None;
            }
        },
        None => {},
    }
    let e = Entry::from_parts(path, bib, tags);
    Some((e, p3))
}

/// Appends the serialized form of a length or count.
fn push_u64(out: &mut Vec<u8>, x: u64)
    ensures
        final(out)@ == old(out)@ + enc_u64(x),
{
    let mut b = u64_to_le_bytes(x);
    out.append(&mut b);
}

/// Appends the serialized form of a string.  That the string was held in
/// memory shows its encoding fits the format's length field.
fn push_str(out: &mut Vec<u8>, s: &str)
    ensures
        final(out)@ == old(out)@ + enc_str(s@),
        str_fits(s@),
{
    let mut bytes = s.as_bytes_vec();
    push_u64(out, bytes.len() as u64);
    out.append(&mut bytes);
    proof {
        assert(out@ =~= old(out)@ + enc_str(s@));
    }
}

/// Appends the serialized form of a tag list.  That the list was held in
/// memory shows it fits the format's count and length fields.
fn push_tag_list(out: &mut Vec<u8>, ts: &Vec<Tag>)
    ensures
        final(out)@ == old(out)@ + enc_str_list(tag_views(ts@)),
        list_fits(tag_views(ts@)),
{
    let ghost views = tag_views(ts@);
    let ghost start = out@;
    let n = ts.len();
    push_u64(out, n as u64);
    let mut i: usize = 0;
    proof {
        assert(views.take(0) =~= Seq::<Seq<char>>::empty());
        assert(out@ =~= start + enc_u64(n as u64) + enc_strs(views.take(0)));
    }
    while i < n
        invariant
            i <= n,
            n == ts@.len(),
            views == tag_views(ts@),
            out@ == start + enc_u64(n as u64) + enc_strs(views.take(i as int)),
            forall|j: int| 0 <= j < i ==> str_fits(#[trigger] views[j]),
        decreases n - i,
    {
        let t = &ts[i];
        push_str(out, t.keyword());
        proof {
            lemma_enc_strs_push(views.take(i as int), t@);
            assert(views.take(i + 1) =~= views.take(i as int).push(t@));
            assert(out@ =~= start + enc_u64(n as u64) + enc_strs(views.take(i + 1)));
        }
        i = i + 1;
    }
    proof {
        assert(views.take(n as int) =~= views);
        assert(out@ =~= start + enc_str_list(views));
    }
}

/// Appends the serialized form of one entry.  That the entry was held in
/// memory shows it fits the format's length fields.
fn push_entry(out: &mut Vec<u8>, e: &Entry)
    ensures
        final(out)@ == old(out)@ + enc_entry(e@),
        entry_fits(e@),
{
    let ghost start = out@;
    push_str(out, e.path().as_str());
    match e.bib_path() {
        Some(b) => {
            out.push(1u8);
            push_str(out, b.as_str());
            proof {
                assert(out@ =~= start + enc_str(e@.path) + enc_opt_str(e@.bib_path));
            }
        },
        None => {
            out.push(0u8);
            proof {
                assert(out@ =~= start + enc_str(e@.path) + enc_opt_str(e@.bib_path));
            }
        },
    }
    let ghost mid = out@;
    match e.tags() {
        Some(ts) => {
            out.push(1u8);
            push_tag_list(out, ts);
            proof {
                assert(out@ =~= mid + enc_opt_list(e@.tags));
                assert(out@ =~= start + enc_entry(e@));
            }
        },
        None => {
            out.push(0u8);
            proof {
                assert(out@ =~= mid + enc_opt_list(e@.tags));
                assert(out@ =~= start + enc_entry(e@));
            }
        },
    }
}

impl Shelf {
    /// Serializes the [`Shelf`] into a binary blob.  Writing the blob to
    /// its destination, atomically or otherwise, is the caller's job; the
    /// blob itself is a pure function of the shelf's value.
    pub fn save(&self) -> (data: Vec<u8>)
        ensures
            data@ == spec_save(self@),
            view_fits(self@),
    {
        let mut out: Vec<u8> = Vec::new();
        let entries = self.entries();
        let n = entries.len();
        proof {
            assert(n == self@.entries.len());
        }
        push_u64(&mut out, n as u64);
        let mut i: usize = 0;
        proof {
            assert(self@.entries.take(0) =~= Seq::<EntryView>::empty());
            assert(out@ =~= enc_u64(n as u64) + enc_entries(self@.entries.take(0)));
        }
        while i < n
            invariant
                i <= n,
                n == entries@.len(),
                crate::shelf::entry_views(entries@) == self@.entries,
                out@ == enc_u64(n as u64) + enc_entries(self@.entries.take(i as int)),
                forall|k: int| 0 <= k < i ==> entry_fits(#[trigger] self@.entries[k]),
            decreases n - i,
        {
            let e = &entries[i];
            proof {
                assert(e@ == self@.entries[i as int]);
            }
            push_entry(&mut out, e);
            proof {
                lemma_enc_entries_push(self@.entries.take(i as int), e@);
                assert(self@.entries.take(i + 1) =~= self@.entries.take(i as int).push(e@));
                assert(out@ =~= enc_u64(n as u64) + enc_entries(self@.entries.take(i + 1)));
            }
            i = i + 1;
        }
        proof {
            assert(self@.entries.take(n as int) =~= self@.entries);
        }
        push_tag_list(&mut out, self.tags());
        proof {
            assert(out@ =~= spec_save(self@));
        }
        out
    }

    /// Reads a [`Shelf`] back from its serialized binary form.
    ///
    /// # Errors
    ///
    /// Fails with [`Error::Read`] if the blob cannot be deserialized: it
    /// is truncated or otherwise malformed, carries trailing bytes, or
    /// breaks the shelf's invariant.
    pub fn open(data: &[u8]) -> (r: Result<Shelf, Error>)
        ensures
            spec_open(data@) matches Some(v) ==> (r matches Ok(s) && s@ == v && s.wf()),
            spec_open(data@) is None ==> r == Err::<Shelf, Error>(Error::Read),
    {
        let (n, p0) = match read_u64(data, 0) {
            Some(v) => v,
            None => {
                return Err(Error::Read);
            },
        };
        let mut entries: Vec<Entry> = Vec::new();
        let mut p = p0;
        let mut i: u64 = 0;
        proof {
            assert(entry_views(entries@) =~= Seq::<EntryView>::empty());
            match dec_entries(data@, p0 as int, n as int) {
                Some((es, q)) => {
                    assert(entry_views(entries@) + es =~= es);
                },
                None => {},
            }
        }
        while i < n
            invariant
                i <= n,
                p <= data@.len(),
                dec_u64(data@, 0) == Some((n, p0 as int)),
                after_entries(
                    entry_views(entries@),
                    dec_entries(data@, p as int, n as int - i as int),
                ) == dec_entries(data@, p0 as int, n as int),
                forall|k: int|
                    0 <= k < entries@.len() ==> crate::entry::entry_view_inv(
                        #[trigger] entry_views(entries@)[k],
                    ),
            decreases n - i,
        {
            let ghost accv = entry_views(entries@);
            match read_entry(data, p) {
                Some((e, p2)) => {
                    let ghost ev = e@;
                    entries.push(e);
                    proof {
                        assert(entry_views(entries@) =~= accv.push(ev));
                        match dec_entries(data@, p2 as int, n as int - i as int - 1) {
                            Some((es, q)) => {
                                assert(accv.push(ev) + es =~= accv + (seq![ev] + es));
                            },
                            None => {},
                        }
                        assert forall|k: int| 0 <= k < entries@.len() implies
                            crate::entry::entry_view_inv(#[trigger] entry_views(entries@)[k]) by {
                            if k < accv.len() {
                                assert(entry_views(entries@)[k] == accv[k]);
                            } else {
                                assert(entry_views(entries@)[k] == ev);
                            }
                        }
                    }
                    p = p2;
                    i = i + 1;
                },
                None => {
                    proof {
                        let de = dec_entry(data@, p as int);
                        match de {
                            None => {
                                assert(dec_entries(data@, p as int, n as int - i as int) is None);
                            },
                            Some((dv, dp)) => {
                                match dec_entries(data@, dp, n as int - i as int - 1) {
                                    None => {
                                        assert(dec_entries(
                                            data@,
                                            p as int,
                                            n as int - i as int,
                                        ) is None);
                                    },
                                    Some((es2, q)) => {
                                        let whole = accv + (seq![dv] + es2);
                                        assert(dec_entries(data@, p as int, n as int - i as int)
                                            == Some((seq![dv] + es2, q)));
                                        assert(dec_entries(data@, p0 as int, n as int) == Some(
                                            (whole, q),
                                        ));
                                        assert(whole[accv.len() as int] == dv);
                                        assert(!crate::entry::entry_view_inv(dv));
                                        match dec_str_list(data@, q) {
                                            None => {},
                                            Some((ts2, p4)) => {
                                                assert(!shelf_view_inv(
                                                    ShelfView { entries: whole, tags: ts2 },
                                                ));
                                            },
                                        }
                                    },
                                }
                            },
                        }
                        assert(spec_open(data@) is None);
                    }
                    return Err(Error::Read);
                },
            }
        }
        proof {
            assert(entry_views(entries@) + Seq::<EntryView>::empty() =~= entry_views(entries@));
            assert(dec_entries(data@, p0 as int, n as int) == Some(
                (entry_views(entries@), p as int),
            ));
        }
        let ghost evs = entry_views(entries@);
        let (tags, p3) = match read_tag_list(data, p) {
            Some(v) => v,
            None => {
                return Err(Error::Read);
            },
        };
        let ghost tvs = tag_views(tags@);
        if p3 != data.len() {
            return Err(Error::Read);
        }
        match Shelf::from_parts(entries, tags) {
            Some(s) => {
                proof {
                    assert(spec_open(data@) == Some(ShelfView { entries: evs, tags: tvs }));
                }
                Ok(s)
            },
            None => {
                proof {
                    assert(!shelf_view_inv(ShelfView { entries: evs, tags: tvs }));
                    assert(spec_open(data@) is None);
                }
                Err(Error::Read)
            },
        }
    }
}

} // verus!
