use vstd::prelude::*;

verus! {

/// A byte of ASCII whitespace, as the bibliography grammar skips it.
pub open spec fn ws_byte(b: u8) -> bool {
    b == 32 || b == 9 || b == 10 || b == 13 || b == 11 || b == 12
}

/// A byte the scan skips where the grammar skips whitespace: ASCII
/// whitespace, or any byte of a multi-byte character, which could encode
/// whitespace too.
pub open spec fn gap_byte(b: u8) -> bool {
    ws_byte(b) || b >= 128
}

/// An ASCII byte that can continue an identifier of the bibliography
/// grammar: printable, and none of the grammar's structural characters
/// `@ { } " # ' ( ) , = % \ ~`.
pub open spec fn ident_byte(b: u8) -> bool {
    &&& 33 <= b <= 125
    &&& b != 34
    &&& b != 35
    &&& b != 37
    &&& b != 39
    &&& b != 40
    &&& b != 41
    &&& b != 44
    &&& b != 61
    &&& b != 64
    &&& b != 92
    &&& b != 123
    &&& b != 125
}

/// Whether a byte is one of a lower-case letter and its upper-case form:
/// the grammar reads entry types case-insensitively.
pub open spec fn eqi(b: u8, lower: u8, upper: u8) -> bool {
    b == lower || b == upper
}

/// Where the scan of one abbreviation-definition body stands.
#[derive(Debug, Clone, Copy, PartialEq, Eq, Structural)]
pub enum Mode {
    /// Between the entry type and its body: skipping to the opening
    /// brace or quote.
    Gap,
    /// At the top level of the body, between literals.
    Top,
    /// Inside a quoted literal.
    Quote,
    /// Behind a backslash inside a quoted literal.
    QuoteEsc,
    /// Inside a braced literal.
    Braced,
    /// Behind a backslash inside a braced literal.
    BracedEsc,
    /// Inside a comment, to the end of the line.
    Comment,
    /// The body ended without an abbreviation reference.
    Done,
    /// A value element referred to an abbreviation.
    Found,
}

/// The whole state of the body scan: the mode, the brace nesting inside
/// a braced literal, and whether the next element read at the top level
/// is a value (behind `=` or `#`) rather than a key.
#[derive(Debug, Clone, Copy, PartialEq, Eq, Structural)]
pub struct BodyScan {
    /// Where the scan stands.
    pub mode: Mode,
    /// Unmatched inner braces of the current braced literal.
    pub depth: usize,
    /// Whether the next top-level element is a value.
    pub awaiting: bool,
}

/// The state the scan of a body starts in, right behind the entry type.
pub open spec fn init_scan() -> BodyScan {
    BodyScan { mode: Mode::Gap, depth: 0, awaiting: false }
}

/// One step of the body scan, mirroring how the bibliography grammar
/// consumes one byte: literals are skipped with their escapes, `=` and
/// `#` announce a value element, and a value element that is neither a
/// literal nor a number is an abbreviation reference.
pub open spec fn body_step(st: BodyScan, b: u8) -> BodyScan {
    match st.mode {
        Mode::Gap => if gap_byte(b) {
            st
        } else if b == 123 || b == 34 {
            BodyScan { mode: Mode::Top, depth: 0, awaiting: false }
        } else {
            BodyScan { mode: Mode::Done, ..st }
        },
        Mode::Top => if st.awaiting {
            if ws_byte(b) {
                st
            } else if b == 123 {
                BodyScan { mode: Mode::Braced, depth: 0, awaiting: false }
            } else if b == 34 {
                BodyScan { mode: Mode::Quote, depth: 0, awaiting: false }
            } else if 48 <= b && b <= 57 {
                BodyScan { awaiting: false, ..st }
            } else {
                BodyScan { mode: Mode::Found, ..st }
            }
        } else {
            if b == 125 {
                BodyScan { mode: Mode::Done, ..st }
            } else if b == 61 || b == 35 {
                BodyScan { awaiting: true, ..st }
            } else if b == 123 {
                BodyScan { mode: Mode::Braced, depth: 0, awaiting: false }
            } else if b == 34 {
                BodyScan { mode: Mode::Quote, depth: 0, awaiting: false }
            } else if b == 37 {
                BodyScan { mode: Mode::Comment, ..st }
            } else {
                st
            }
        },
        Mode::Quote => if b == 92 {
            BodyScan { mode: Mode::QuoteEsc, ..st }
        } else if b == 34 {
            BodyScan { mode: Mode::Top, depth: 0, awaiting: false }
        } else {
            st
        },
        Mode::QuoteEsc => BodyScan { mode: Mode::Quote, ..st },
        Mode::Braced => if b == 92 {
            BodyScan { mode: Mode::BracedEsc, ..st }
        } else if b == 123 {
            BodyScan { depth: (st.depth + 1) as usize, ..st }
        } else if b == 125 {
            if st.depth == 0 {
                BodyScan { mode: Mode::Top, depth: 0, awaiting: false }
            } else {
                BodyScan { depth: (st.depth - 1) as usize, ..st }
            }
        } else {
            st
        },
        Mode::BracedEsc => BodyScan { mode: Mode::Braced, ..st },
        Mode::Comment => if b == 10 {
            BodyScan { mode: Mode::Top, ..st }
        } else {
            st
        },
        Mode::Done => st,
        Mode::Found => st,
    }
}

/// Whether scanning a definition body from position `i` in state `st`
/// hits an abbreviation reference before the body (or the source) ends.
pub open spec fn body_scan(s: Seq<u8>, i: int, st: BodyScan) -> bool
    decreases s.len() - i,
{
    if st.mode is Found {
        true
    } else if st.mode is Done {
        false
    } else if i < 0 || i >= s.len() {
        false
    } else {
        body_scan(s, i + 1, body_step(st, s[i]))
    }
}

/// Whether position `i` starts a `@string` entry (the entry type read
/// case-insensitively and ending there).
pub open spec fn string_entry_token(s: Seq<u8>, i: int) -> bool {
    &&& 0 <= i
    &&& i + 7 <= s.len()
    &&& s[i] == 64
    &&& eqi(s[i + 1], 115, 83)
    &&& eqi(s[i + 2], 116, 84)
    &&& eqi(s[i + 3], 114, 82)
    &&& eqi(s[i + 4], 105, 73)
    &&& eqi(s[i + 5], 110, 78)
    &&& eqi(s[i + 6], 103, 71)
    &&& (i + 7 == s.len() || !ident_byte(s[i + 7]))
}

/// Whether position `i` starts an abbreviation definition whose value
/// refers to a further abbreviation.
pub open spec fn chained_string_def_at(s: Seq<u8>, i: int) -> bool {
    string_entry_token(s, i) && body_scan(s, i + 7, init_scan())
}

/// Whether, from position `i` on, a `=` follows behind nothing but gap
/// bytes: the shape of the grammar between a field key and its value.
pub open spec fn gap_then_eq(s: Seq<u8>, i: int) -> bool
    decreases s.len() - i,
{
    if i < 0 || i >= s.len() {
        false
    } else if gap_byte(s[i]) {
        gap_then_eq(s, i + 1)
    } else {
        s[i] == 61
    }
}

/// Whether position `i` starts a field key `crossref` (read
/// case-insensitively, delimited, and followed by `=`).
pub open spec fn crossref_key_at(s: Seq<u8>, i: int) -> bool {
    &&& 0 <= i
    &&& i + 8 <= s.len()
    &&& (i == 0 || !ident_byte(s[i - 1]))
    &&& eqi(s[i], 99, 67)
    &&& eqi(s[i + 1], 114, 82)
    &&& eqi(s[i + 2], 111, 79)
    &&& eqi(s[i + 3], 115, 83)
    &&& eqi(s[i + 4], 115, 83)
    &&& eqi(s[i + 5], 114, 82)
    &&& eqi(s[i + 6], 101, 69)
    &&& eqi(s[i + 7], 102, 70)
    &&& gap_then_eq(s, i + 8)
}

/// Whether position `i` starts a field key `xdata` (read
/// case-insensitively, delimited, and followed by `=`).
pub open spec fn xdata_key_at(s: Seq<u8>, i: int) -> bool {
    &&& 0 <= i
    &&& i + 5 <= s.len()
    &&& (i == 0 || !ident_byte(s[i - 1]))
    &&& eqi(s[i], 120, 88)
    &&& eqi(s[i + 1], 100, 68)
    &&& eqi(s[i + 2], 97, 65)
    &&& eqi(s[i + 3], 116, 84)
    &&& eqi(s[i + 4], 97, 65)
    &&& gap_then_eq(s, i + 5)
}

/// Whether a bibliography source is plain enough for its resolution to
/// come to an end: no string-abbreviation definition refers to a further
/// abbreviation, and no entry links another through a `crossref` or
/// `xdata` field.  The parser resolves both kinds of reference by
/// recursion with no check against cycles, so a source outside this
/// predicate could keep it from ever returning; the library treats such
/// a source as malformed.
pub open spec fn bib_source_plain(s: Seq<u8>) -> bool {
    &&& forall|i: int| !chained_string_def_at(s, i)
    &&& forall|i: int| !crossref_key_at(s, i)
    &&& forall|i: int| !xdata_key_at(s, i)
}

/// One step of the body scan, executed.
fn step(st: BodyScan, b: u8) -> (r: BodyScan)
    requires
        st.depth < usize::MAX,
    ensures
        r == body_step(st, b),
        r.depth <= st.depth + 1,
{
    match st.mode {
        Mode::Gap => {
            if b == 32 || b == 9 || b == 10 || b == 13 || b == 11 || b == 12 || b >= 128 {
                st
            } else if b == 123 || b == 34 {
                BodyScan { mode: Mode::Top, depth: 0, awaiting: false }
            } else {
                BodyScan { mode: Mode::Done, ..st }
            }
        },
        Mode::Top => {
            if st.awaiting {
                if b == 32 || b == 9 || b == 10 || b == 13 || b == 11 || b == 12 {
                    st
                } else if b == 123 {
                    BodyScan { mode: Mode::Braced, depth: 0, awaiting: false }
                } else if b == 34 {
                    BodyScan { mode: Mode::Quote, depth: 0, awaiting: false }
                } else if 48 <= b && b <= 57 {
                    BodyScan { awaiting: false, ..st }
                } else {
                    BodyScan { mode: Mode::Found, ..st }
                }
            } else {
                if b == 125 {
                    BodyScan { mode: Mode::Done, ..st }
                } else if b == 61 || b == 35 {
                    BodyScan { awaiting: true, ..st }
                } else if b == 123 {
                    BodyScan { mode: Mode::Braced, depth: 0, awaiting: false }
                } else if b == 34 {
                    BodyScan { mode: Mode::Quote, depth: 0, awaiting: false }
                } else if b == 37 {
                    BodyScan { mode: Mode::Comment, ..st }
                } else {
                    st
                }
            }
        },
        Mode::Quote => {
            if b == 92 {
                BodyScan { mode: Mode::QuoteEsc, ..st }
            } else if b == 34 {
                BodyScan { mode: Mode::Top, depth: 0, awaiting: false }
            } else {
                st
            }
        },
        Mode::QuoteEsc => BodyScan { mode: Mode::Quote, ..st },
        Mode::Braced => {
            if b == 92 {
                BodyScan { mode: Mode::BracedEsc, ..st }
            } else if b == 123 {
                BodyScan { depth: st.depth + 1, ..st }
            } else if b == 125 {
                if st.depth == 0 {
                    BodyScan { mode: Mode::Top, depth: 0, awaiting: false }
                } else {
                    BodyScan { depth: st.depth - 1, ..st }
                }
            } else {
                st
            }
        },
        Mode::BracedEsc => BodyScan { mode: Mode::Braced, ..st },
        Mode::Comment => {
            if b == 10 {
                BodyScan { mode: Mode::Top, ..st }
            } else {
                st
            }
        },
        Mode::Done => st,
        Mode::Found => st,
    }
}

/// Scans one definition body, deciding whether it refers to a further
/// abbreviation.
fn scan_body(bytes: &Vec<u8>, start: usize) -> (found: bool)
    requires
        start <= bytes@.len(),
    ensures
        found == body_scan(bytes@, start as int, init_scan()),
{
    let n = bytes.len();
    let mut st = BodyScan { mode: Mode::Gap, depth: 0, awaiting: false };
    let mut i = start;
    proof {
        assert(st == init_scan());
    }
    while i < n
        invariant
            start <= i <= n,
            n == bytes@.len(),
            st.depth <= i - start,
            body_scan(bytes@, start as int, init_scan()) == body_scan(bytes@, i as int, st),
        decreases n - i,
    {
        match st.mode {
            Mode::Found => {
                return true;
            },
            Mode::Done => {
                return false;
            },
            _ => {},
        }
        st = step(st, bytes[i]);
        i = i + 1;
    }
    match st.mode {
        Mode::Found => true,
        _ => false,
    }
}

/// Decides whether a `=` follows behind nothing but gap bytes.
fn gap_eq(bytes: &Vec<u8>, start: usize) -> (r: bool)
    requires
        start <= bytes@.len(),
    ensures
        r == gap_then_eq(bytes@, start as int),
{
    let n = bytes.len();
    let mut i = start;
    while i < n
        invariant
            start <= i <= n,
            n == bytes@.len(),
            gap_then_eq(bytes@, start as int) == gap_then_eq(bytes@, i as int),
        decreases n - i,
    {
        let b = bytes[i];
        if b == 32 || b == 9 || b == 10 || b == 13 || b == 11 || b == 12 || b >= 128 {
            i = i + 1;
        } else {
            return b == 61;
        }
    }
    false
}

/// Decides whether an ASCII byte can continue a grammar identifier.
fn ident_byte_exec(b: u8) -> (r: bool)
    ensures
        r == ident_byte(b),
{
    33 <= b && b <= 125 && b != 34 && b != 35 && b != 37 && b != 39 && b != 40 && b != 41
        && b != 44 && b != 61 && b != 64 && b != 92 && b != 123 && b != 125
}

/// Decides whether position `i` starts a `@string` entry.
fn string_entry_at(bytes: &Vec<u8>, i: usize) -> (r: bool)
    requires
        i < bytes@.len(),
    ensures
        r == string_entry_token(bytes@, i as int),
{
    let n = bytes.len();
    if n - i < 7 {
        return false;
    }
    let head = bytes[i] == 64 && (bytes[i + 1] == 115 || bytes[i + 1] == 83) && (bytes[i + 2]
        == 116 || bytes[i + 2] == 84) && (bytes[i + 3] == 114 || bytes[i + 3] == 82) && (bytes[i
        + 4] == 105 || bytes[i + 4] == 73) && (bytes[i + 5] == 110 || bytes[i + 5] == 78)
        && (bytes[i + 6] == 103 || bytes[i + 6] == 71);
    if !head {
        return false;
    }
    if i + 7 == n {
        return true;
    }
    !ident_byte_exec(bytes[i + 7])
}

/// Decides whether position `i` starts a `crossref` field key.
fn crossref_at(bytes: &Vec<u8>, i: usize) -> (r: bool)
    requires
        i < bytes@.len(),
    ensures
        r == crossref_key_at(bytes@, i as int),
{
    let n = bytes.len();
    if n - i < 8 {
        return false;
    }
    if i > 0 && ident_byte_exec(bytes[i - 1]) {
        return false;
    }
    let head = (bytes[i] == 99 || bytes[i] == 67) && (bytes[i + 1] == 114 || bytes[i + 1] == 82)
        && (bytes[i + 2] == 111 || bytes[i + 2] == 79) && (bytes[i + 3] == 115 || bytes[i + 3]
        == 83) && (bytes[i + 4] == 115 || bytes[i + 4] == 83) && (bytes[i + 5] == 114 || bytes[i
        + 5] == 82) && (bytes[i + 6] == 101 || bytes[i + 6] == 69) && (bytes[i + 7] == 102
        || bytes[i + 7] == 70);
    if !head {
        return false;
    }
    gap_eq(bytes, i + 8)
}

/// Decides whether position `i` starts an `xdata` field key.
fn xdata_at(bytes: &Vec<u8>, i: usize) -> (r: bool)
    requires
        i < bytes@.len(),
    ensures
        r == xdata_key_at(bytes@, i as int),
{
    let n = bytes.len();
    if n - i < 5 {
        return false;
    }
    if i > 0 && ident_byte_exec(bytes[i - 1]) {
        return false;
    }
    let head = (bytes[i] == 120 || bytes[i] == 88) && (bytes[i + 1] == 100 || bytes[i + 1] == 68)
        && (bytes[i + 2] == 97 || bytes[i + 2] == 65) && (bytes[i + 3] == 116 || bytes[i + 3]
        == 84) && (bytes[i + 4] == 97 || bytes[i + 4] == 65);
    if !head {
        return false;
    }
    gap_eq(bytes, i + 5)
}

/// Decides whether a bibliography source, as UTF-8 bytes, is plain: see
/// [`bib_source_plain`].
pub fn source_plain(bytes: &Vec<u8>) -> (r: bool)
    ensures
        r == bib_source_plain(bytes@),
{
    let n = bytes.len();
    let mut i: usize = 0;
    while i < n
        invariant
            i <= n,
            n == bytes@.len(),
            forall|j: int| 0 <= j < i ==> !chained_string_def_at(bytes@, j),
            forall|j: int| 0 <= j < i ==> !crossref_key_at(bytes@, j),
            forall|j: int| 0 <= j < i ==> !xdata_key_at(bytes@, j),
        decreases n - i,
    {
        if string_entry_at(bytes, i) {
            if scan_body(bytes, i + 7) {
                proof {
                    assert(chained_string_def_at(bytes@, i as int));
                }
                return false;
            }
        }
        if crossref_at(bytes, i) {
            return false;
        }
        if xdata_at(bytes, i) {
            return false;
        }
        i = i + 1;
    }
    proof {
        assert forall|j: int| !chained_string_def_at(bytes@, j) by {
            if 0 <= j < bytes@.len() {
            }
        }
        assert forall|j: int| !crossref_key_at(bytes@, j) by {
            if 0 <= j < bytes@.len() {
            }
        }
        assert forall|j: int| !xdata_key_at(bytes@, j) by {
            if 0 <= j < bytes@.len() {
            }
        }
    }
    true
}

} // verus!
