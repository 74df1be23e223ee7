use biblatex::Bibliography;
use biblatex::Entry as BibRecord;
use vstd::prelude::*;
use vstd::utf8::encode_utf8;

use crate::bibscan::bib_source_plain;

verus! {

/// `biblatex::Bibliography`, declared so bibliography resolution can hold
/// one: the collection of records a BibTeX source parses to, keyed by
/// cite key.
#[verifier::external_type_specification]
#[verifier::external_body]
pub struct ExBibliography(Bibliography);

/// `biblatex::Entry`, declared so bibliography resolution can return one:
/// a single record of a parsed bibliography.
#[verifier::external_type_specification]
#[verifier::external_body]
pub struct ExBibRecord(BibRecord);

/// The records a bibliography holds, under the keys of its lookup map:
/// each record under its cite key, and under every alias it declares.
pub uninterp spec fn bib_records(b: Bibliography) -> Map<Seq<char>, BibRecord>;

/// The cite keys a bibliography's records can be looked up under.
pub open spec fn bib_keys(b: Bibliography) -> Set<Seq<char>> {
    bib_records(b).dom()
}

/// What parsing a BibTeX source text yields, as a function of the text
/// alone: the records the text lists, by key, or `None` when the text is
/// malformed.
pub uninterp spec fn parsed_records(s: Seq<char>) -> Option<Map<Seq<char>, BibRecord>>;

/// Relies on `biblatex::Bibliography::parse`: parsing depends on the
/// source text alone, fails exactly when the text is malformed, and
/// yields the bibliography of the records the text lists.  The parser
/// resolves string abbreviations and `crossref`/`xdata` links by
/// recursion with no check against reference cycles, so on a source
/// outside [`bib_source_plain`] the call might never return; callers
/// keep such sources away from it.  On a plain source every resolution
/// chain is at most one step deep, and the call returns.
#[verifier::external_body]
pub(crate) fn parse_bibliography(src: &str) -> (r: Option<Bibliography>)
    requires
        bib_source_plain(encode_utf8(src@)),
    ensures
        (r is Some) == (parsed_records(src@) is Some),
        r matches Some(b) ==> parsed_records(src@) == Some(bib_records(b)),
{
    Bibliography::parse(src).ok()
}

/// Relies on `biblatex::Bibliography::get`: a record comes back exactly
/// when the bibliography's lookup map holds the key given, and it is
/// (a copy of) the record stored under that key.
#[verifier::external_body]
pub(crate) fn bib_get(b: &Bibliography, key: &str) -> (r: Option<BibRecord>)
    ensures
        (r is Some) == bib_keys(*b).contains(key@),
        r matches Some(rec) ==> rec == bib_records(*b)[key@],
{
    b.get(key).cloned()
}

} // verus!
