//! A catalog for references to files a user owns (books, articles, and
//! similar documents).
//!
//! The catalog stores [`entry::Entry`] values — one per cataloged file,
//! identified by its resolved filesystem location — on a [`shelf::Shelf`],
//! an insertion-ordered, duplicate-free collection that also maintains an
//! index of every [`tag::Tag`] ever seen on an entry.  The shelf can be
//! serialized to and restored from a binary blob; callers decide where the
//! blob lives and perform all filesystem work themselves.

pub mod bib;

pub mod bibscan;

pub mod codec;

pub mod entry;

mod index;

pub mod nav;

pub mod tag;

pub mod shelf;
