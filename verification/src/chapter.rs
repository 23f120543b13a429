//! The one in-memory entity of the pipeline: a chapter, created from a
//! table-of-contents anchor and later populated with its extracted body.

use vstd::prelude::*;
use crate::text::{chars_have_prefix, has_prefix, str_to_chars};

verus! {

/// One web post, rendered as one EPUB content document.
///
/// `link` always carries a scheme once built by [`Chapter::new`];
/// `content` stays empty until the extractor populates it.
pub struct Chapter {
    pub name: String,
    pub link: String,
    pub content: String,
}

/// What a link becomes when a chapter is created from it: kept when it
/// already names an `http` scheme, prefixed with `https://` otherwise.
pub open spec fn normalize_link(l: Seq<char>) -> Seq<char> {
    if has_prefix(l, "http"@) {
        l
    } else {
        "https://"@ + l
    }
}

impl Chapter {
    /// Creates a chapter with empty content and a normalized link.
    pub fn new(name: String, link: String) -> (r: Chapter)
        ensures
            r.name@ == name@,
            r.content@ == Seq::<char>::empty(),
            r.link@ == normalize_link(link@),
    {
        let http = str_to_chars("http");
        let lchars = str_to_chars(link.as_str());
        let link = if !chars_have_prefix(&lchars, &http) {
            String::from_str("https://").concat(link.as_str())
        } else {
            link
        };
        Chapter { name, link, content: String::new() }
    }
}

/// What one chapter fetch came to.
///
/// `Loaded` carries a populated chapter; `Missing` a chapter whose page
/// had no `.entry-content`, carried forward with a note as its content (a
/// soft failure, still part of the book); `Failed` only the link of a
/// chapter whose page could not be fetched at all (omitted from the book).
pub enum FetchOutcome {
    Loaded(Chapter),
    Missing(Chapter),
    Failed(String),
}

} // verus!
