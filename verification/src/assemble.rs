//! What goes into the EPUB: the output filename, the title page, and one
//! content document per kept chapter. The container writer itself lives
//! outside the library; it receives these plain values.

use vstd::prelude::*;
use crate::chapter::FetchOutcome;
use crate::dates::{long_date, short_date, BookDate};
use crate::scrape::opt_str_view;
use crate::text::{
    chars_to_string, collapse_ws, collapse_ws_chars, str_to_chars, subvec, trim_ws, trim_ws_chars,
};

verus! {

/// The first position at or after `p` where `//` stands, or `-1`.
pub open spec fn find_dslash(s: Seq<char>, p: int) -> int
    recommends
        0 <= p,
    decreases s.len() - p when 0 <= p
{
    if p + 2 > s.len() {
        -1
    } else if s[p] == '/' && s[p + 1] == '/' {
        p
    } else {
        find_dslash(s, p + 1)
    }
}

/// The host part of a link: what stands after the first `//`, up to the
/// next `//` or the end; nothing when the link has no `//`.
pub open spec fn host_of(link: Seq<char>) -> Option<Seq<char>> {
    let q = find_dslash(link, 0);
    if q == -1 {
        Option::None
    } else {
        let q2 = find_dslash(link, q + 2);
        if q2 == -1 {
            Option::Some(link.subrange(q + 2, link.len() as int))
        } else {
            Option::Some(link.subrange(q + 2, q2))
        }
    }
}

/// The name the book is saved under: host, short date, `.epub`.
pub open spec fn epub_filename_spec(link: Seq<char>, d: BookDate) -> Option<Seq<char>> {
    match host_of(link) {
        Option::Some(h) => Option::Some(h + short_date(d) + ".epub"@),
        Option::None => Option::None,
    }
}

/// Computes [`find_dslash`] from `p`.
fn find_dslash_exec(s: &Vec<char>, p: usize) -> (r: Option<usize>)
    requires
        p <= s@.len(),
    ensures
        match r {
            Option::Some(q) => find_dslash(s@, p as int) == q && p <= q && q + 2 <= s@.len(),
            Option::None => find_dslash(s@, p as int) == -1,
        },
{
    let n = s.len();
    let mut q: usize = p;
    while n - q >= 2 && !(s[q] == '/' && s[q + 1] == '/')
        invariant
            p <= q <= n == s@.len(),
            find_dslash(s@, p as int) == find_dslash(s@, q as int),
        decreases n - q,
    {
        q = q + 1;
    }
    if n - q >= 2 {
        Some(q)
    } else {
        None
    }
}

/// Builds the output filename of the book, or `None` when the site link
/// carries no `//` to take a host from.
pub fn epub_filename(link: &str, date: &BookDate) -> (r: Option<String>)
    requires
        date.wf(),
    ensures
        opt_str_view(r) == epub_filename_spec(link@, *date),
{
    let lc = str_to_chars(link);
    let nlc = lc.len();
    let q = match find_dslash_exec(&lc, 0) {
        Option::Some(q) => q,
        Option::None => {
            return None;
        },
    };
    proof {
        assert(q + 2 <= nlc);
    }
    let host = match find_dslash_exec(&lc, q + 2) {
        Option::Some(q2) => subvec(&lc, q + 2, q2),
        Option::None => subvec(&lc, q + 2, lc.len()),
    };
    let name = chars_to_string(&host).concat(date.format_short().as_str()).concat(".epub");
    Some(name)
}

/// The text of the title page: a short disclaimer naming the site and
/// the day the book was made.
pub open spec fn title_page_spec(link: Seq<char>, d: BookDate) -> Seq<char> {
    "<h1>This file was auto-generated from "@ + link + " on "@ + long_date(d)
        + "</h1><p>\n                    The contents of this book are the property of Wildbow/J.C. McCrae.\n                    This book was created for convenient offline reading.\n                    Please refrain from printing, distributing, or selling this file.</p>\n                    <p><em>Be warned: Text may be missing or have errors.</em></p>"@
}

/// Builds the title page.
pub fn title_page(link: &str, date: &BookDate) -> (r: String)
    requires
        date.wf(),
    ensures
        r@ == title_page_spec(link@, *date),
{
    String::from_str("<h1>This file was auto-generated from ").concat(link).concat(" on ").concat(
        date.format_long().as_str(),
    ).concat(
        "</h1><p>\n                    The contents of this book are the property of Wildbow/J.C. McCrae.\n                    This book was created for convenient offline reading.\n                    Please refrain from printing, distributing, or selling this file.</p>\n                    <p><em>Be warned: Text may be missing or have errors.</em></p>",
    )
}

/// One content document of the book: its internal filename, its title
/// entry, and its body.
pub struct DocEntry {
    pub file: String,
    pub title: String,
    pub content: String,
}

/// The documents an outcome sequence yields, in order: every kept
/// chapter under its whitespace-collapsed filename and trimmed title,
/// hard failures skipped.
pub open spec fn doc_triples(outs: Seq<FetchOutcome>) -> Seq<(Seq<char>, Seq<char>, Seq<char>)>
    decreases outs.len(),
{
    if outs.len() == 0 {
        Seq::empty()
    } else {
        doc_triples(outs.drop_last()) + (match outs.last() {
            FetchOutcome::Loaded(c) => seq![(collapse_ws(c.name@), trim_ws(c.name@), c.content@)],
            FetchOutcome::Missing(c) => seq![(collapse_ws(c.name@), trim_ws(c.name@), c.content@)],
            FetchOutcome::Failed(_) => Seq::empty(),
        })
    }
}

/// The entries carry the triples: same order, same fields.
pub open spec fn docs_match(ds: Seq<DocEntry>, ts: Seq<(Seq<char>, Seq<char>, Seq<char>)>) -> bool {
    &&& ds.len() == ts.len()
    &&& forall|k: int|
        0 <= k < ds.len() ==> ds[k].file@ == ts[k].0 && ds[k].title@ == ts[k].1 && ds[k].content@
            == ts[k].2
}

/// Lays out the book's content documents from the fetch outcomes.
pub fn plan_docs(outcomes: &Vec<FetchOutcome>) -> (r: Vec<DocEntry>)
    ensures
        docs_match(r@, doc_triples(outcomes@)),
{
    let mut r: Vec<DocEntry> = Vec::new();
    let mut k: usize = 0;
    proof {
        assert(outcomes@.subrange(0, 0) =~= Seq::<FetchOutcome>::empty());
    }
    while k < outcomes.len()
        invariant
            k <= outcomes@.len(),
            docs_match(r@, doc_triples(outcomes@.subrange(0, k as int))),
        decreases outcomes@.len() - k,
    {
        let ghost prev = outcomes@.subrange(0, k as int);
        let ghost cur = outcomes@.subrange(0, k as int + 1);
        proof {
            assert(cur.drop_last() =~= prev);
            assert(cur.last() == outcomes@[k as int]);
        }
        match &outcomes[k] {
            FetchOutcome::Loaded(c) => {
                let nc = str_to_chars(c.name.as_str());
                let file = chars_to_string(&collapse_ws_chars(&nc));
                let title = chars_to_string(&trim_ws_chars(&nc));
                r.push(DocEntry { file, title, content: c.content.clone() });
            },
            FetchOutcome::Missing(c) => {
                let nc = str_to_chars(c.name.as_str());
                let file = chars_to_string(&collapse_ws_chars(&nc));
                let title = chars_to_string(&trim_ws_chars(&nc));
                r.push(DocEntry { file, title, content: c.content.clone() });
            },
            FetchOutcome::Failed(_) => {},
        }
        k = k + 1;
        proof {
            assert(docs_match(r@, doc_triples(cur)));
        }
    }
    proof {
        assert(outcomes@.subrange(0, outcomes@.len() as int) =~= outcomes@);
    }
    r
}

} // verus!
