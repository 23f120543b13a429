//! Reading pages of the serial's site: the table-of-contents anchors and
//! each chapter's body.
//!
//! The HTML itself is read through the `scraper` crate behind trusted
//! wrappers; what each page yields is a function of its text alone and is
//! given a name here. Everything built from those results — link
//! resolution, title fixing, paragraph assembly — is verified.

use vstd::prelude::*;
use crate::chapter::{normalize_link, Chapter, FetchOutcome};
use crate::emails::{fix_emails, fix_emails_spec};
use crate::text::{chars_have_prefix, chars_to_string, has_prefix, has_suffix, str_to_chars};

verus! {

/// The first text node of the first `.entry-title` element of a page,
/// when both exist.
pub uninterp spec fn entry_title_text_of(html: Seq<char>) -> Option<Seq<char>>;

/// The serialized HTML of every `p` element under the first
/// `.entry-content` element of a page, in document order; `None` when no
/// `.entry-content` exists.
pub uninterp spec fn entry_content_paragraphs_of(html: Seq<char>) -> Option<Seq<Seq<char>>>;

/// The text and `href` attribute of every `a` element under the first
/// `.entry-content` element of a page, in document order; `None` when no
/// `.entry-content` exists.
pub uninterp spec fn entry_content_anchors_of(html: Seq<char>) -> Option<
    Seq<(Seq<char>, Option<Seq<char>>)>,
>;

/// The view of an optional owned string.
pub open spec fn opt_str_view(r: Option<String>) -> Option<Seq<char>> {
    match r {
        Option::Some(s) => Option::Some(s@),
        Option::None => Option::None,
    }
}

/// The view of an optional vector of owned strings.
pub open spec fn opt_strs_view(r: Option<Vec<String>>) -> Option<Seq<Seq<char>>> {
    match r {
        Option::Some(v) => Option::Some(v@.map_values(|s: String| s@)),
        Option::None => Option::None,
    }
}

/// The view of a scraped anchor list.
pub open spec fn anchors_view(v: Seq<(String, Option<String>)>) -> Seq<
    (Seq<char>, Option<Seq<char>>),
> {
    v.map_values(|a: (String, Option<String>)| (a.0@, opt_str_view(a.1)))
}

/// Relies on scraper's `Html::parse_document`, `Selector::parse` and
/// `ElementRef::text`: yields the first text node of the page's first
/// `.entry-title` element, a function of the page text alone.
#[verifier::external_body]
fn scrape_entry_title(html: &str) -> (r: Option<String>)
    ensures
        opt_str_view(r) == entry_title_text_of(html@),
{
    let doc = scraper::Html::parse_document(html);
    let sel = scraper::Selector::parse(".entry-title").unwrap();
    doc.select(&sel).next().and_then(|e| e.text().next().map(|t| t.to_string()))
}

/// Relies on scraper's `Html::parse_document`, `Selector::parse` and
/// `ElementRef::html`: yields the serialized `p` elements under the
/// page's first `.entry-content`, a function of the page text alone.
#[verifier::external_body]
fn scrape_paragraphs(html: &str) -> (r: Option<Vec<String>>)
    ensures
        opt_strs_view(r) == entry_content_paragraphs_of(html@),
{
    let doc = scraper::Html::parse_document(html);
    let sel_c = scraper::Selector::parse(".entry-content").unwrap();
    let sel_p = scraper::Selector::parse("p").unwrap();
    doc.select(&sel_c).next().map(|ec| ec.select(&sel_p).map(|e| e.html()).collect())
}

/// Relies on scraper's `Html::parse_document`, `Selector::parse`,
/// `ElementRef::text` and `ElementRef::attr`: yields the text and `href`
/// of the `a` elements under the page's first `.entry-content`, a
/// function of the page text alone.
#[verifier::external_body]
fn scrape_anchors(html: &str) -> (r: Option<Vec<(String, Option<String>)>>)
    ensures
        match r {
            Option::Some(v) => entry_content_anchors_of(html@) == Option::Some(anchors_view(v@)),
            Option::None => entry_content_anchors_of(html@) is None,
        },
{
    let doc = scraper::Html::parse_document(html);
    let sel_c = scraper::Selector::parse(".entry-content").unwrap();
    let sel_a = scraper::Selector::parse("a").unwrap();
    doc.select(&sel_c).next().map(
        |ec| ec.select(&sel_a).map(
            |a| (a.text().collect::<String>(), a.attr("href").map(|h| h.to_string())),
        ).collect(),
    )
}

/// The link a chapter gets from a TOC `href`: a site-root-relative path
/// is put under the root, and the result is normalized as
/// [`Chapter::new`] does.
pub open spec fn resolved_link(root: Seq<char>, href: Seq<char>) -> Seq<char> {
    normalize_link(
        if has_prefix(href, "/"@) {
            root + href
        } else {
            href
        },
    )
}

/// The `(title, link)` pairs the TOC anchors produce, in document order;
/// anchors without an `href` are skipped.
pub open spec fn toc_entries(
    root: Seq<char>,
    anchors: Seq<(Seq<char>, Option<Seq<char>>)>,
) -> Seq<(Seq<char>, Seq<char>)>
    decreases anchors.len(),
{
    if anchors.len() == 0 {
        Seq::empty()
    } else {
        toc_entries(root, anchors.drop_last()) + (match anchors.last().1 {
            Option::Some(h) => seq![(anchors.last().0, resolved_link(root, h))],
            Option::None => Seq::empty(),
        })
    }
}

/// The chapters stand for the entries: same order, same titles, same
/// links, content still empty.
pub open spec fn chapters_match(cs: Seq<Chapter>, entries: Seq<(Seq<char>, Seq<char>)>) -> bool {
    &&& cs.len() == entries.len()
    &&& forall|k: int|
        0 <= k < cs.len() ==> cs[k].name@ == entries[k].0 && cs[k].link@ == entries[k].1
            && cs[k].content@ == Seq::<char>::empty()
}

/// Builds the ordered chapter list of a table-of-contents page, or
/// `None` when the page has no `.entry-content` element (the fatal
/// "TOC missing" case).
pub fn chapters_from_toc(root: &str, html: &str) -> (r: Option<Vec<Chapter>>)
    ensures
        match entry_content_anchors_of(html@) {
            Option::Some(anchors) => r matches Some(cs) && chapters_match(
                cs@,
                toc_entries(root@, anchors),
            ),
            Option::None => r is None,
        },
{
    let anchors = match scrape_anchors(html) {
        Option::Some(v) => v,
        Option::None => {
            return None;
        },
    };
    let slash = str_to_chars("/");
    let mut cs: Vec<Chapter> = Vec::new();
    let mut k: usize = 0;
    proof {
        assert(anchors_view(anchors@.subrange(0, 0)) =~= anchors_view(anchors@).subrange(0, 0));
    }
    while k < anchors.len()
        invariant
            k <= anchors@.len(),
            slash@ == "/"@,
            chapters_match(
                cs@,
                toc_entries(root@, anchors_view(anchors@).subrange(0, k as int)),
            ),
        decreases anchors@.len() - k,
    {
        let ghost prev = anchors_view(anchors@).subrange(0, k as int);
        let ghost cur = anchors_view(anchors@).subrange(0, k as int + 1);
        proof {
            assert(cur.drop_last() =~= prev);
            assert(cur.last() == anchors_view(anchors@)[k as int]);
        }
        match &anchors[k].1 {
            Option::Some(h) => {
                let hchars = str_to_chars(h.as_str());
                let link = if chars_have_prefix(&hchars, &slash) {
                    String::from_str(root).concat(h.as_str())
                } else {
                    h.clone()
                };
                let name = anchors[k].0.clone();
                cs.push(Chapter::new(name, link));
            },
            Option::None => {},
        }
        k = k + 1;
        proof {
            assert(chapters_match(cs@, toc_entries(root@, cur)));
        }
    }
    proof {
        assert(anchors_view(anchors@).subrange(0, anchors@.len() as int) =~= anchors_view(
            anchors@,
        ));
    }
    Some(cs)
}

/// A title as the extractor fixes it: every EN-DASH becomes an ASCII `-`.
pub open spec fn dash_fix(t: Seq<char>) -> Seq<char> {
    t.map_values(
        |c: char|
            if c == '\u{2013}' {
                '-'
            } else {
                c
            },
    )
}

/// Computes [`dash_fix`].
fn dash_fix_exec(t: &Vec<char>) -> (r: Vec<char>)
    ensures
        r@ == dash_fix(t@),
{
    let mut r: Vec<char> = Vec::new();
    let mut i: usize = 0;
    while i < t.len()
        invariant
            i <= t@.len(),
            r@.len() == i,
            forall|k: int| 0 <= k < i ==> r@[k] == dash_fix(t@)[k],
        decreases t@.len() - i,
    {
        let c = t[i];
        if c == '\u{2013}' {
            r.push('-');
        } else {
            r.push(c);
        }
        i = i + 1;
    }
    proof {
        assert(r@ =~= dash_fix(t@));
    }
    r
}

/// The title a chapter ends up with: the page's own `.entry-title` text
/// with dashes fixed, or the TOC-supplied name when the page has none.
pub open spec fn fixed_title(toc_name: Seq<char>, html: Seq<char>) -> Seq<char> {
    match entry_title_text_of(html) {
        Option::Some(t) => dash_fix(t),
        Option::None => toc_name,
    }
}

/// The concatenation of a sequence of strings, in order, with nothing
/// between them.
pub open spec fn joined(ps: Seq<Seq<char>>) -> Seq<char>
    decreases ps.len(),
{
    if ps.len() == 0 {
        Seq::empty()
    } else {
        joined(ps.drop_last()) + ps.last()
    }
}

/// The paragraphs that make a chapter's body: all but the first and the
/// last, which carry the site's previous/next navigation links.
pub open spec fn inner_paragraphs(ps: Seq<Seq<char>>) -> Seq<Seq<char>> {
    if ps.len() >= 2 {
        ps.subrange(1, ps.len() - 1)
    } else {
        Seq::empty()
    }
}

/// The separator every populated chapter ends with.
pub open spec fn butterfly_seq() -> Seq<char> {
    "<br /><hr /><br /><h1><center>\u{1F98B}</center></h1>"@
}

/// A populated chapter's content: heading, rewritten body, separator.
pub open spec fn chapter_body(title: Seq<char>, ps: Seq<Seq<char>>) -> Seq<char> {
    "<h1>"@ + title + "</h1>"@ + fix_emails_spec(joined(inner_paragraphs(ps))) + butterfly_seq()
}

/// The content a chapter carries when its page had no `.entry-content`.
pub open spec fn missing_note(title: Seq<char>, link: Seq<char>) -> Seq<char> {
    "Could not retrieve chapter "@ + title + " from: "@ + link + "."@
}

/// Joins all but the first and the last of the given strings.
fn join_inner(ps: &Vec<String>) -> (r: String)
    ensures
        r@ == joined(inner_paragraphs(ps@.map_values(|s: String| s@))),
{
    let ghost views = ps@.map_values(|s: String| s@);
    if ps.len() < 2 {
        proof {
            assert(joined(inner_paragraphs(views)) =~= Seq::<char>::empty());
        }
        return String::new();
    }
    let mut acc = String::new();
    let mut k: usize = 1;
    proof {
        assert(views.subrange(1, 1) =~= Seq::<Seq<char>>::empty());
    }
    while k < ps.len() - 1
        invariant
            1 <= k <= ps@.len() - 1,
            views == ps@.map_values(|s: String| s@),
            acc@ == joined(views.subrange(1, k as int)),
        decreases ps@.len() - k,
    {
        let ghost prev = views.subrange(1, k as int);
        let ghost cur = views.subrange(1, k as int + 1);
        proof {
            assert(cur.drop_last() =~= prev);
            assert(cur.last() == views[k as int]);
        }
        acc.append(ps[k].as_str());
        k = k + 1;
    }
    proof {
        assert(views.subrange(1, ps@.len() - 1) =~= inner_paragraphs(views));
    }
    acc
}

/// Populates a chapter from its page text.
///
/// The title is taken from the page's `.entry-title` when one exists,
/// with EN-DASHes made ASCII; otherwise the TOC-supplied name stays. A
/// page without `.entry-content` is a soft failure: the chapter comes
/// back as `Missing`, its content a human-readable note. Otherwise the
/// body is the serialized inner paragraphs, e-mail anchors decoded,
/// between a heading and the closing separator.
pub fn build_chapter(chapter: Chapter, html: &str) -> (r: FetchOutcome)
    ensures
        ({
            let title = fixed_title(chapter.name@, html@);
            match entry_content_paragraphs_of(html@) {
                Option::None => r matches FetchOutcome::Missing(c) && c.name@ == title && c.link@
                    == chapter.link@ && c.content@ == missing_note(title, chapter.link@),
                Option::Some(ps) => r matches FetchOutcome::Loaded(c) && c.name@ == title && c.link@
                    == chapter.link@ && c.content@ == chapter_body(title, ps),
            }
        }),
{
    let title: String = match scrape_entry_title(html) {
        Option::Some(t) => {
            let tc = str_to_chars(t.as_str());
            let fixed = dash_fix_exec(&tc);
            chars_to_string(&fixed)
        },
        Option::None => chapter.name,
    };
    match scrape_paragraphs(html) {
        Option::None => {
            let content = String::from_str("Could not retrieve chapter ").concat(
                title.as_str(),
            ).concat(" from: ").concat(chapter.link.as_str()).concat(".");
            FetchOutcome::Missing(Chapter { name: title, link: chapter.link, content })
        },
        Option::Some(ps) => {
            let inner = join_inner(&ps);
            let fixed = fix_emails(inner);
            let content = String::from_str("<h1>").concat(title.as_str()).concat("</h1>").concat(
                fixed.as_str(),
            ).concat("<br /><hr /><br /><h1><center>\u{1F98B}</center></h1>");
            FetchOutcome::Loaded(Chapter { name: title, link: chapter.link, content })
        },
    }
}

/// Shape of every populated chapter's content: it opens with the heading
/// that carries its title, and closes with the separator.
pub proof fn lemma_content_shape(title: Seq<char>, ps: Seq<Seq<char>>)
    ensures
        has_prefix(chapter_body(title, ps), "<h1>"@ + title + "</h1>"@),
        has_suffix(chapter_body(title, ps), butterfly_seq()),
{
    let body = chapter_body(title, ps);
    let front = "<h1>"@ + title + "</h1>"@;
    assert(body.subrange(0, front.len() as int) =~= front);
    assert(body.subrange(body.len() - butterfly_seq().len(), body.len() as int) =~= butterfly_seq());
}

/// URL normalization: a resolved TOC link names exactly one of the two
/// schemes, provided the site root names one and no anchor smuggles in an
/// `http`-headed link without a scheme separator.
pub proof fn lemma_url_scheme(root: Seq<char>, href: Seq<char>)
    requires
        has_prefix(root, "http://"@) || has_prefix(root, "https://"@),
        has_prefix(href, "http"@) ==> has_prefix(href, "http://"@) || has_prefix(
            href,
            "https://"@,
        ),
    ensures
        has_prefix(resolved_link(root, href), "http://"@) != has_prefix(
            resolved_link(root, href),
            "https://"@,
        ),
{
    reveal_strlit("http");
    reveal_strlit("http://");
    reveal_strlit("https://");
    reveal_strlit("/");
    let r = resolved_link(root, href);
    assert(!(has_prefix(r, "http://"@) && has_prefix(r, "https://"@))) by {
        if has_prefix(r, "http://"@) && has_prefix(r, "https://"@) {
            assert(r[4] == "http://"@[4] && r[4] == "https://"@[4]);
        }
    }
    if has_prefix(href, "/"@) {
        let joined_link = root + href;
        assert(has_prefix(joined_link, "http://"@) || has_prefix(joined_link, "https://"@)) by {
            if has_prefix(root, "http://"@) {
                assert(joined_link.subrange(0, 7) =~= root.subrange(0, 7));
            } else {
                assert(joined_link.subrange(0, 8) =~= root.subrange(0, 8));
            }
        }
        assert(has_prefix(joined_link, "http"@)) by {
            if has_prefix(root, "http://"@) {
                let pr = root.subrange(0, 7);
                assert(forall|k: int| 0 <= k < 4 ==> joined_link[k] == #[trigger] pr[k]);
                assert(joined_link.subrange(0, 4) =~= "http"@);
            } else {
                let pr = root.subrange(0, 8);
                assert(forall|k: int| 0 <= k < 4 ==> joined_link[k] == #[trigger] pr[k]);
                assert(joined_link.subrange(0, 4) =~= "http"@);
            }
        }
        assert(r == joined_link);
    } else if has_prefix(href, "http"@) {
        assert(r == href);
    } else {
        assert(r == "https://"@ + href);
        assert(has_prefix(r, "https://"@)) by {
            assert(r.subrange(0, 8) =~= "https://"@);
        }
    }
}

} // verus!
