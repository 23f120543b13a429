use wildbow_epub_gen::assemble::{epub_filename, plan_docs, title_page};
use wildbow_epub_gen::chapter::{Chapter, FetchOutcome};
use wildbow_epub_gen::dates::BookDate;
use wildbow_epub_gen::schedule::order_outcomes;
use wildbow_epub_gen::scrape::{build_chapter, chapters_from_toc};

const BUTTERFLY: &str = "<br /><hr /><br /><h1><center>\u{1F98B}</center></h1>";

fn toc_chapter(name: &str, link: &str) -> Chapter {
    Chapter::new(name.to_string(), link.to_string())
}

#[test]
fn new_chapter_adds_scheme_when_missing() {
    let c = toc_chapter("Ch 1", "www.example.com/one");
    assert_eq!(c.link, "https://www.example.com/one");
    assert_eq!(c.content, "");
}

#[test]
fn new_chapter_keeps_scheme() {
    let c = toc_chapter("Ch 1", "http://example.com/one");
    assert_eq!(c.link, "http://example.com/one");
}

#[test]
fn toc_parse_resolves_anchors() {
    let html = "<div class=\"entry-content\">\
        <a href=\"/x\">Ch 1</a>\
        <a href=\"https://y.example/z\">Ch 2</a>\
        <a href=\"w.example/q\">Ch 3</a>\
        <a>no href</a>\
        </div>";
    let cs = chapters_from_toc("https://root.example", html).unwrap();
    assert_eq!(cs.len(), 3);
    assert_eq!(cs[0].name, "Ch 1");
    assert_eq!(cs[0].link, "https://root.example/x");
    assert_eq!(cs[1].link, "https://y.example/z");
    assert_eq!(cs[2].link, "https://w.example/q");
}

#[test]
fn toc_without_entry_content_is_missing() {
    let html = "<div class=\"content\"><a href=\"/x\">Ch 1</a></div>";
    assert!(chapters_from_toc("https://root.example", html).is_none());
}

#[test]
fn toc_keeps_duplicates_in_order() {
    let html = "<div class=\"entry-content\">\
        <a href=\"/a\">One</a><a href=\"/a\">One</a><a href=\"/b\">Two</a>\
        </div>";
    let cs = chapters_from_toc("https://r.example", html).unwrap();
    let links: Vec<&str> = cs.iter().map(|c| c.link.as_str()).collect();
    assert_eq!(
        links,
        vec!["https://r.example/a", "https://r.example/a", "https://r.example/b"]
    );
}

#[test]
fn chapter_body_is_inner_paragraphs() {
    let html = "<html><body><h1 class=\"entry-title\">Ch 1</h1>\
        <div class=\"entry-content\">\
        <p>nav prev</p><p>one</p><p>two</p><p>nav next</p>\
        </div></body></html>";
    let out = build_chapter(toc_chapter("toc name", "https://s.example/a"), html);
    match out {
        FetchOutcome::Loaded(c) => {
            assert_eq!(c.name, "Ch 1");
            assert_eq!(c.link, "https://s.example/a");
            assert_eq!(
                c.content,
                format!("<h1>Ch 1</h1><p>one</p><p>two</p>{}", BUTTERFLY)
            );
        }
        _ => panic!("expected a loaded chapter"),
    }
}

#[test]
fn chapter_title_en_dash_becomes_ascii() {
    let html = "<h1 class=\"entry-title\">Glow-worm \u{2013} 0.1</h1>\
        <div class=\"entry-content\"><p>a</p><p>body</p><p>z</p></div>";
    let out = build_chapter(toc_chapter("toc name", "https://s.example/a"), html);
    match out {
        FetchOutcome::Loaded(c) => {
            assert_eq!(c.name, "Glow-worm - 0.1");
            assert!(c.content.starts_with("<h1>Glow-worm - 0.1</h1>"));
            assert!(c.content.ends_with(BUTTERFLY));
        }
        _ => panic!("expected a loaded chapter"),
    }
}

#[test]
fn chapter_without_title_keeps_toc_name() {
    let html = "<div class=\"entry-content\"><p>a</p><p>body</p><p>z</p></div>";
    let out = build_chapter(toc_chapter("Ch 2", "https://s.example/b"), html);
    match out {
        FetchOutcome::Loaded(c) => {
            assert_eq!(c.name, "Ch 2");
            assert_eq!(c.content, format!("<h1>Ch 2</h1><p>body</p>{}", BUTTERFLY));
        }
        _ => panic!("expected a loaded chapter"),
    }
}

#[test]
fn missing_entry_content_is_soft_failure() {
    let html = "<html><body><p>not a chapter</p></body></html>";
    let out = build_chapter(toc_chapter("Ch 2", "https://s.example/b"), html);
    match out {
        FetchOutcome::Missing(c) => {
            assert_eq!(
                c.content,
                "Could not retrieve chapter Ch 2 from: https://s.example/b."
            );
            assert_eq!(c.name, "Ch 2");
        }
        _ => panic!("expected a soft failure"),
    }
}

#[test]
fn single_paragraph_yields_empty_body() {
    let html = "<div class=\"entry-content\"><p>only nav</p></div>";
    let out = build_chapter(toc_chapter("Ch 3", "https://s.example/c"), html);
    match out {
        FetchOutcome::Loaded(c) => {
            assert_eq!(c.content, format!("<h1>Ch 3</h1>{}", BUTTERFLY));
        }
        _ => panic!("expected a loaded chapter"),
    }
}

fn loaded(name: &str, link: &str) -> FetchOutcome {
    FetchOutcome::Loaded(Chapter {
        name: name.to_string(),
        link: link.to_string(),
        content: format!("<h1>{}</h1>", name),
    })
}

#[test]
fn order_is_kept_under_any_completion_order() {
    let count: usize = 32;
    let mut done: Vec<(usize, FetchOutcome)> = Vec::new();
    // completions arrive in a scrambled order
    for step in 0..count {
        let i: usize = (step * 13 + 7) % count;
        done.push((i, loaded(&format!("Ch {}", i), &format!("https://s.example/{}", i))));
    }
    let out = order_outcomes(count, &done).unwrap();
    assert_eq!(out.len(), count);
    for (i, o) in out.iter().enumerate() {
        match o {
            FetchOutcome::Loaded(c) => assert_eq!(c.name, format!("Ch {}", i)),
            _ => panic!("expected a loaded chapter"),
        }
    }
}

#[test]
fn missing_completion_gives_none() {
    let done = vec![(0usize, loaded("Ch 0", "https://s.example/0"))];
    assert!(order_outcomes(2, &done).is_none());
}

#[test]
fn failed_chapters_are_skipped_in_the_plan() {
    let outs = vec![
        loaded("Ch 1", "https://s.example/1"),
        FetchOutcome::Failed("https://s.example/2".to_string()),
        FetchOutcome::Missing(Chapter {
            name: "Ch 3".to_string(),
            link: "https://s.example/3".to_string(),
            content: "Could not retrieve chapter Ch 3 from: https://s.example/3.".to_string(),
        }),
    ];
    let docs = plan_docs(&outs);
    assert_eq!(docs.len(), 2);
    assert_eq!(docs[0].file, "Ch_1");
    assert_eq!(docs[0].title, "Ch 1");
    assert_eq!(docs[1].file, "Ch_3");
    assert_eq!(
        docs[1].content,
        "Could not retrieve chapter Ch 3 from: https://s.example/3."
    );
}

#[test]
fn doc_filename_collapses_whitespace_runs() {
    let outs = vec![loaded("  Glow worm\t\n 0.1 ", "https://s.example/1")];
    let docs = plan_docs(&outs);
    assert_eq!(docs[0].file, "_Glow_worm_0.1_");
    assert_eq!(docs[0].title, "Glow worm\t\n 0.1");
}

#[test]
fn filename_is_host_and_short_date() {
    let d = BookDate { year: 2025, month: 1, day: 15 };
    let name = epub_filename("https://www.parahumans.net", &d).unwrap();
    assert_eq!(name, "www.parahumans.net15Jan25.epub");
}

#[test]
fn filename_keeps_padded_day_space() {
    let d = BookDate { year: 2025, month: 1, day: 5 };
    let name = epub_filename("https://parahumans.net", &d).unwrap();
    assert_eq!(name, "parahumans.net 5Jan25.epub");
}

#[test]
fn filename_without_scheme_separator_is_none() {
    let d = BookDate { year: 2025, month: 1, day: 5 };
    assert!(epub_filename("parahumans.net", &d).is_none());
}

#[test]
fn short_and_long_date_formats() {
    let d = BookDate { year: 2031, month: 12, day: 9 };
    assert_eq!(d.format_short(), " 9Dec31");
    assert_eq!(d.format_long(), " 9 December 2031");
    let d2 = BookDate { year: 2004, month: 6, day: 23 };
    assert_eq!(d2.format_short(), "23Jun04");
    assert_eq!(d2.format_long(), "23 June 2004");
}

#[test]
fn title_page_names_site_and_day() {
    let d = BookDate { year: 2025, month: 1, day: 15 };
    let page = title_page("https://www.parahumans.net", &d);
    assert!(page.starts_with(
        "<h1>This file was auto-generated from https://www.parahumans.net on 15 January 2025</h1>"
    ));
    assert!(page.contains("property of Wildbow/J.C. McCrae"));
}
