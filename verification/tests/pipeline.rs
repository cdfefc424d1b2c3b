//! Tests of the document pipeline: classification, parsing, assembly, and
//! the site snapshot.

use aoike::classify::SourceFile;
use aoike::frontmatter::extract_frontmatter;
use aoike::post::{Entity, MarkdownPostParser, ParseError, Post, TypstPostParser};
use aoike::site::{assemble_site, PostData};

fn entity(path: &str, created: i64, updated: i64, content: &str) -> Entity {
    Entity { path: path.to_string(), created, updated, content: content.as_bytes().to_vec() }
}

fn post_data(slug: &str, created: i64) -> PostData {
    PostData {
        title: slug.to_string(),
        slug: slug.to_string(),
        summary_html: String::new(),
        content_html: String::new(),
        created,
        updated: created,
    }
}

/// Counts non-whitespace characters outside `<...>` constructs.
fn visible_chars(s: &str) -> usize {
    let mut count = 0;
    let mut in_tag = false;
    for c in s.chars() {
        if in_tag {
            if c == '>' {
                in_tag = false;
            }
        } else if c == '<' {
            in_tag = true;
        } else if !c.is_whitespace() {
            count += 1;
        }
    }
    count
}

#[test]
fn classifier_by_extension() {
    assert!(matches!(SourceFile::from("a/b.md".to_string()), SourceFile::MarkdownFile(p) if p == "a/b.md"));
    assert!(matches!(SourceFile::from("a/b.typ".to_string()), SourceFile::TypstFile(_)));
    assert!(matches!(SourceFile::from("a/b.png".to_string()), SourceFile::OtherFile(_)));
    assert!(matches!(SourceFile::from("noext".to_string()), SourceFile::OtherFile(_)));
    assert!(matches!(SourceFile::from(".gitignore".to_string()), SourceFile::OtherFile(_)));
    // case-sensitive match on the exact extension
    assert!(matches!(SourceFile::from("a/b.MD".to_string()), SourceFile::OtherFile(_)));
}

#[test]
fn entity_name_helpers() {
    let e = entity("docs/posts/test copy.md", 0, 0, "");
    assert_eq!(e.extension(), "md");
    assert_eq!(e.base_name(), "test copy");
    assert_eq!(e.slug(), "test-copy");
}

#[test]
fn frontmatter_extracted_and_discardable() {
    let (fm, rest) = extract_frontmatter("---\ntitle: x\n---\nbody".to_string());
    assert_eq!(fm, Some("title: x\n".to_string()));
    assert_eq!(rest, "body");
}

#[test]
fn frontmatter_absent() {
    let (fm, rest) = extract_frontmatter("no block".to_string());
    assert_eq!(fm, None);
    assert_eq!(rest, "no block");

    let (fm2, rest2) = extract_frontmatter("---\nnever closed".to_string());
    assert_eq!(fm2, None);
    assert_eq!(rest2, "---\nnever closed");
}

#[test]
fn markdown_end_to_end_scenario() {
    // end-to-end: a Markdown document with more than 200 visible characters
    let mut text = String::from("# Title\n\n");
    for _ in 0..30 {
        text.push_str("Some text repeated many times. ");
    }
    let e = entity("posts/sample.md", 7, 9, &text);
    let post = MarkdownPostParser::try_parse(e).unwrap();
    assert_eq!(post.title, "Title");
    assert!(!post.content_html.contains("<h1"));
    assert!(post.content_html.contains("Some text repeated"));
    let summary = &post.summary_html;
    assert!(summary.contains("..."));
    assert!(!summary.contains("<h1"));
    assert_eq!(visible_chars(summary), 200 + 3);
    assert_eq!(post.entity.created, 7);
    assert_eq!(post.entity.updated, 9);
}

#[test]
fn markdown_crlf_front_matter_is_stripped() {
    let text = "---\r\ntitle: x\r\n---\r\n# T\r\n\r\nbody text\r\n";
    let e = entity("posts/crlf.md", 0, 0, text);
    let post = MarkdownPostParser::try_parse(e).unwrap();
    assert_eq!(post.title, "T");
    assert!(!post.content_html.contains("title: x"));
    assert!(post.content_html.contains("body text"));
}

#[test]
fn markdown_title_falls_back_to_file_stem() {
    let e = entity("posts/no-heading.md", 0, 0, "plain paragraph");
    let post = MarkdownPostParser::try_parse(e).unwrap();
    assert_eq!(post.title, "no-heading");
}

#[test]
fn markdown_invalid_utf8_is_encoding_error() {
    let e = Entity {
        path: "posts/bad.md".to_string(),
        created: 0,
        updated: 0,
        content: vec![0xff, 0xfe, 0x20],
    };
    match MarkdownPostParser::try_parse(e) {
        Err(err) => assert_eq!(err, ParseError::EncodingError),
        Ok(_) => panic!("expected an encoding error"),
    }
}

#[test]
fn markdown_collects_references() {
    let e = entity("posts/img.md", 0, 0, "![x](a.png)\n\n<img src=\"b.png\">\n");
    let post = MarkdownPostParser::try_parse(e).unwrap();
    assert_eq!(post.ref_paths, vec!["a.png".to_string(), "b.png".to_string()]);
}

#[test]
fn markdown_highlights_fenced_code() {
    let text = "# T\n\nintro paragraph\n\n```rs\nfn main() {}\n```\n";
    let e = entity("posts/code.md", 0, 0, text);
    let post = MarkdownPostParser::try_parse(e).unwrap();
    // non-code events pass through unchanged
    assert!(post.content_html.contains("<p>intro paragraph</p>"));
    assert!(post.content_html.contains("<pre style=\"background-color:#"));
    assert!(post.content_html.contains("<span class=\"line\">"));
    assert!(post.content_html.contains("main"));
}

#[test]
fn typst_output_failure_modes() {
    let e = entity("posts/doc.typ", 0, 0, "");
    match TypstPostParser::parse_output(e, false, b"<html><body>x</body></html>".to_vec()) {
        Err(err) => assert_eq!(err, ParseError::ExternalToolError),
        Ok(_) => panic!("expected a tool error"),
    }
    let e = entity("posts/doc.typ", 0, 0, "");
    match TypstPostParser::parse_output(e, true, vec![0xff, 0xfe]) {
        Err(err) => assert_eq!(err, ParseError::ExternalToolError),
        Ok(_) => panic!("expected a tool error"),
    }
    let e = entity("posts/doc.typ", 0, 0, "");
    match TypstPostParser::parse_output(e, true, b"<html>no body region</html>".to_vec()) {
        Err(err) => assert_eq!(err, ParseError::MalformedOutputError),
        Ok(_) => panic!("expected malformed output"),
    }
}

#[test]
fn typst_body_becomes_content() {
    let e = entity("posts/doc.typ", 3, 4, "");
    let out = b"<html><body><h1>T</h1><p>hello</p></body></html>".to_vec();
    let post = TypstPostParser::parse_output(e, true, out).unwrap();
    assert_eq!(post.content_html, "<p>hello</p>");
    // the body's heading was stripped, so the title falls back to the stem
    assert_eq!(post.title, "doc");
}

#[test]
fn post_from_html_entity_derives_fields() {
    let e = entity("posts/x.md", 1, 2, "");
    let p = Post::from_html_entity("<h1>Head</h1><p>tail</p>".to_string(), e);
    assert_eq!(p.title, "Head");
    assert_eq!(p.content_html, "<p>tail</p>");
    assert_eq!(p.summary_html, "<p>tail</p>");
    let d = p.to_data();
    assert_eq!(d.slug, "x");
    assert_eq!(d.created, 1);
    assert_eq!(d.updated, 2);
}

#[test]
fn site_sorts_newest_first() {
    // creation instants [3, 1, 2] come out as [3, 2, 1]
    let posts = vec![post_data("a", 3), post_data("b", 1), post_data("c", 2)];
    let site = assemble_site(post_data("index", 0), posts);
    let created: Vec<i64> = site.posts.iter().map(|p| p.created).collect();
    assert_eq!(created, vec![3, 2, 1]);
    assert_eq!(site.index.slug, "index");
}

#[test]
fn site_sort_is_stable() {
    // equal-instant posts retain their relative input order
    let posts = vec![
        post_data("first", 5),
        post_data("second", 5),
        post_data("older", 1),
        post_data("third", 5),
    ];
    let site = assemble_site(post_data("index", 0), posts);
    let slugs: Vec<&str> = site.posts.iter().map(|p| p.slug.as_str()).collect();
    assert_eq!(slugs, vec!["first", "second", "third", "older"]);
}

#[test]
fn site_of_no_posts() {
    let site = assemble_site(post_data("index", 0), Vec::new());
    assert!(site.posts.is_empty());
}

#[test]
fn default_post_data_is_epoch() {
    let d = PostData::default();
    assert_eq!(d.created, 0);
    assert_eq!(d.updated, 0);
    assert_eq!(d.title, "");
}
