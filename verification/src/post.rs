//! Documents and their parsers: a loaded source file (`Entity`) is turned
//! into a fully processed `Post` — title, summary, content, referenced asset
//! paths — by the Markdown parser or by the alternate-format parser working
//! on an external compiler's output.

use vstd::prelude::*;
use crate::chars::str_views;
use crate::classify::{extension_of, base_name_of, base_name, slug_spec, slugify};
use crate::content::{tag_content_spec, get_tag_content};
use crate::frontmatter::{frontmatter_spec, extract_frontmatter, normalize_newlines_spec,
    normalize_newlines};
use crate::highlight::{markdown_rendering, render_markdown};
use crate::refs::{ref_paths_spec, get_ref_paths};
use crate::remove::{remove_spec, remove_html_tag};
use crate::site::PostData;
use crate::summary::{summary_spec, extract_html_summary};
use vstd::utf8::{valid_utf8, decode_utf8};

verus! {

/// A loaded source file: its path, its raw bytes, and the created/updated
/// instants reported by the version-control collaborator (Unix seconds;
/// zero when no history could be determined).
pub struct Entity {
    pub path: String,
    pub created: i64,
    pub updated: i64,
    pub content: Vec<u8>,
}

/// The heading tag stripped from post bodies and used for titles.
pub open spec fn h1_name() -> Seq<char> {
    seq!['h', '1']
}

impl Entity {
    /// The file's extension, or the empty string when it has none.
    pub fn extension(&self) -> (r: String)
        ensures
            extension_of(self.path@) matches Some(e) ==> r@ == e,
            extension_of(self.path@) is None ==> r@ == Seq::<char>::empty(),
    {
        let cs = crate::chars::str_to_chars(self.path.as_str());
        let name_start = crate::classify::after_last(&cs, '/');
        proof {
            crate::classify::lemma_last_index_of(cs@, '/');
        }
        let mut name: Vec<char> = Vec::new();
        crate::chars::push_range(&mut name, &cs, name_start, cs.len());
        proof {
            assert(name@ =~= crate::classify::file_name_of(cs@));
        }
        let d = crate::classify::after_last(&name, '.');
        proof {
            crate::classify::lemma_last_index_of(name@, '.');
        }
        let mut ext: Vec<char> = Vec::new();
        if d >= 2 {
            crate::chars::push_range(&mut ext, &name, d, name.len());
            proof {
                assert(ext@ =~= extension_of(cs@).unwrap());
            }
        }
        proof {
            if d < 2 {
                assert(ext@ =~= Seq::<char>::empty());
            }
        }
        crate::chars::chars_to_string(&ext)
    }

    /// The file name without directory and extension.
    pub fn base_name(&self) -> (r: String)
        ensures
            r@ == base_name_of(self.path@),
    {
        base_name(self.path.as_str())
    }

    /// A URL-safe slug derived from the file name.
    pub fn slug(&self) -> (r: String)
        ensures
            r@ == slug_spec(base_name_of(self.path@)),
    {
        let stem = base_name(self.path.as_str());
        slugify(stem.as_str())
    }
}

/// Why a document could not be turned into a post.
#[derive(Clone, Copy, Debug, PartialEq, Eq, Structural)]
pub enum ParseError {
    /// A file could not be read.
    IoError,
    /// Source text was not valid UTF-8.
    EncodingError,
    /// The external compiler failed or produced unreadable output.
    ExternalToolError,
    /// The compiler's output lacked an expected structural marker.
    MalformedOutputError,
    /// Rendering through the templating collaborator failed.
    TemplateError,
}

/// A fully processed document: the entity it came from, the referenced asset
/// paths of its body, and the derived title, summary and content fragments.
pub struct Post {
    pub entity: Entity,
    pub ref_paths: Vec<String>,
    pub title: String,
    pub summary_html: String,
    pub content_html: String,
}

/// A post's title: the first heading's content of the rendered body, or the
/// file name stem when the body has no heading.
pub open spec fn title_of(body: Seq<char>, path: Seq<char>) -> Seq<char> {
    match tag_content_spec(body, h1_name()) {
        Some(t) => t,
        None => base_name_of(path),
    }
}

/// How every `Post` field is derived from the rendered body it was assembled
/// from: the title comes from the body's first heading (file name stem as
/// fallback), the content is the body with its duplicated heading removed,
/// the summary is the content truncated to the visible-character budget, and
/// the references are the body's `src` values.
pub open spec fn post_assembled(p: Post, body: Seq<char>) -> bool {
    &&& p.title@ == title_of(body, p.entity.path@)
    &&& p.content_html@ == remove_spec(body, seq![h1_name()])
    &&& p.summary_html@ == summary_spec(remove_spec(body, seq![h1_name()]), 200).out
    &&& str_views(p.ref_paths@) == ref_paths_spec(body)
}

/// The visible-character budget of a post summary.
pub const SUMMARY_BUDGET: usize = 200;

impl Post {
    /// Assembles a post from a rendered HTML body and its entity: title from
    /// the body's first heading (file name stem as fallback), content with
    /// the duplicated heading removed, the content truncated to the summary
    /// budget, and references collected from the untruncated body.
    pub fn from_html_entity(content_html: String, entity: Entity) -> (p: Post)
        ensures
            p.entity == entity,
            post_assembled(p, content_html@),
    {
        proof {
            reveal_strlit("h1");
            assert("h1"@ =~= h1_name());
        }
        let title = match get_tag_content(content_html.as_str(), "h1") {
            Some(t) => t,
            None => base_name(entity.path.as_str()),
        };
        let h1tag: String = h1_string();
        let mut tags: Vec<String> = Vec::new();
        tags.push(h1tag);
        proof {
            assert(str_views(tags@) =~= seq![h1_name()]);
        }
        let filtered = remove_html_tag(content_html.as_str(), &tags);
        let summary_html = extract_html_summary(filtered.as_str(), SUMMARY_BUDGET);
        let ref_paths = get_ref_paths(content_html.as_str());
        Post { entity, ref_paths, title, summary_html, content_html: filtered }
    }

    /// The post as renderable data, with its slug and instants.
    pub fn to_data(&self) -> (r: PostData)
        ensures
            r.title@ == self.title@,
            r.slug@ == slug_spec(base_name_of(self.entity.path@)),
            r.summary_html@ == self.summary_html@,
            r.content_html@ == self.content_html@,
            r.created == self.entity.created,
            r.updated == self.entity.updated,
    {
        PostData {
            title: crate::highlight::clone_string(&self.title),
            slug: self.entity.slug(),
            summary_html: crate::highlight::clone_string(&self.summary_html),
            content_html: crate::highlight::clone_string(&self.content_html),
            created: self.entity.created,
            updated: self.entity.updated,
        }
    }
}

/// The string `"h1"`.
fn h1_string() -> (r: String)
    ensures
        r@ == h1_name(),
{
    proof {
        reveal_strlit("h1");
        assert("h1"@ =~= h1_name());
    }
    <String as vstd::string::StringExecFns>::from_str("h1")
}

/// Relies on `std::str::from_utf8` (std): it succeeds exactly on valid UTF-8
/// input and yields its decoding, as specified by vstd's UTF-8 model.
#[verifier::external_body]
fn decode_utf8_bytes(bytes: &Vec<u8>) -> (r: Option<String>)
    ensures
        r is Some <==> valid_utf8(bytes@),
        r matches Some(s) ==> s@ == decode_utf8(bytes@),
{
    std::str::from_utf8(bytes.as_slice()).ok().map(|s| s.to_string())
}

/// The Markdown document parser.
pub struct MarkdownPostParser;

impl MarkdownPostParser {
    /// Parses a Markdown entity: decodes its bytes, normalizes CRLF line
    /// endings, strips an optional front-matter block (whose fields are
    /// currently discarded), renders the remaining Markdown — fenced code
    /// blocks routed through the highlighter — and assembles the post from
    /// that rendering.
    pub fn try_parse(entity: Entity) -> (r: Result<Post, ParseError>)
        ensures
            r is Ok <==> valid_utf8(entity.content@),
            r matches Err(e) ==> e == ParseError::EncodingError,
            r matches Ok(p) ==> p.entity == entity && post_assembled(
                p,
                markdown_rendering(
                    frontmatter_spec(
                        normalize_newlines_spec(decode_utf8(entity.content@)),
                    ).1,
                ),
            ),
            r matches Ok(p) ==> p.summary_html@ == summary_spec(p.content_html@, 200).out
                && remove_spec(p.content_html@, seq![h1_name()]) == p.content_html@,
    {
        let text = match decode_utf8_bytes(&entity.content) {
            Some(t) => t,
            None => {
                return Err(ParseError::EncodingError);
            },
        };
        let normalized = normalize_newlines(text.as_str());
        let (_front_matter, body) = extract_frontmatter(normalized);
        let content_html = render_markdown(body.as_str());
        let p = Post::from_html_entity(content_html, entity);
        proof {
            crate::remove::lemma_remove_idempotent(content_html@, seq![h1_name()]);
        }
        Ok(p)
    }
}

/// The alternate-format (typeset document) parser.  The external compiler
/// runs outside the library; this parser interprets its captured output.
pub struct TypstPostParser;

/// The tag whose region holds the compiled document's body.
pub open spec fn body_name() -> Seq<char> {
    seq!['b', 'o', 'd', 'y']
}

impl TypstPostParser {
    /// Interprets the external compiler's captured result for `entity`:
    /// a failed exit or undecodable output is an external-tool error, output
    /// without a body region is malformed, and otherwise the body region —
    /// headings removed — becomes the post's content.
    pub fn parse_output(entity: Entity, exit_ok: bool, output: Vec<u8>) -> (r: Result<
        Post,
        ParseError,
    >)
        ensures
            !exit_ok ==> (r matches Err(e) && e == ParseError::ExternalToolError),
            exit_ok && !valid_utf8(output@) ==> (r matches Err(e) && e
                == ParseError::ExternalToolError),
            exit_ok && valid_utf8(output@) && tag_content_spec(decode_utf8(output@), body_name())
                is None ==> (r matches Err(e) && e == ParseError::MalformedOutputError),
            exit_ok && valid_utf8(output@) ==> (tag_content_spec(decode_utf8(output@), body_name())
                matches Some(body) ==> (r matches Ok(p) && p.entity == entity && post_assembled(
                p,
                remove_spec(body, seq![h1_name()]),
            ) && p.content_html@ == remove_spec(body, seq![h1_name()]) && p.summary_html@
                == summary_spec(p.content_html@, 200).out)),
    {
        if !exit_ok {
            return Err(ParseError::ExternalToolError);
        }
        let doc = match decode_utf8_bytes(&output) {
            Some(t) => t,
            None => {
                return Err(ParseError::ExternalToolError);
            },
        };
        proof {
            reveal_strlit("body");
            assert("body"@ =~= body_name());
        }
        let body = match get_tag_content(doc.as_str(), "body") {
            Some(b) => b,
            None => {
                return Err(ParseError::MalformedOutputError);
            },
        };
        let h1tag: String = h1_string();
        let mut tags: Vec<String> = Vec::new();
        tags.push(h1tag);
        proof {
            assert(str_views(tags@) =~= seq![h1_name()]);
        }
        let content_html = remove_html_tag(body.as_str(), &tags);
        let p = Post::from_html_entity(content_html, entity);
        proof {
            crate::remove::lemma_remove_idempotent(body@, seq![h1_name()]);
        }
        Ok(p)
    }
}

} // verus!
