//! Markdown rendering with syntax-colored code blocks.
//!
//! The Markdown text is parsed into a stream of structural events.  Fenced
//! code blocks are buffered and re-emitted as one highlighted HTML block
//! each — a `<pre>` with the theme's background color inlined and one
//! `<span class="line">` per source line — and every other event passes
//! through unmodified and in original order.  The rewrite decisions and the
//! block markup are verified here; parsing, the per-line coloring and the
//! final emission of the rewritten stream are calls into outside crates,
//! each pinned to a named result so that the whole rendering is a stated
//! function of the text.

use vstd::prelude::*;
use vstd::string::StringExecFns;
use pulldown_cmark::{CodeBlockKind, CowStr, Event, Options, Tag, TagEnd};
use crate::chars::{str_to_chars, chars_to_string, str_views, push_range, push_hex2, hex2};

verus! {

/// What the highlighter needs to know about one Markdown event.
pub enum CodeEventKind {
    /// Start of a fenced code block, with its language tag.
    CodeStart(String),
    /// End of a code block.
    CodeEnd,
    /// A text node.
    Text(String),
    /// Any other event.
    Other,
}

/// One piece of the rewritten stream: an original event kept by index, or a
/// highlighted HTML block replacing one fenced code region.
pub enum StreamPiece {
    Keep(usize),
    Highlighted(String),
}

/// Ghost model of an event kind.
pub enum KindModel {
    CodeStart(Seq<char>),
    CodeEnd,
    Text(Seq<char>),
    Other,
}

/// Ghost model of a stream piece.
pub enum PieceModel {
    Keep(int),
    Html(Seq<char>),
}

pub open spec fn kind_model(k: CodeEventKind) -> KindModel {
    match k {
        CodeEventKind::CodeStart(l) => KindModel::CodeStart(l@),
        CodeEventKind::CodeEnd => KindModel::CodeEnd,
        CodeEventKind::Text(t) => KindModel::Text(t@),
        CodeEventKind::Other => KindModel::Other,
    }
}

pub open spec fn kind_models(ks: Seq<CodeEventKind>) -> Seq<KindModel> {
    ks.map_values(|k: CodeEventKind| kind_model(k))
}

pub open spec fn piece_model(p: StreamPiece) -> PieceModel {
    match p {
        StreamPiece::Keep(i) => PieceModel::Keep(i as int),
        StreamPiece::Highlighted(s) => PieceModel::Html(s@),
    }
}

pub open spec fn piece_models(ps: Seq<StreamPiece>) -> Seq<PieceModel> {
    ps.map_values(|p: StreamPiece| piece_model(p))
}

/// The color theme every code block is highlighted against.
pub open spec fn theme_key() -> Seq<char> {
    "base16-ocean.light"@
}

/// The background color of a named embedded theme, as a function of the
/// theme's name alone.
pub uninterp spec fn theme_background_of(theme: Seq<char>) -> (u8, u8, u8);

/// The styled HTML of line `i` of a code block, as a function of the fence's
/// language tag and the block's lines alone (the highlighter carries state
/// from line to line, so every earlier line is a parameter too).
pub uninterp spec fn highlighted_line(lang: Seq<char>, lines: Seq<Seq<char>>, i: int) -> Seq<char>;

/// A code block's lines, each keeping its line feed; a last line without one
/// is kept too, and an empty block has no lines.
pub open spec fn split_lines_rec(s: Seq<char>) -> Seq<Seq<char>>
    decreases s.len(),
    via split_lines_rec_decreases
{
    if s.len() == 0 {
        Seq::empty()
    } else {
        let e = crate::chars::find_nl(s);
        if e < s.len() {
            seq![s.take(e + 1)] + split_lines_rec(s.skip(e + 1))
        } else {
            seq![s]
        }
    }
}

#[via_fn]
proof fn split_lines_rec_decreases(s: Seq<char>) {
    crate::chars::lemma_find_nl_bounds(s);
}

/// The opening of a highlighted block: a `<pre>` carrying the theme's
/// background color and the fence's language tag.
pub open spec fn pre_open(lang: Seq<char>, bg: (u8, u8, u8)) -> Seq<char> {
    "<pre style=\"background-color:#"@ + hex2(bg.0) + hex2(bg.1) + hex2(bg.2)
        + ";\" class=\"language_"@ + lang + "\">\n"@
}

/// One `<span class="line">` per source line, holding its styled HTML.
pub open spec fn spans_of(lang: Seq<char>, lines: Seq<Seq<char>>, i: int) -> Seq<char>
    decreases lines.len() - i,
{
    if i < 0 || i >= lines.len() {
        Seq::empty()
    } else {
        "<span class=\"line\">"@ + highlighted_line(lang, lines, i) + "</span>"@ + spans_of(
            lang,
            lines,
            i + 1,
        )
    }
}

/// The whole replacement markup of one fenced code block.
pub open spec fn code_block_markup(lang: Seq<char>, code: Seq<char>, bg: (u8, u8, u8)) -> Seq<
    char,
> {
    pre_open(lang, bg) + spans_of(lang, split_lines_rec(code), 0) + "</pre>\n"@
}

/// The kinds of the text's structural events, as a function of the text
/// alone.
pub uninterp spec fn md_kinds_of(text: Seq<char>) -> Seq<KindModel>;

/// The HTML that the renderer emits for the text's event stream with a
/// rewrite plan replayed over it, as a function of the text and the plan
/// alone.
pub uninterp spec fn md_emit_of(text: Seq<char>, plan: Seq<PieceModel>) -> Seq<char>;

/// The rendered HTML of a Markdown text: the emission of its event stream
/// with the highlight rewrite plan applied, against the fixed theme.
pub open spec fn markdown_rendering(text: Seq<char>) -> Seq<char> {
    md_emit_of(text, plan_spec(md_kinds_of(text), theme_background_of(theme_key())))
}

/// The rewrite plan: outside a code region every event is kept in order; a
/// fenced start opens a region and records the language; text inside the
/// region is buffered; the region's end emits one highlighted block built
/// from the buffer; a stray code-block end outside any region is kept.
pub open spec fn plan_rec(
    ks: Seq<KindModel>,
    i: int,
    in_code: bool,
    lang: Seq<char>,
    buf: Seq<char>,
    bg: (u8, u8, u8),
) -> Seq<PieceModel>
    decreases ks.len() - i,
{
    if i < 0 || i >= ks.len() {
        Seq::empty()
    } else {
        match ks[i] {
            KindModel::CodeStart(l) => plan_rec(ks, i + 1, true, l, buf, bg),
            KindModel::CodeEnd => if in_code {
                seq![PieceModel::Html(code_block_markup(lang, buf, bg))] + plan_rec(
                    ks,
                    i + 1,
                    false,
                    lang,
                    Seq::empty(),
                    bg,
                )
            } else {
                seq![PieceModel::Keep(i)] + plan_rec(ks, i + 1, false, lang, buf, bg)
            },
            KindModel::Text(t) => if in_code {
                plan_rec(ks, i + 1, true, lang, buf + t, bg)
            } else {
                seq![PieceModel::Keep(i)] + plan_rec(ks, i + 1, false, lang, buf, bg)
            },
            KindModel::Other => seq![PieceModel::Keep(i)] + plan_rec(
                ks,
                i + 1,
                in_code,
                lang,
                buf,
                bg,
            ),
        }
    }
}

/// What `plan_highlight` returns for a sequence of event kinds and a theme
/// background.
pub open spec fn plan_spec(ks: Seq<KindModel>, bg: (u8, u8, u8)) -> Seq<PieceModel> {
    plan_rec(ks, 0, false, Seq::empty(), Seq::empty(), bg)
}

/// Computes the rewrite plan for a stream of event kinds, building one
/// highlighted block per fenced code region.
pub fn plan_highlight(kinds: &Vec<CodeEventKind>, bg: (u8, u8, u8)) -> (plan: Vec<StreamPiece>)
    ensures
        piece_models(plan@) == plan_spec(kind_models(kinds@), bg),
        forall|k: int|
            0 <= k < plan@.len() ==> (#[trigger] plan@[k] matches StreamPiece::Keep(j) ==> j
                < kinds@.len()),
{
    let ghost ks = kind_models(kinds@);
    let n = kinds.len();
    let mut plan: Vec<StreamPiece> = Vec::new();
    let mut in_code = false;
    let mut lang = String::new();
    let mut buf = String::new();
    let mut i: usize = 0;
    proof {
        assert(piece_models(plan@) =~= Seq::<PieceModel>::empty());
        assert(piece_models(plan@) + plan_rec(ks, 0, false, lang@, buf@, bg) =~= plan_spec(ks, bg));
    }
    while i < n
        invariant
            i <= n,
            n == kinds@.len(),
            ks == kind_models(kinds@),
            plan_spec(ks, bg) == piece_models(plan@) + plan_rec(
                ks,
                i as int,
                in_code,
                lang@,
                buf@,
                bg,
            ),
            forall|k: int|
                0 <= k < plan@.len() ==> (#[trigger] plan@[k] matches StreamPiece::Keep(j) ==> j
                    < kinds@.len()),
        decreases n - i,
    {
        let ghost plan0 = piece_models(plan@);
        let ghost in_code0 = in_code;
        let ghost lang0 = lang@;
        let ghost buf0 = buf@;
        proof {
            assert(ks[i as int] == kind_model(kinds@[i as int]));
        }
        match &kinds[i] {
            CodeEventKind::CodeStart(l) => {
                in_code = true;
                lang = clone_string(l);
                proof {
                    assert(plan_rec(ks, i as int, in_code0, lang0, buf0, bg) == plan_rec(
                        ks, i as int + 1, true, lang@, buf@, bg,
                    ));
                }
            },
            CodeEventKind::CodeEnd => {
                if in_code {
                    let block = render_code_block(lang.as_str(), buf.as_str(), bg);
                    plan.push(StreamPiece::Highlighted(block));
                    in_code = false;
                    buf = String::new();
                    proof {
                        assert(piece_models(plan@) =~= plan0 + seq![
                            PieceModel::Html(code_block_markup(lang0, buf0, bg)),
                        ]);
                        assert(plan_rec(ks, i as int, true, lang0, buf0, bg) == seq![
                            PieceModel::Html(code_block_markup(lang0, buf0, bg)),
                        ] + plan_rec(ks, i as int + 1, false, lang0, Seq::empty(), bg));
                        assert(buf@ =~= Seq::<char>::empty());
                    }
                } else {
                    plan.push(StreamPiece::Keep(i));
                    proof {
                        assert(piece_models(plan@) =~= plan0 + seq![PieceModel::Keep(i as int)]);
                    }
                }
            },
            CodeEventKind::Text(t) => {
                if in_code {
                    append_str(&mut buf, t);
                } else {
                    plan.push(StreamPiece::Keep(i));
                    proof {
                        assert(piece_models(plan@) =~= plan0 + seq![PieceModel::Keep(i as int)]);
                    }
                }
            },
            CodeEventKind::Other => {
                plan.push(StreamPiece::Keep(i));
                proof {
                    assert(piece_models(plan@) =~= plan0 + seq![PieceModel::Keep(i as int)]);
                }
            },
        }
        i = i + 1;
        proof {
            assert(plan_spec(ks, bg) =~= piece_models(plan@) + plan_rec(
                ks, i as int, in_code, lang@, buf@, bg,
            ));
        }
    }
    proof {
        assert(plan_rec(ks, n as int, in_code, lang@, buf@, bg) =~= Seq::<PieceModel>::empty());
        assert(piece_models(plan@) + Seq::<PieceModel>::empty() =~= piece_models(plan@));
    }
    plan
}

/// Clones a string.
pub fn clone_string(s: &String) -> (r: String)
    ensures
        r@ == s@,
{
    s.clone()
}

/// Appends a string to a buffer.
fn append_str(buf: &mut String, s: &String)
    ensures
        final(buf)@ == old(buf)@ + s@,
{
    buf.append(s.as_str());
}

/// Splits a code block into its lines, each keeping its line feed.
fn split_lines(code: &str) -> (r: Vec<String>)
    ensures
        str_views(r@) == split_lines_rec(code@),
{
    let cs = str_to_chars(code);
    let n = cs.len();
    let mut out: Vec<String> = Vec::new();
    let mut i: usize = 0;
    proof {
        assert(cs@.skip(0) =~= cs@);
        assert(str_views(out@) =~= Seq::<Seq<char>>::empty());
        assert(str_views(out@) + split_lines_rec(cs@.skip(0)) =~= split_lines_rec(code@));
    }
    while i < n
        invariant
            i <= n,
            n == cs@.len(),
            cs@ == code@,
            split_lines_rec(code@) == str_views(out@) + split_lines_rec(cs@.skip(i as int)),
        decreases n - i,
    {
        let ghost t = cs@.skip(i as int);
        let ghost out0 = str_views(out@);
        let e = crate::bloginfo::line_end(&cs, i);
        let stop = if e < n {
            e + 1
        } else {
            n
        };
        let mut line: Vec<char> = Vec::new();
        push_range(&mut line, &cs, i, stop);
        out.push(chars_to_string(&line));
        proof {
            crate::chars::lemma_find_nl_bounds(t);
            if e < n {
                assert(t.take(e - i + 1) =~= cs@.subrange(i as int, e as int + 1));
                assert(t.skip(e - i + 1) =~= cs@.skip(e as int + 1));
                assert(split_lines_rec(t) == seq![t.take(e - i + 1)] + split_lines_rec(
                    t.skip(e - i + 1),
                ));
            } else {
                assert(t =~= cs@.subrange(i as int, n as int));
                assert(split_lines_rec(t) == seq![t]);
                assert(cs@.skip(n as int) =~= Seq::<char>::empty());
            }
            assert(str_views(out@) =~= out0 + seq![line@]);
        }
        i = stop;
        proof {
            assert(split_lines_rec(code@) =~= str_views(out@) + split_lines_rec(
                cs@.skip(i as int),
            ));
        }
    }
    proof {
        assert(cs@.skip(n as int) =~= Seq::<char>::empty());
        assert(split_lines_rec(code@) =~= str_views(out@));
    }
    out
}

/// Relies on syntect's `ThemeSet::load_defaults` (embedded theme dumps) and
/// the theme's `settings.background` (white when the theme gives none): the
/// background color of the named default theme, a function of the theme's
/// name alone.
#[verifier::external_body]
fn theme_background(theme: &str) -> (r: (u8, u8, u8))
    ensures
        r == theme_background_of(theme@),
{
    let ts = syntect::highlighting::ThemeSet::load_defaults();
    let bg = ts.themes.get(theme).and_then(|t| t.settings.background).unwrap_or(
        syntect::highlighting::Color::WHITE,
    );
    (bg.r, bg.g, bg.b)
}

/// Relies on syntect (`SyntaxSet::load_defaults_newlines`,
/// `find_syntax_by_token` with the plain-text fallback,
/// `HighlightLines::highlight_line`,
/// `append_highlighted_html_for_styled_line` against the fixed default
/// theme): the styled HTML of each of a code block's lines, in order.  The
/// highlighter carries state across lines, so each line's result is a
/// function of the language tag and the lines up to it.
#[verifier::external_body]
fn highlight_lines(lang: &str, lines: &Vec<String>) -> (r: Vec<String>)
    ensures
        r@.len() == lines@.len(),
        forall|i: int|
            0 <= i < r@.len() ==> #[trigger] r@[i]@ == highlighted_line(lang@, str_views(lines@), i),
{
    let ss = syntect::parsing::SyntaxSet::load_defaults_newlines();
    let ts = syntect::highlighting::ThemeSet::load_defaults();
    let theme = &ts.themes["base16-ocean.light"];
    let syntax = ss.find_syntax_by_token(lang).unwrap_or_else(|| ss.find_syntax_plain_text());
    let mut hl = syntect::easy::HighlightLines::new(syntax, theme);
    let bg = theme.settings.background.unwrap_or(syntect::highlighting::Color::WHITE);
    lines.iter().map(|line| {
        let mut out = String::new();
        if let Ok(regions) = hl.highlight_line(line, &ss) {
            let _ = syntect::html::append_highlighted_html_for_styled_line(&regions[..], syntect::html::IncludeBackground::IfDifferent(bg), &mut out);
        }
        out
    }).collect()
}

/// Builds one fenced code block's replacement markup: the `<pre>` opening
/// with the theme's background color and the language tag, one
/// `<span class="line">` per source line holding its styled HTML, and the
/// closing `</pre>`.
fn render_code_block(lang: &str, code: &str, bg: (u8, u8, u8)) -> (r: String)
    ensures
        r@ == code_block_markup(lang@, code@, bg),
{
    let lines = split_lines(code);
    let styled = highlight_lines(lang, &lines);
    let ghost lv = str_views(lines@);
    let mut out: Vec<char> = str_to_chars("<pre style=\"background-color:#");
    push_hex2(&mut out, bg.0);
    push_hex2(&mut out, bg.1);
    push_hex2(&mut out, bg.2);
    let mid = str_to_chars(";\" class=\"language_");
    push_range(&mut out, &mid, 0, mid.len());
    let lc = str_to_chars(lang);
    push_range(&mut out, &lc, 0, lc.len());
    let head_end = str_to_chars("\">\n");
    push_range(&mut out, &head_end, 0, head_end.len());
    proof {
        assert(mid@.subrange(0, mid@.len() as int) =~= mid@);
        assert(lc@.subrange(0, lc@.len() as int) =~= lc@);
        assert(head_end@.subrange(0, head_end@.len() as int) =~= head_end@);
        assert(out@ =~= pre_open(lang@, bg));
    }
    let span_open = str_to_chars("<span class=\"line\">");
    let span_close = str_to_chars("</span>");
    let n = styled.len();
    let mut i: usize = 0;
    while i < n
        invariant
            i <= n,
            n == styled@.len(),
            lv == str_views(lines@),
            forall|k: int|
                0 <= k < styled@.len() ==> #[trigger] styled@[k]@ == highlighted_line(lang@, lv, k),
            span_open@ == "<span class=\"line\">"@,
            span_close@ == "</span>"@,
            out@ + spans_of(lang@, lv, i as int) == pre_open(lang@, bg) + spans_of(lang@, lv, 0),
            n == lv.len(),
        decreases n - i,
    {
        let ghost out0 = out@;
        push_range(&mut out, &span_open, 0, span_open.len());
        let piece = str_to_chars(styled[i].as_str());
        push_range(&mut out, &piece, 0, piece.len());
        push_range(&mut out, &span_close, 0, span_close.len());
        proof {
            assert(span_open@.subrange(0, span_open@.len() as int) =~= span_open@);
            assert(piece@.subrange(0, piece@.len() as int) =~= piece@);
            assert(span_close@.subrange(0, span_close@.len() as int) =~= span_close@);
            assert(piece@ == highlighted_line(lang@, lv, i as int));
            assert(spans_of(lang@, lv, i as int) == "<span class=\"line\">"@ + highlighted_line(
                lang@, lv, i as int,
            ) + "</span>"@ + spans_of(lang@, lv, i as int + 1));
            assert(out@ =~= out0 + ("<span class=\"line\">"@ + highlighted_line(
                lang@, lv, i as int,
            ) + "</span>"@));
            assert(out@ + spans_of(lang@, lv, i as int + 1) =~= out0 + spans_of(
                lang@, lv, i as int,
            ));
        }
        i = i + 1;
    }
    proof {
        assert(spans_of(lang@, lv, n as int) =~= Seq::<char>::empty());
        assert(out@ + Seq::<char>::empty() =~= out@);
        assert(lv == split_lines_rec(code@));
    }
    let tail = str_to_chars("</pre>\n");
    push_range(&mut out, &tail, 0, tail.len());
    proof {
        assert(tail@.subrange(0, tail@.len() as int) =~= tail@);
        assert(out@ =~= code_block_markup(lang@, code@, bg));
    }
    chars_to_string(&out)
}

/// Relies on pulldown-cmark's `Parser::new_ext` with the strikethrough,
/// table, task-list and footnote extensions, and on the `Event` variants:
/// what kind each of the text's structural events is, in document order —
/// a fenced code-block start with its language tag, a code-block end, a text
/// node with its content, or anything else.
#[verifier::external_body]
fn parse_markdown_kinds(text: &str) -> (r: Vec<CodeEventKind>)
    ensures
        kind_models(r@) == md_kinds_of(text@),
{
    let mut options = Options::empty();
    options.insert(Options::ENABLE_STRIKETHROUGH);
    options.insert(Options::ENABLE_TABLES);
    options.insert(Options::ENABLE_TASKLISTS);
    options.insert(Options::ENABLE_FOOTNOTES);
    pulldown_cmark::Parser::new_ext(text, options).map(|e| match e {
        Event::Start(Tag::CodeBlock(CodeBlockKind::Fenced(l))) => CodeEventKind::CodeStart(l.to_string()),
        Event::End(TagEnd::CodeBlock) => CodeEventKind::CodeEnd,
        Event::Text(t) => CodeEventKind::Text(t.to_string()),
        _ => CodeEventKind::Other,
    }).collect()
}

/// Relies on pulldown-cmark's `Parser::new_ext` (the same extensions) and
/// `html::push_html`: parses the text again and renders the stream the plan
/// describes — a kept piece is the event at its index, a highlighted piece
/// one inline-HTML event (`Event::Html` over a `CowStr`) — so the result is
/// a function of the text and the plan alone.
#[verifier::external_body]
fn emit_markdown(text: &str, plan: &Vec<StreamPiece>) -> (r: String)
    ensures
        r@ == md_emit_of(text@, piece_models(plan@)),
{
    let mut options = Options::empty();
    options.insert(Options::ENABLE_STRIKETHROUGH);
    options.insert(Options::ENABLE_TABLES);
    options.insert(Options::ENABLE_TASKLISTS);
    options.insert(Options::ENABLE_FOOTNOTES);
    let events: Vec<Event> = pulldown_cmark::Parser::new_ext(text, options).collect();
    let stream = plan.iter().filter_map(|p| match p {
        StreamPiece::Keep(j) => events.get(*j).cloned(),
        StreamPiece::Highlighted(s) => Some(Event::Html(CowStr::from(s.clone()))),
    });
    let mut out = String::new();
    pulldown_cmark::html::push_html(&mut out, stream);
    out
}

/// Renders Markdown text to an HTML fragment, routing fenced code blocks
/// through the highlighter and keeping every other event in its place.
pub fn render_markdown(text: &str) -> (r: String)
    ensures
        r@ == markdown_rendering(text@),
{
    let kinds = parse_markdown_kinds(text);
    let bg = theme_background("base16-ocean.light");
    let plan = plan_highlight(&kinds, bg);
    emit_markdown(text, &plan)
}

} // verus!
