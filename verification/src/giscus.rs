//! The comment-widget embed: options for the giscus discussion script and
//! the HTML script element they denote.

use vstd::prelude::*;
use vstd::string::StringExecFns;
use crate::chars::{dec_rep, u64_to_string};

verus! {

/// Where the comment input box sits relative to the thread.
#[derive(Debug, Clone, PartialEq)]
pub enum InputPosition {
    Bottom,
    Top,
}

/// The attribute value an input position stands for.
pub open spec fn input_position_value(p: InputPosition) -> Seq<char> {
    match p {
        InputPosition::Bottom => "bottom"@,
        InputPosition::Top => "top"@,
    }
}

impl InputPosition {
    /// The attribute value this position stands for.
    pub fn into_value(self) -> (r: String)
        ensures
            r@ == input_position_value(self),
    {
        match self {
            InputPosition::Bottom => <String as StringExecFns>::from_str("bottom"),
            InputPosition::Top => <String as StringExecFns>::from_str("top"),
        }
    }
}

/// How pages are mapped to discussion threads.
#[derive(Debug, Clone, PartialEq)]
pub enum Mapping {
    Pathname,
    Url,
    Title,
    OgTitle,
    Specific(String),
    Number(usize),
}

/// The `data-mapping` attribute value of a mapping.
pub open spec fn mapping_value(m: Mapping) -> Seq<char> {
    match m {
        Mapping::Pathname => "pathname"@,
        Mapping::Url => "url"@,
        Mapping::Title => "title"@,
        Mapping::OgTitle => "og:title"@,
        Mapping::Specific(_) => "specific"@,
        Mapping::Number(_) => "number"@,
    }
}

/// The `data-term` attribute value of a mapping, when it carries one.
pub open spec fn mapping_term(m: Mapping) -> Option<Seq<char>> {
    match m {
        Mapping::Specific(s) => Some(s@),
        Mapping::Number(n) => Some(dec_rep(n as int)),
        _ => None,
    }
}

/// Options of the giscus comment widget.
#[derive(Debug, Clone, PartialEq)]
pub struct GiscusOptions {
    pub repo: String,
    pub repo_id: String,
    pub category: Option<String>,
    pub category_id: String,
    pub mapping: Mapping,
    pub strict: bool,
    pub reactions_enabled: bool,
    pub emit_metadata: bool,
    pub input_position: InputPosition,
    pub theme: String,
    pub lang: String,
    pub lazy: bool,
}

impl GiscusOptions {
    /// Fresh options for a repository and category: pathname mapping, input
    /// box at the bottom, color scheme following the reader's preference,
    /// and everything else off.
    pub fn new(repo: String, repo_id: String, category_id: String) -> (r: GiscusOptions)
        ensures
            r.repo == repo,
            r.repo_id == repo_id,
            r.category is None,
            r.category_id == category_id,
            r.mapping == Mapping::Pathname,
            !r.strict,
            !r.reactions_enabled,
            !r.emit_metadata,
            r.input_position == InputPosition::Bottom,
            r.theme@ == "preferred_color_scheme"@,
            r.lang@ == "zh-CN"@,
            !r.lazy,
    {
        GiscusOptions {
            repo,
            repo_id,
            category: None,
            category_id,
            mapping: Mapping::Pathname,
            strict: false,
            reactions_enabled: false,
            emit_metadata: false,
            input_position: InputPosition::Bottom,
            theme: <String as StringExecFns>::from_str("preferred_color_scheme"),
            lang: <String as StringExecFns>::from_str("zh-CN"),
            lazy: false,
        }
    }

    pub fn with_category(self, category: String) -> (r: GiscusOptions)
        ensures
            r == (GiscusOptions { category: Some(category), ..self }),
    {
        GiscusOptions { category: Some(category), ..self }
    }

    pub fn with_strict(self, strict: bool) -> (r: GiscusOptions)
        ensures
            r == (GiscusOptions { strict, ..self }),
    {
        GiscusOptions { strict, ..self }
    }

    pub fn with_reactions_enabled(self, reactions_enabled: bool) -> (r: GiscusOptions)
        ensures
            r == (GiscusOptions { reactions_enabled, ..self }),
    {
        GiscusOptions { reactions_enabled, ..self }
    }

    pub fn with_emit_metadata(self, emit_metadata: bool) -> (r: GiscusOptions)
        ensures
            r == (GiscusOptions { emit_metadata, ..self }),
    {
        GiscusOptions { emit_metadata, ..self }
    }

    pub fn with_lazy(self, lazy: bool) -> (r: GiscusOptions)
        ensures
            r == (GiscusOptions { lazy, ..self }),
    {
        GiscusOptions { lazy, ..self }
    }

    pub fn with_input_position(self, input_position: InputPosition) -> (r: GiscusOptions)
        ensures
            r == (GiscusOptions { input_position, ..self }),
    {
        GiscusOptions { input_position, ..self }
    }
}

/// One `name="value"` attribute with its leading space.
pub open spec fn attr(name: Seq<char>, value: Seq<char>) -> Seq<char> {
    seq![' '] + name + seq!['=', '"'] + value + seq!['"']
}

/// `"1"` or `"0"`.
pub open spec fn bool01(b: bool) -> Seq<char> {
    if b {
        seq!['1']
    } else {
        seq!['0']
    }
}

/// The script element the options denote.
pub open spec fn giscus_script(o: GiscusOptions) -> Seq<char> {
    "<script src=\"https://giscus.app/client.js\""@ + attr("data-repo"@, o.repo@) + attr(
        "data-repo-id"@,
        o.repo_id@,
    ) + (match o.category {
        Some(c) => attr("data-category"@, c@),
        None => Seq::<char>::empty(),
    }) + attr("data-category-id"@, o.category_id@) + attr("data-mapping"@, mapping_value(o.mapping))
        + (match mapping_term(o.mapping) {
        Some(t) => attr("data-term"@, t),
        None => Seq::<char>::empty(),
    }) + attr("data-strict"@, bool01(o.strict)) + attr(
        "data-reactions-enabled"@,
        bool01(o.reactions_enabled),
    ) + attr("data-emit-metadata"@, bool01(o.emit_metadata)) + attr(
        "data-input-position"@,
        input_position_value(o.input_position),
    ) + attr("data-theme"@, o.theme@) + attr("data-lang"@, o.lang@) + (if o.lazy {
        attr("data-loading"@, "lazy"@)
    } else {
        Seq::<char>::empty()
    }) + attr("crossorigin"@, "anonymous"@) + " async></script>"@
}

/// Appends one attribute.
fn push_attr(out: &mut String, name: &str, value: &str)
    ensures
        final(out)@ == old(out)@ + attr(name@, value@),
{
    out.append(" ");
    out.append(name);
    out.append("=\"");
    out.append(value);
    out.append("\"");
    proof {
        reveal_strlit(" ");
        reveal_strlit("=\"");
        reveal_strlit("\"");
        assert(" "@ =~= seq![' ']);
        assert("=\""@ =~= seq!['=', '"']);
        assert("\""@ =~= seq!['"']);
        assert(out@ =~= old(out)@ + attr(name@, value@));
    }
}

/// The comment widget as the HTML script element its options denote.
#[allow(non_snake_case)]
pub fn Giscus(options: GiscusOptions) -> (r: String)
    ensures
        r@ == giscus_script(options),
{
    let mut out = <String as StringExecFns>::from_str(
        "<script src=\"https://giscus.app/client.js\"",
    );
    push_attr(&mut out, "data-repo", options.repo.as_str());
    push_attr(&mut out, "data-repo-id", options.repo_id.as_str());
    match &options.category {
        Some(c) => {
            push_attr(&mut out, "data-category", c.as_str());
        },
        None => {},
    }
    push_attr(&mut out, "data-category-id", options.category_id.as_str());
    let mapping = match &options.mapping {
        Mapping::Pathname => "pathname",
        Mapping::Url => "url",
        Mapping::Title => "title",
        Mapping::OgTitle => "og:title",
        Mapping::Specific(_) => "specific",
        Mapping::Number(_) => "number",
    };
    push_attr(&mut out, "data-mapping", mapping);
    match &options.mapping {
        Mapping::Specific(s) => {
            push_attr(&mut out, "data-term", s.as_str());
        },
        Mapping::Number(n) => {
            let term = u64_to_string(*n as u64);
            push_attr(&mut out, "data-term", term.as_str());
        },
        _ => {},
    }
    push_attr(&mut out, "data-strict", if options.strict {
        "1"
    } else {
        "0"
    });
    push_attr(&mut out, "data-reactions-enabled", if options.reactions_enabled {
        "1"
    } else {
        "0"
    });
    push_attr(&mut out, "data-emit-metadata", if options.emit_metadata {
        "1"
    } else {
        "0"
    });
    let pos = options.input_position.into_value();
    push_attr(&mut out, "data-input-position", pos.as_str());
    push_attr(&mut out, "data-theme", options.theme.as_str());
    push_attr(&mut out, "data-lang", options.lang.as_str());
    if options.lazy {
        push_attr(&mut out, "data-loading", "lazy");
    }
    push_attr(&mut out, "crossorigin", "anonymous");
    out.append(" async></script>");
    proof {
        reveal_strlit("1");
        reveal_strlit("0");
        assert("1"@ =~= bool01(true));
        assert("0"@ =~= bool01(false));
        assert(out@ =~= giscus_script(options));
    }
    out
}

} // verus!
