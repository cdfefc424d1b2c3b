//! The build orchestrator's decisions: its state machine, the skip rules of
//! the directory walks, and where each source file's output goes.  The
//! filesystem work itself happens outside the library; each step reports
//! back whether it succeeded.

use vstd::prelude::*;
use crate::chars::str_to_chars;
use crate::classify::{extension_of, last_index_of, lemma_last_index_of, file_name_of, SourceFile};

verus! {

/// The phases of one full build.
#[derive(Clone, Copy, Debug, PartialEq, Eq, Structural)]
pub enum BuildState {
    Idle,
    Cleaning,
    CopyingAssets,
    RenderingPosts,
    WritingIndex,
    Done,
    Failed,
}

/// The next phase after finishing the current one: the phases run in order,
/// any failure aborts the whole build, and the terminal states stay put.
pub open spec fn build_step_spec(s: BuildState, ok: bool) -> BuildState {
    match s {
        BuildState::Done => BuildState::Done,
        BuildState::Failed => BuildState::Failed,
        _ => {
            if !ok {
                BuildState::Failed
            } else {
                match s {
                    BuildState::Idle => BuildState::Cleaning,
                    BuildState::Cleaning => BuildState::CopyingAssets,
                    BuildState::CopyingAssets => BuildState::RenderingPosts,
                    BuildState::RenderingPosts => BuildState::WritingIndex,
                    _ => BuildState::Done,
                }
            }
        },
    }
}

/// Advances the build state machine after one phase's outcome.
pub fn build_step(state: &BuildState, ok: bool) -> (r: BuildState)
    ensures
        r == build_step_spec(*state, ok),
{
    match state {
        BuildState::Done => BuildState::Done,
        BuildState::Failed => BuildState::Failed,
        _ => {
            if !ok {
                BuildState::Failed
            } else {
                match state {
                    BuildState::Idle => BuildState::Cleaning,
                    BuildState::Cleaning => BuildState::CopyingAssets,
                    BuildState::CopyingAssets => BuildState::RenderingPosts,
                    BuildState::RenderingPosts => BuildState::WritingIndex,
                    _ => BuildState::Done,
                }
            }
        },
    }
}

/// The directory name that is skipped wholesale during the walks.
pub open spec fn skipped_dir_name() -> Seq<char> {
    seq!['n', 'o', 'd', 'e', '_', 'm', 'o', 'd', 'u', 'l', 'e', 's']
}

/// Whether a directory entry is ignored by the walks: every entry whose name
/// starts with an underscore, and the conventional generated-dependencies
/// directory.
pub open spec fn is_ignored_spec(name: Seq<char>) -> bool {
    (name.len() > 0 && name[0] == '_') || name == skipped_dir_name()
}

/// Decides whether a walk ignores a directory entry.
pub fn is_ignored_entry(name: &str) -> (r: bool)
    ensures
        r == is_ignored_spec(name@),
{
    let cs = str_to_chars(name);
    if cs.len() > 0 && cs[0] == '_' {
        return true;
    }
    let nm: Vec<char> = vec!['n', 'o', 'd', 'e', '_', 'm', 'o', 'd', 'u', 'l', 'e', 's'];
    proof {
        assert(nm@ =~= skipped_dir_name());
    }
    let r = crate::chars::match_at(&cs, &nm, 0);
    proof {
        if r && cs@.len() == nm@.len() {
            assert(cs@.subrange(0, nm@.len() as int) =~= cs@);
        }
        if cs@ == skipped_dir_name() {
            assert(cs@.subrange(0, nm@.len() as int) =~= nm@);
        }
    }
    r && cs.len() == nm.len()
}

/// Whether a theme file is a template: templates are consumed by the
/// renderer, never copied to the output tree.
pub fn is_template_file(name: &str) -> (r: bool)
    ensures
        r == (extension_of(name@) == Some(seq!['h', 't', 'm', 'l'])),
{
    let cs = str_to_chars(name);
    let name_start = crate::classify::after_last(&cs, '/');
    proof {
        lemma_last_index_of(cs@, '/');
    }
    let mut nm: Vec<char> = Vec::new();
    crate::chars::push_range(&mut nm, &cs, name_start, cs.len());
    proof {
        assert(nm@ =~= file_name_of(cs@));
    }
    let d = crate::classify::after_last(&nm, '.');
    proof {
        lemma_last_index_of(nm@, '.');
    }
    if d >= 2 && nm.len() - d == 4 {
        let r = nm[d] == 'h' && nm[d + 1] == 't' && nm[d + 2] == 'm' && nm[d + 3] == 'l';
        proof {
            let e = extension_of(cs@).unwrap();
            assert(e =~= nm@.skip(d as int));
            if r {
                assert(e =~= seq!['h', 't', 'm', 'l']);
            } else {
                assert(e[0] == nm@[d as int] && e[1] == nm@[d as int + 1] && e[2] == nm@[d as int
                    + 2] && e[3] == nm@[d as int + 3]);
            }
        }
        r
    } else {
        proof {
            match extension_of(cs@) {
                Some(e) => {
                    assert(e =~= nm@.skip(d as int));
                    assert(e.len() == nm@.len() - d);
                },
                None => {},
            }
        }
        false
    }
}

/// The planned output for one classified source file.
pub enum OutputAction {
    /// Render the parsed document and write it at this relative path.
    RenderHtml(String),
    /// Copy the file's bytes unchanged to the same relative path.
    CopyVerbatim(String),
}

/// The output path of a rendered document: the source's relative path with
/// its extension replaced by `html` (or with `.html` appended when it has
/// none).
pub open spec fn html_path_of(p: Seq<char>) -> Seq<char> {
    match extension_of(p) {
        Some(e) => p.take(p.len() - e.len()) + seq!['h', 't', 'm', 'l'],
        None => p + seq!['.', 'h', 't', 'm', 'l'],
    }
}

/// Plans one classified source file's output: documents are rendered to the
/// mirrored path with an `html` extension; any other file is copied verbatim
/// to its own mirrored path, so source and output bytes coincide.
pub fn plan_output(src: &SourceFile) -> (r: OutputAction)
    ensures
        ({
            match src {
                SourceFile::MarkdownFile(p) => r matches OutputAction::RenderHtml(d) && d@
                    == html_path_of(p@),
                SourceFile::TypstFile(p) => r matches OutputAction::RenderHtml(d) && d@
                    == html_path_of(p@),
                SourceFile::OtherFile(p) => r matches OutputAction::CopyVerbatim(d) && d@ == p@,
            }
        }),
{
    match src {
        SourceFile::MarkdownFile(p) => OutputAction::RenderHtml(with_html_extension(p.as_str())),
        SourceFile::TypstFile(p) => OutputAction::RenderHtml(with_html_extension(p.as_str())),
        SourceFile::OtherFile(p) => OutputAction::CopyVerbatim(crate::highlight::clone_string(p)),
    }
}

/// Replaces a path's extension with `html`, or appends `.html` when it has
/// none.
pub fn with_html_extension(path: &str) -> (r: String)
    ensures
        r@ == html_path_of(path@),
{
    let cs = str_to_chars(path);
    let name_start = crate::classify::after_last(&cs, '/');
    proof {
        lemma_last_index_of(cs@, '/');
    }
    let mut nm: Vec<char> = Vec::new();
    crate::chars::push_range(&mut nm, &cs, name_start, cs.len());
    proof {
        assert(nm@ =~= file_name_of(cs@));
    }
    let d = crate::classify::after_last(&nm, '.');
    proof {
        lemma_last_index_of(nm@, '.');
    }
    let mut out: Vec<char> = Vec::new();
    if d >= 2 {
        // keep everything up to and including the dot
        crate::chars::push_range(&mut out, &cs, 0, name_start + d);
        proof {
            let e = extension_of(cs@).unwrap();
            assert(e =~= nm@.skip(d as int));
            assert(out@ =~= cs@.take(cs@.len() - e.len()));
        }
    } else {
        crate::chars::push_range(&mut out, &cs, 0, cs.len());
        out.push('.');
        proof {
            assert(out@ =~= cs@ + seq!['.']);
        }
    }
    out.push('h');
    out.push('t');
    out.push('m');
    out.push('l');
    proof {
        match extension_of(cs@) {
            Some(e) => {
                assert(out@ =~= cs@.take(cs@.len() - e.len()) + seq!['h', 't', 'm', 'l']);
            },
            None => {
                assert(out@ =~= cs@ + seq!['.', 'h', 't', 'm', 'l']);
            },
        }
    }
    crate::chars::chars_to_string(&out)
}

} // verus!
