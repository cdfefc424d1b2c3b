//! Source classification: a file's extension decides whether it is a
//! Markdown document, an alternate-format (typeset) document, or an opaque
//! "other" file that is copied verbatim to the output tree.

use vstd::prelude::*;
use crate::chars::{str_to_chars, chars_to_string};

verus! {

/// Index of the last occurrence of `c` in `s`, or `-1` when there is none.
pub open spec fn last_index_of(s: Seq<char>, c: char) -> int
    decreases s.len(),
{
    if s.len() == 0 {
        -1
    } else if s.last() == c {
        s.len() - 1
    } else {
        last_index_of(s.drop_last(), c)
    }
}

pub proof fn lemma_last_index_of(s: Seq<char>, c: char)
    ensures
        -1 <= last_index_of(s, c) < s.len(),
        last_index_of(s, c) >= 0 ==> s[last_index_of(s, c)] == c,
        forall|k: int| last_index_of(s, c) < k < s.len() ==> s[k] != c,
    decreases s.len(),
{
    if s.len() > 0 && s.last() != c {
        lemma_last_index_of(s.drop_last(), c);
        assert forall|k: int| last_index_of(s, c) < k < s.len() implies s[k] != c by {
            if k < s.len() - 1 {
                assert(s.drop_last()[k] == s[k]);
            }
        }
        if last_index_of(s, c) >= 0 {
            assert(s.drop_last()[last_index_of(s, c)] == s[last_index_of(s, c)]);
        }
    }
}

/// The file name part of a path: everything after the last `/`.
pub open spec fn file_name_of(p: Seq<char>) -> Seq<char> {
    p.skip(last_index_of(p, '/') + 1)
}

/// The extension of a path: what follows the last `.` of its file name,
/// unless that dot is the name's first character or there is no dot.
pub open spec fn extension_of(p: Seq<char>) -> Option<Seq<char>> {
    let name = file_name_of(p);
    let d = last_index_of(name, '.');
    if d > 0 {
        Some(name.skip(d + 1))
    } else {
        None
    }
}

/// The stem of a path's file name: the file name up to the extension's dot.
pub open spec fn base_name_of(p: Seq<char>) -> Seq<char> {
    let name = file_name_of(p);
    let d = last_index_of(name, '.');
    if d > 0 {
        name.take(d)
    } else {
        name
    }
}

/// Finds the index just after the last occurrence of `c`, or `0` when there
/// is none.
pub fn after_last(s: &Vec<char>, c: char) -> (r: usize)
    ensures
        r == last_index_of(s@, c) + 1,
{
    let mut b: usize = s.len();
    proof {
        assert(s@.take(s@.len() as int) =~= s@);
    }
    while b > 0
        invariant
            b <= s@.len(),
            last_index_of(s@, c) == last_index_of(s@.take(b as int), c),
        decreases b,
    {
        proof {
            let cur = s@.take(b as int);
            assert(cur.last() == s@[b - 1]);
            assert(cur.drop_last() =~= s@.take(b as int - 1));
        }
        if s[b - 1] == c {
            proof {
                assert(last_index_of(s@.take(b as int), c) == b - 1);
            }
            return b;
        }
        b = b - 1;
    }
    proof {
        assert(s@.take(0) =~= Seq::<char>::empty());
    }
    0
}

/// A classified source file: a Markdown document, an alternate-format
/// (typeset) document, or an opaque other file.  The payload is the path.
pub enum SourceFile {
    MarkdownFile(String),
    TypstFile(String),
    OtherFile(String),
}

/// The extension strings the classifier recognizes.
pub open spec fn md_ext() -> Seq<char> {
    seq!['m', 'd']
}

pub open spec fn typ_ext() -> Seq<char> {
    seq!['t', 'y', 'p']
}

impl SourceFile {
    /// Classifies a path by its extension, case-sensitively: `md` is
    /// Markdown, `typ` is the alternate typeset format, anything else —
    /// a missing or unrecognized extension included — is an other file.
    pub fn from(path: String) -> (r: SourceFile)
        ensures
            extension_of(path@) == Some(md_ext()) ==> (r matches SourceFile::MarkdownFile(p)
                && p@ == path@),
            extension_of(path@) == Some(typ_ext()) ==> (r matches SourceFile::TypstFile(p) && p@
                == path@),
            extension_of(path@) != Some(md_ext()) && extension_of(path@) != Some(typ_ext()) ==> (
            r matches SourceFile::OtherFile(p) && p@ == path@),
    {
        let cs = str_to_chars(path.as_str());
        let name_start = after_last(&cs, '/');
        proof {
            lemma_last_index_of(cs@, '/');
        }
        let mut name: Vec<char> = Vec::new();
        crate::chars::push_range(&mut name, &cs, name_start, cs.len());
        proof {
            assert(name@ =~= file_name_of(cs@));
        }
        let d = after_last(&name, '.');
        proof {
            lemma_last_index_of(name@, '.');
        }
        if d >= 2 {
            let mut ext: Vec<char> = Vec::new();
            crate::chars::push_range(&mut ext, &name, d, name.len());
            proof {
                assert(ext@ =~= extension_of(cs@).unwrap());
            }
            if ext.len() == 2 && ext[0] == 'm' && ext[1] == 'd' {
                proof {
                    assert(ext@ =~= md_ext());
                }
                return SourceFile::MarkdownFile(path);
            }
            if ext.len() == 3 && ext[0] == 't' && ext[1] == 'y' && ext[2] == 'p' {
                proof {
                    assert(ext@ =~= typ_ext());
                }
                return SourceFile::TypstFile(path);
            }
            proof {
                if ext@ == md_ext() {
                    assert(ext@[0] == 'm' && ext@[1] == 'd' && ext@.len() == 2);
                }
                if ext@ == typ_ext() {
                    assert(ext@[0] == 't' && ext@[1] == 'y' && ext@[2] == 'p' && ext@.len() == 3);
                }
            }
            return SourceFile::OtherFile(path);
        }
        proof {
            assert(extension_of(cs@) is None);
        }
        SourceFile::OtherFile(path)
    }
}

/// Returns the file name stem of a path: the part after the last `/`, up to
/// the extension's dot.
pub fn base_name(path: &str) -> (r: String)
    ensures
        r@ == base_name_of(path@),
{
    let cs = str_to_chars(path);
    let name_start = after_last(&cs, '/');
    proof {
        lemma_last_index_of(cs@, '/');
    }
    let mut name: Vec<char> = Vec::new();
    crate::chars::push_range(&mut name, &cs, name_start, cs.len());
    proof {
        assert(name@ =~= file_name_of(cs@));
    }
    let d = after_last(&name, '.');
    proof {
        lemma_last_index_of(name@, '.');
    }
    let stem_end = if d >= 2 {
        d - 1
    } else {
        name.len()
    };
    let mut stem: Vec<char> = Vec::new();
    crate::chars::push_range(&mut stem, &name, 0, stem_end);
    proof {
        assert(stem@ =~= base_name_of(cs@));
    }
    chars_to_string(&stem)
}

/// The slug image of one character: lowercase letters and digits stand for
/// themselves, uppercase letters are lowered, anything else is a separator.
pub open spec fn slug_char(c: char) -> Option<char> {
    if ('a' <= c && c <= 'z') || ('0' <= c && c <= '9') {
        Some(c)
    } else if 'A' <= c && c <= 'Z' {
        Some(crate::chars::spec_lower(c))
    } else {
        None
    }
}

/// The slug scan: kept characters are emitted, with a single dash standing
/// for any run of separators between two kept characters; separators at the
/// ends produce nothing.
pub open spec fn slug_rec(s: Seq<char>, started: bool, pending: bool) -> Seq<char>
    decreases s.len(),
{
    if s.len() == 0 {
        Seq::empty()
    } else {
        match slug_char(s[0]) {
            Some(c) => (if started && pending {
                seq!['-', c]
            } else {
                seq![c]
            }) + slug_rec(s.skip(1), true, false),
            None => slug_rec(s.skip(1), started, true),
        }
    }
}

/// What `slugify` returns.
pub open spec fn slug_spec(s: Seq<char>) -> Seq<char> {
    slug_rec(s, false, false)
}

/// Turns a name into a URL-safe slug: ASCII letters (lowered) and digits are
/// kept, every run of other characters between them becomes one dash, and
/// leading or trailing runs disappear.
pub fn slugify(name: &str) -> (r: String)
    ensures
        r@ == slug_spec(name@),
{
    let cs = str_to_chars(name);
    let n = cs.len();
    let mut out: Vec<char> = Vec::new();
    let mut started = false;
    let mut pending = false;
    let mut i: usize = 0;
    proof {
        assert(cs@.skip(0) =~= cs@);
        assert(out@ + slug_rec(cs@.skip(0), false, false) =~= slug_spec(name@));
    }
    while i < n
        invariant
            i <= n,
            n == cs@.len(),
            cs@ == name@,
            slug_spec(name@) == out@ + slug_rec(cs@.skip(i as int), started, pending),
        decreases n - i,
    {
        let ghost t = cs@.skip(i as int);
        let ghost out0 = out@;
        proof {
            assert(t[0] == cs@[i as int]);
            assert(t.skip(1) =~= cs@.skip(i as int + 1));
        }
        let c = cs[i];
        if ('a' <= c && c <= 'z') || ('0' <= c && c <= '9') {
            if started && pending {
                out.push('-');
            }
            out.push(c);
            started = true;
            pending = false;
            proof {
                assert(slug_char(t[0]) == Some(c));
                assert(out@ =~= out0 + (if out@.len() == out0.len() + 2 {
                    seq!['-', c]
                } else {
                    seq![c]
                }));
            }
        } else if 'A' <= c && c <= 'Z' {
            let lc = crate::chars::lower_char(c);
            if started && pending {
                out.push('-');
            }
            out.push(lc);
            started = true;
            pending = false;
            proof {
                assert(slug_char(t[0]) == Some(lc));
                assert(out@ =~= out0 + (if out@.len() == out0.len() + 2 {
                    seq!['-', lc]
                } else {
                    seq![lc]
                }));
            }
        } else {
            pending = true;
            proof {
                assert(slug_char(t[0]) is None);
            }
        }
        i = i + 1;
    }
    proof {
        assert(cs@.skip(n as int) =~= Seq::<char>::empty());
        assert(slug_spec(name@) =~= out@);
    }
    crate::chars::chars_to_string(&out)
}

} // verus!
