//! Title and plain-text summary taken straight from raw Markdown text,
//! without rendering: the first `# ` heading line names the document, and the
//! text after the leading blank and heading lines — joined into one line,
//! stripped of control characters and cut at 200 characters — summarizes it,
//! with an ellipsis marker appended when the kept text runs past 197 bytes.

use vstd::prelude::*;
use vstd::utf8::{encode_utf8, encode_scalar, char_is_scalar};
use crate::chars::{str_to_chars, chars_to_string, push_range, find_nl, lemma_find_nl_bounds};
use crate::content::{spec_trim, trim_chars};

verus! {

/// A line with one trailing carriage return dropped.
pub open spec fn strip_cr(l: Seq<char>) -> Seq<char> {
    if l.len() > 0 && l.last() == '\r' {
        l.drop_last()
    } else {
        l
    }
}

/// The first line of `s`.
pub open spec fn line_of(s: Seq<char>) -> Seq<char> {
    strip_cr(s.take(find_nl(s)))
}

/// What remains of `s` after its first line and its line break.
pub open spec fn rest_after_line(s: Seq<char>) -> Seq<char> {
    if find_nl(s) >= s.len() {
        Seq::empty()
    } else {
        s.skip(find_nl(s) + 1)
    }
}

/// The first heading line's content: the first line whose trimmed text
/// starts with `# `, itself trimmed after the marker.
pub open spec fn blog_title_rec(s: Seq<char>) -> Option<Seq<char>>
    decreases s.len(),
    via blog_title_rec_decreases
{
    if s.len() == 0 {
        None
    } else {
        let tl = spec_trim(line_of(s));
        if tl.len() >= 2 && tl[0] == '#' && tl[1] == ' ' {
            Some(spec_trim(tl.skip(2)))
        } else {
            blog_title_rec(rest_after_line(s))
        }
    }
}

#[via_fn]
proof fn blog_title_rec_decreases(s: Seq<char>) {
    lemma_find_nl_bounds(s);
}

/// The fallback title of a document without a heading line.
pub open spec fn untitled() -> Seq<char> {
    seq!['U', 'n', 't', 'i', 't', 'l', 'e', 'd']
}

/// What the title extraction returns.
pub open spec fn blog_title_spec(s: Seq<char>) -> Seq<char> {
    match blog_title_rec(s) {
        Some(t) => t,
        None => untitled(),
    }
}

/// The suffix of `s` where the summary text begins: leading lines that are
/// blank or headings are passed over.
pub open spec fn content_start_rec(s: Seq<char>) -> Seq<char>
    decreases s.len(),
    via content_start_rec_decreases
{
    if s.len() == 0 {
        Seq::empty()
    } else {
        let tl = spec_trim(line_of(s));
        if tl.len() == 0 || tl[0] == '#' {
            content_start_rec(rest_after_line(s))
        } else {
            s
        }
    }
}

#[via_fn]
proof fn content_start_rec_decreases(s: Seq<char>) {
    lemma_find_nl_bounds(s);
}

/// An ASCII control character.
pub open spec fn spec_is_ctrl(c: char) -> bool {
    (c as u32) < 32 || (c as u32) == 127
}

/// The summary text: line breaks joined into single spaces (a break at the
/// very end produces nothing), control characters dropped, and at most `k`
/// characters kept.
pub open spec fn joined_take_rec(s: Seq<char>, k: int) -> Seq<char>
    decreases s.len(),
{
    if s.len() == 0 || k <= 0 {
        Seq::empty()
    } else if s[0] == '\n' {
        if s.len() == 1 {
            Seq::empty()
        } else {
            seq![' '] + joined_take_rec(s.skip(1), k - 1)
        }
    } else if spec_is_ctrl(s[0]) {
        joined_take_rec(s.skip(1), k)
    } else {
        seq![s[0]] + joined_take_rec(s.skip(1), k - 1)
    }
}

/// What the summary extraction returns: a summary whose UTF-8 encoding runs
/// past 197 bytes gets a trailing ellipsis marker.
pub open spec fn blog_document_spec(s: Seq<char>) -> Seq<char> {
    let p = joined_take_rec(content_start_rec(s), 200);
    if encode_utf8(p).len() > 197 {
        p + seq!['.', '.', '.']
    } else {
        p
    }
}

/// The UTF-8 byte length of a short character vector.
fn utf8_byte_len(v: &Vec<char>) -> (r: usize)
    requires
        v@.len() <= 200,
    ensures
        r == encode_utf8(v@).len(),
{
    let n = v.len();
    let mut acc: usize = 0;
    let mut i: usize = 0;
    proof {
        assert(v@.skip(0) =~= v@);
    }
    while i < n
        invariant
            i <= n,
            n == v@.len(),
            n <= 200,
            acc <= 4 * i,
            encode_utf8(v@).len() == acc + encode_utf8(v@.skip(i as int)).len(),
        decreases n - i,
    {
        let c = v[i];
        let u = c as u32;
        let w: usize = if u < 0x80 {
            1
        } else if u < 0x800 {
            2
        } else if u < 0x10000 {
            3
        } else {
            4
        };
        proof {
            let t = v@.skip(i as int);
            assert(t[0] == v@[i as int]);
            char_is_scalar(c);
            assert(encode_scalar(c as u32).len() == w);
            assert(t.drop_first() =~= v@.skip(i as int + 1));
            assert(encode_utf8(t) == encode_scalar(t[0] as u32) + encode_utf8(t.drop_first()));
        }
        acc = acc + w;
        i = i + 1;
    }
    proof {
        assert(v@.skip(n as int) =~= Seq::<char>::empty());
    }
    acc
}

/// Finds the end of the line starting at `i`: the index of the next line
/// break, or the end of the text.
pub(crate) fn line_end(s: &Vec<char>, i: usize) -> (e: usize)
    requires
        i <= s@.len(),
    ensures
        i <= e <= s@.len(),
        e - i == find_nl(s@.skip(i as int)),
{
    let n = s.len();
    let mut p: usize = i;
    proof {
        lemma_find_nl_bounds(s@.skip(i as int));
    }
    while p < n && s[p] != '\n'
        invariant
            i <= p <= n,
            n == s@.len(),
            find_nl(s@.skip(i as int)) == (p - i) + find_nl(s@.skip(p as int)),
        decreases n - p,
    {
        proof {
            assert(s@.skip(p as int)[0] == s@[p as int]);
            assert(s@.skip(p as int).skip(1) =~= s@.skip(p as int + 1));
        }
        p = p + 1;
    }
    proof {
        if p < n {
            assert(s@.skip(p as int)[0] == s@[p as int]);
        } else {
            assert(s@.skip(p as int) =~= Seq::<char>::empty());
        }
    }
    p
}

/// The first line starting at `i`, trimmed, as a character vector.
fn trimmed_line(s: &Vec<char>, i: usize, e: usize) -> (r: Vec<char>)
    requires
        i <= e <= s@.len(),
        e - i == find_nl(s@.skip(i as int)),
    ensures
        r@ == spec_trim(line_of(s@.skip(i as int))),
{
    let mut line: Vec<char> = Vec::new();
    let line_end_idx = if e > i && s[e - 1] == '\r' {
        e - 1
    } else {
        e
    };
    push_range(&mut line, s, i, line_end_idx);
    proof {
        let t = s@.skip(i as int);
        assert(t.take(find_nl(t)) =~= s@.subrange(i as int, e as int));
        if e > i && s@[e - 1] == '\r' {
            assert(t.take(find_nl(t)).last() == s@[e - 1]);
            assert(line_of(t) =~= s@.subrange(i as int, e as int - 1));
        } else {
            if e > i {
                assert(t.take(find_nl(t)).last() == s@[e - 1]);
            }
            assert(line_of(t) =~= s@.subrange(i as int, e as int));
        }
        assert(line@ =~= line_of(t));
    }
    trim_chars(&line)
}

/// Extracts a title and a short plain-text summary from raw Markdown text:
/// the first `# ` heading line (or "Untitled"), and the first 200 characters
/// of the text after the leading blank and heading lines, joined into one
/// line, with an ellipsis marker when nearly full.
pub fn extract_blog_info(content: &str) -> (r: (String, String))
    ensures
        r.0@ == blog_title_spec(content@),
        r.1@ == blog_document_spec(content@),
{
    let s = str_to_chars(content);
    let n = s.len();
    // the heading line
    let mut title: Option<String> = None;
    let mut i: usize = 0;
    proof {
        assert(s@.skip(0) =~= s@);
    }
    while i < n && title.is_none()
        invariant
            i <= n,
            n == s@.len(),
            s@ == content@,
            title is None ==> blog_title_rec(content@) == blog_title_rec(s@.skip(i as int)),
            title matches Some(t) ==> blog_title_rec(content@) == Some(t@),
        decreases n - i,
    {
        let e = line_end(&s, i);
        let tl = trimmed_line(&s, i, e);
        let ghost t = s@.skip(i as int);
        if tl.len() >= 2 && tl[0] == '#' && tl[1] == ' ' {
            let mut tail: Vec<char> = Vec::new();
            push_range(&mut tail, &tl, 2, tl.len());
            proof {
                assert(tail@ =~= spec_trim(line_of(t)).skip(2));
            }
            let tt = trim_chars(&tail);
            title = Some(chars_to_string(&tt));
        } else {
            proof {
                lemma_find_nl_bounds(t);
                if e < n {
                    assert(rest_after_line(t) =~= s@.skip(e as int + 1));
                } else {
                    assert(rest_after_line(t) =~= Seq::<char>::empty());
                    assert(s@.skip(n as int) =~= Seq::<char>::empty());
                }
            }
        }
        i = if e < n {
            e + 1
        } else {
            n
        };
    }
    let title_str = match title {
        Some(t) => t,
        None => {
            proof {
                assert(s@.skip(n as int) =~= Seq::<char>::empty());
                reveal_strlit("Untitled");
                assert("Untitled"@ =~= untitled());
            }
            <String as vstd::string::StringExecFns>::from_str("Untitled")
        },
    };
    // where the summary text begins
    let mut c: usize = 0;
    let mut found = false;
    proof {
        assert(s@.skip(0) =~= s@);
    }
    while c < n && !found
        invariant
            c <= n,
            n == s@.len(),
            s@ == content@,
            !found ==> content_start_rec(content@) == content_start_rec(s@.skip(c as int)),
            found ==> content_start_rec(content@) == s@.skip(c as int),
        decreases n - c + (if found {
            0int
        } else {
            1int
        }),
    {
        let e = line_end(&s, c);
        let tl = trimmed_line(&s, c, e);
        let ghost t = s@.skip(c as int);
        if tl.len() == 0 || tl[0] == '#' {
            proof {
                lemma_find_nl_bounds(t);
                if e < n {
                    assert(rest_after_line(t) =~= s@.skip(e as int + 1));
                } else {
                    assert(rest_after_line(t) =~= Seq::<char>::empty());
                    assert(s@.skip(n as int) =~= Seq::<char>::empty());
                }
            }
            c = if e < n {
                e + 1
            } else {
                n
            };
        } else {
            found = true;
            proof {
                assert(content_start_rec(t) == t);
            }
        }
    }
    proof {
        if !found {
            assert(s@.skip(c as int) =~= Seq::<char>::empty());
            assert(content_start_rec(content@) == content_start_rec(s@.skip(c as int)));
        }
        assert(content_start_rec(content@) == s@.skip(c as int));
    }
    // join, filter and cut the summary text
    let ghost goal = joined_take_rec(s@.skip(c as int), 200);
    let mut out: Vec<char> = Vec::new();
    let mut k: usize = 200;
    let mut j: usize = c;
    proof {
        assert(out@ + joined_take_rec(s@.skip(j as int), k as int) =~= goal);
    }
    while j < n && k > 0
        invariant
            c <= j <= n,
            k <= 200,
            out@.len() + k == 200,
            n == s@.len(),
            s@ == content@,
            goal == joined_take_rec(s@.skip(c as int), 200),
            goal == out@ + joined_take_rec(s@.skip(j as int), k as int),
        decreases n - j,
    {
        let ghost t = s@.skip(j as int);
        proof {
            assert(t[0] == s@[j as int]);
            assert(t.skip(1) =~= s@.skip(j as int + 1));
        }
        let ch = s[j];
        if ch == '\n' {
            if j + 1 < n {
                out.push(' ');
                k = k - 1;
            }
            proof {
                if j + 1 >= n {
                    assert(t.len() == 1);
                    assert(joined_take_rec(t, k as int) =~= Seq::<char>::empty());
                    assert(s@.skip(j as int + 1) =~= Seq::<char>::empty());
                    assert(joined_take_rec(s@.skip(j as int + 1), k as int)
                        =~= Seq::<char>::empty());
                }
            }
        } else if is_ctrl_char(ch) {
            // dropped
        } else {
            out.push(ch);
            k = k - 1;
        }
        j = j + 1;
        proof {
            assert(goal =~= out@ + joined_take_rec(s@.skip(j as int), k as int));
        }
    }
    proof {
        if j >= n {
            assert(s@.skip(j as int) =~= Seq::<char>::empty());
        }
        assert(goal =~= out@);
    }
    if utf8_byte_len(&out) > 197 {
        out.push('.');
        out.push('.');
        out.push('.');
        proof {
            assert(out@ =~= goal + seq!['.', '.', '.']);
        }
    }
    (title_str, chars_to_string(&out))
}

fn is_ctrl_char(c: char) -> (r: bool)
    ensures
        r == spec_is_ctrl(c),
{
    (c as u32) < 32 || (c as u32) == 127
}

} // verus!
