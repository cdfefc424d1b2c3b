//! Extraction of the first `<tag>...</tag>` region's inner content from an
//! HTML fragment, used to pull a title out of the first top-level heading.
//!
//! Tag names are matched case-insensitively; the returned content is trimmed.

use vstd::prelude::*;
use crate::chars::{
    spec_is_whitespace, is_whitespace_char, spec_eq_ci, eq_ignore_ascii_case_chars, str_to_chars,
    chars_to_string, push_range,
};
use crate::tags::{
    tag_len, tag_name, tag_is_close, tag_self_closing, lemma_tag_len_bounds, scan_tag,
};

verus! {

/// `s` with leading whitespace dropped.
pub open spec fn trim_start(s: Seq<char>) -> Seq<char>
    decreases s.len(),
{
    if s.len() > 0 && spec_is_whitespace(s[0]) {
        trim_start(s.skip(1))
    } else {
        s
    }
}

/// `s` with trailing whitespace dropped.
pub open spec fn trim_end(s: Seq<char>) -> Seq<char>
    decreases s.len(),
{
    if s.len() > 0 && spec_is_whitespace(s.last()) {
        trim_end(s.drop_last())
    } else {
        s
    }
}

/// `s` with leading and trailing whitespace dropped.
pub open spec fn spec_trim(s: Seq<char>) -> Seq<char> {
    trim_end(trim_start(s))
}

/// Trims whitespace from both ends of a character vector.
pub fn trim_chars(v: &Vec<char>) -> (r: Vec<char>)
    ensures
        r@ == spec_trim(v@),
{
    let n = v.len();
    let mut a: usize = 0;
    proof {
        assert(v@.skip(0) =~= v@);
    }
    while a < n && is_whitespace_char(v[a])
        invariant
            a <= n,
            n == v@.len(),
            trim_start(v@) == trim_start(v@.skip(a as int)),
        decreases n - a,
    {
        proof {
            assert(v@.skip(a as int)[0] == v@[a as int]);
            assert(v@.skip(a as int).skip(1) =~= v@.skip(a as int + 1));
        }
        a = a + 1;
    }
    proof {
        assert(trim_start(v@.skip(a as int)) == v@.skip(a as int));
    }
    let mut b: usize = n;
    proof {
        assert(v@.subrange(a as int, b as int) =~= v@.skip(a as int));
    }
    while b > a && is_whitespace_char(v[b - 1])
        invariant
            a <= b <= n,
            n == v@.len(),
            trim_end(v@.skip(a as int)) == trim_end(v@.subrange(a as int, b as int)),
        decreases b,
    {
        proof {
            let cur = v@.subrange(a as int, b as int);
            assert(cur.last() == v@[b - 1]);
            assert(cur.drop_last() =~= v@.subrange(a as int, b as int - 1));
        }
        b = b - 1;
    }
    proof {
        let cur = v@.subrange(a as int, b as int);
        if b > a {
            assert(cur.last() == v@[b - 1]);
        }
        assert(trim_end(cur) == cur);
    }
    let mut r: Vec<char> = Vec::new();
    push_range(&mut r, v, a, b);
    proof {
        assert(r@ =~= v@.subrange(a as int, b as int));
    }
    r
}

/// Scan for the closing tag once an opening tag was found: the content is
/// everything up to the first matching close construct; without one there is
/// no match at all.
pub open spec fn content_inner(s: Seq<char>, name: Seq<char>) -> Option<Seq<char>>
    decreases s.len(),
    via content_inner_decreases
{
    if s.len() == 0 {
        None
    } else if s[0] != '<' {
        match content_inner(s.skip(1), name) {
            Some(c) => Some(seq![s[0]] + c),
            None => None,
        }
    } else {
        let l = tag_len(s);
        if tag_is_close(s) && spec_eq_ci(tag_name(s), name) {
            Some(Seq::empty())
        } else {
            match content_inner(s.skip(l), name) {
                Some(c) => Some(s.take(l) + c),
                None => None,
            }
        }
    }
}

#[via_fn]
proof fn content_inner_decreases(s: Seq<char>, name: Seq<char>) {
    if s.len() > 0 && s[0] == '<' {
        lemma_tag_len_bounds(s);
    }
}

/// Scan for the first opening construct with the given name; the region's
/// raw content follows from `content_inner`.
pub open spec fn content_rec(s: Seq<char>, name: Seq<char>) -> Option<Seq<char>>
    decreases s.len(),
    via content_rec_decreases
{
    if s.len() == 0 {
        None
    } else if s[0] != '<' {
        content_rec(s.skip(1), name)
    } else {
        let l = tag_len(s);
        if !tag_is_close(s) && !tag_self_closing(s) && spec_eq_ci(tag_name(s), name) {
            content_inner(s.skip(l), name)
        } else {
            content_rec(s.skip(l), name)
        }
    }
}

#[via_fn]
proof fn content_rec_decreases(s: Seq<char>, name: Seq<char>) {
    if s.len() > 0 && s[0] == '<' {
        lemma_tag_len_bounds(s);
    }
}

/// What `get_tag_content` returns: the first region's content, trimmed.
pub open spec fn tag_content_spec(h: Seq<char>, name: Seq<char>) -> Option<Seq<char>> {
    match content_rec(h, name) {
        Some(c) => Some(spec_trim(c)),
        None => None,
    }
}

/// Returns the first non-nested `<tag>...</tag>` region's content, trimmed,
/// matching the tag name case-insensitively; `None` when no such region
/// closes.
pub fn get_tag_content(html: &str, tag: &str) -> (r: Option<String>)
    ensures
        match r {
            Some(c) => tag_content_spec(html@, tag@) == Some(c@),
            None => tag_content_spec(html@, tag@) is None,
        },
{
    let s = str_to_chars(html);
    let name = str_to_chars(tag);
    let n = s.len();
    let mut i: usize = 0;
    let ghost goal = content_rec(s@, name@);
    proof {
        assert(s@.skip(0) =~= s@);
    }
    // look for the opening construct
    let mut open_end: usize = 0;
    let mut found = false;
    while i < n && !found
        invariant
            i <= n,
            n == s@.len(),
            name@ == tag@,
            s@ == html@,
            goal == content_rec(s@, name@),
            !found ==> goal == content_rec(s@.skip(i as int), name@),
            found ==> i <= open_end <= n && goal == content_inner(s@.skip(open_end as int), name@),
        decreases n - i,
    {
        let ghost t = s@.skip(i as int);
        proof {
            assert(t[0] == s@[i as int]);
        }
        if s[i] == '<' {
            let ts = scan_tag(&s, i);
            proof {
                assert(t.skip(tag_len(t)) =~= s@.skip(ts.end as int));
            }
            if !ts.is_close && !ts.self_closing && eq_ignore_ascii_case_chars(&ts.name, &name) {
                found = true;
                open_end = ts.end;
            }
            i = ts.end;
        } else {
            i = i + 1;
            proof {
                assert(t.skip(1) =~= s@.skip(i as int));
            }
        }
    }
    if !found {
        proof {
            assert(s@.skip(i as int) =~= Seq::<char>::empty());
        }
        return None;
    }
    // accumulate content up to the matching close construct
    let mut acc: Vec<char> = Vec::new();
    let mut j: usize = open_end;
    proof {
        if content_inner(s@.skip(j as int), name@) is Some {
            assert(acc@ + content_inner(s@.skip(j as int), name@).unwrap() =~= content_inner(
                s@.skip(j as int),
                name@,
            ).unwrap());
        }
    }
    while j < n
        invariant
            j <= n,
            n == s@.len(),
            name@ == tag@,
            s@ == html@,
            goal == content_rec(s@, name@),
            content_inner(s@.skip(j as int), name@) is Some ==> goal == Some(
                acc@ + content_inner(s@.skip(j as int), name@).unwrap(),
            ),
            content_inner(s@.skip(j as int), name@) is None ==> goal is None,
        decreases n - j,
    {
        let ghost t = s@.skip(j as int);
        let ghost acc0 = acc@;
        proof {
            assert(t[0] == s@[j as int]);
        }
        if s[j] == '<' {
            let ts = scan_tag(&s, j);
            proof {
                assert(t.skip(tag_len(t)) =~= s@.skip(ts.end as int));
                assert(t.take(tag_len(t)) =~= s@.subrange(j as int, ts.end as int));
            }
            if ts.is_close && eq_ignore_ascii_case_chars(&ts.name, &name) {
                let trimmed = trim_chars(&acc);
                proof {
                    assert(content_inner(t, name@) == Some(Seq::<char>::empty()));
                    assert(acc@ + Seq::<char>::empty() =~= acc@);
                }
                return Some(chars_to_string(&trimmed));
            }
            push_range(&mut acc, &s, j, ts.end);
            proof {
                let l = tag_len(t);
                if content_inner(s@.skip(ts.end as int), name@) is Some {
                    let c2 = content_inner(s@.skip(ts.end as int), name@).unwrap();
                    assert(content_inner(t, name@) == Some(t.take(l) + c2));
                    assert(acc@ + c2 =~= acc0 + (t.take(l) + c2));
                }
            }
            j = ts.end;
        } else {
            acc.push(s[j]);
            j = j + 1;
            proof {
                assert(t.skip(1) =~= s@.skip(j as int));
                if content_inner(s@.skip(j as int), name@) is Some {
                    let c2 = content_inner(s@.skip(j as int), name@).unwrap();
                    assert(content_inner(t, name@) == Some(seq![t[0]] + c2));
                    assert(acc@ + c2 =~= acc0 + (seq![t[0]] + c2));
                }
            }
        }
    }
    proof {
        assert(s@.skip(j as int) =~= Seq::<char>::empty());
    }
    None
}

/// Returns the content of the first `<h1>` heading, trimmed.
pub fn get_html_h1(html: &str) -> (r: Option<String>)
    ensures
        match r {
            Some(c) => tag_content_spec(html@, "h1"@) == Some(c@),
            None => tag_content_spec(html@, "h1"@) is None,
        },
{
    get_tag_content(html, "h1")
}

} // verus!
