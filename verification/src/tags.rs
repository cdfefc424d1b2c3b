//! The tag lexer shared by every HTML scanner in this crate.
//!
//! The scanners treat HTML as a stream of single characters interrupted by
//! `<...>` constructs.  A construct starting at `<` is scanned as: an optional
//! `/` (a closing tag), a name made of ASCII letters and `-`, then everything
//! up to the first `>` (attributes), with `/>` marking a self-closing tag.
//! A construct that reaches the end of the text without a `>` is taken whole.
//!
//! All specification functions here work on the *suffix* of the text that
//! starts at the construct's `<`, so that scanner specifications can be
//! written as structural recursion over suffixes.

use vstd::prelude::*;
use crate::chars::spec_is_ascii_alphabetic;

verus! {

/// Characters allowed in a tag name.
pub open spec fn spec_is_name_char(c: char) -> bool {
    spec_is_ascii_alphabetic(c) || ('0' <= c && c <= '9') || c == '-'
}

/// First position at or after `j` holding a character that cannot be part of
/// a tag name (or the end of the text).
pub open spec fn name_scan_end(t: Seq<char>, j: int) -> int
    decreases t.len() - j,
{
    if j < 0 || j >= t.len() {
        t.len() as int
    } else if spec_is_name_char(t[j]) {
        name_scan_end(t, j + 1)
    } else {
        j
    }
}

/// Result of scanning the attribute part of a tag from position `k`:
/// the position just after the construct, and whether it ended in `/>`.
pub open spec fn attr_scan(t: Seq<char>, k: int) -> (int, bool)
    decreases t.len() - k,
{
    if k < 0 || k >= t.len() {
        (t.len() as int, false)
    } else if t[k] == '>' {
        (k + 1, false)
    } else if t[k] == '/' && k + 1 < t.len() && t[k + 1] == '>' {
        (k + 2, true)
    } else {
        attr_scan(t, k + 1)
    }
}

/// Whether the construct at the head of `t` is a closing tag.
pub open spec fn tag_is_close(t: Seq<char>) -> bool {
    t.len() >= 2 && t[1] == '/'
}

/// Position where the tag name starts.
pub open spec fn tag_name_start(t: Seq<char>) -> int {
    if tag_is_close(t) {
        2
    } else {
        1
    }
}

/// Position just after the tag name.
pub open spec fn tag_name_end(t: Seq<char>) -> int {
    name_scan_end(t, tag_name_start(t))
}

/// The name of the construct at the head of `t`.
pub open spec fn tag_name(t: Seq<char>) -> Seq<char> {
    t.subrange(tag_name_start(t), tag_name_end(t))
}

/// Length of the whole construct at the head of `t`.
pub open spec fn tag_len(t: Seq<char>) -> int {
    attr_scan(t, tag_name_end(t)).0
}

/// Whether the construct at the head of `t` is self-closing (`.../>`).
pub open spec fn tag_self_closing(t: Seq<char>) -> bool {
    attr_scan(t, tag_name_end(t)).1
}

/// Whether the construct found its terminating `>` before the text ended.
pub open spec fn tag_complete(t: Seq<char>) -> bool {
    1 <= tag_len(t) <= t.len() && t[tag_len(t) - 1] == '>'
}

pub proof fn lemma_name_scan_bounds(t: Seq<char>, j: int)
    requires
        0 <= j <= t.len(),
    ensures
        j <= name_scan_end(t, j) <= t.len(),
        forall|k: int| j <= k < name_scan_end(t, j) ==> spec_is_name_char(t[k]),
        name_scan_end(t, j) < t.len() ==> !spec_is_name_char(t[name_scan_end(t, j)]),
    decreases t.len() - j,
{
    if j < t.len() && spec_is_name_char(t[j]) {
        lemma_name_scan_bounds(t, j + 1);
    }
}

pub proof fn lemma_attr_scan_bounds(t: Seq<char>, k: int)
    requires
        0 <= k <= t.len(),
    ensures
        k <= attr_scan(t, k).0 <= t.len(),
        k < t.len() ==> k < attr_scan(t, k).0,
        attr_scan(t, k).0 == t.len() || t[attr_scan(t, k).0 - 1] == '>',
        attr_scan(t, k).0 < t.len() ==> t[attr_scan(t, k).0 - 1] == '>',
    decreases t.len() - k,
{
    if k < t.len() && !(t[k] == '>') && !(t[k] == '/' && k + 1 < t.len() && t[k + 1] == '>') {
        lemma_attr_scan_bounds(t, k + 1);
    }
}

/// Every construct consumes at least one character and at most the whole text.
pub proof fn lemma_tag_len_bounds(t: Seq<char>)
    requires
        t.len() > 0,
    ensures
        1 <= tag_len(t) <= t.len(),
        !tag_complete(t) ==> tag_len(t) == t.len(),
{
    lemma_name_scan_bounds(t, tag_name_start(t));
    lemma_attr_scan_bounds(t, tag_name_end(t));
}

/// The name of a construct holds only name characters.
pub proof fn lemma_tag_name_chars(t: Seq<char>)
    requires
        t.len() > 0,
    ensures
        forall|k: int| 0 <= k < tag_name(t).len() ==> spec_is_name_char(tag_name(t)[k]),
{
    lemma_name_scan_bounds(t, tag_name_start(t));
}

proof fn lemma_name_scan_agree(a: Seq<char>, b: Seq<char>, j: int, m: int)
    requires
        m <= a.len(),
        m <= b.len(),
        forall|d: int| 0 <= d < m ==> a[d] == b[d],
        0 <= j <= m,
        name_scan_end(a, j) < m,
    ensures
        name_scan_end(b, j) == name_scan_end(a, j),
    decreases m - j,
{
    lemma_name_scan_bounds(a, j);
    if j < a.len() && spec_is_name_char(a[j]) {
        lemma_name_scan_agree(a, b, j + 1, m);
    }
}

proof fn lemma_attr_scan_agree(a: Seq<char>, b: Seq<char>, k: int, m: int)
    requires
        m <= a.len(),
        m <= b.len(),
        forall|d: int| 0 <= d < m ==> a[d] == b[d],
        0 <= k < m,
        attr_scan(a, k).0 <= m,
        attr_scan(a, k).0 >= 1,
        a[attr_scan(a, k).0 - 1] == '>',
    ensures
        attr_scan(b, k) == attr_scan(a, k),
    decreases m - k,
{
    lemma_attr_scan_bounds(a, k);
    if a[k] == '>' {
        assert(b[k] == '>');
    } else if a[k] == '/' && k + 1 < a.len() && a[k + 1] == '>' {
        assert(attr_scan(a, k).0 == k + 2);
        assert(k + 1 < m);
        assert(b[k] == '/' && b[k + 1] == '>');
        assert(k + 1 < b.len());
    } else {
        assert(attr_scan(a, k) == attr_scan(a, k + 1));
        lemma_attr_scan_bounds(a, k + 1);
        if k + 1 >= m {
            // the scan from k + 1 stays within m, so it stops at m == k + 1,
            // meaning a[k] was the terminating '>': contradiction with this branch
            assert(attr_scan(a, k + 1).0 == k + 1);
            assert(a[k] == '>');
            assert(false);
        }
        if b[k] == '/' && k + 1 < b.len() && b[k + 1] == '>' {
            assert(a[k + 1] == b[k + 1]);
            assert(false);
        }
        lemma_attr_scan_agree(a, b, k + 1, m);
    }
}

/// Two texts that agree on the span of a complete construct scan that
/// construct identically.
pub proof fn lemma_tag_agree(a: Seq<char>, b: Seq<char>)
    requires
        a.len() > 0,
        a[0] == '<',
        tag_complete(a),
        tag_len(a) <= b.len(),
        forall|d: int| 0 <= d < tag_len(a) ==> a[d] == b[d],
    ensures
        tag_len(b) == tag_len(a),
        tag_name(b) == tag_name(a),
        tag_is_close(b) == tag_is_close(a),
        tag_self_closing(b) == tag_self_closing(a),
        tag_complete(b),
        b.len() > 0 && b[0] == '<',
{
    let m = tag_len(a);
    lemma_name_scan_bounds(a, tag_name_start(a));
    lemma_attr_scan_bounds(a, tag_name_end(a));
    // the close marker and name start agree
    assert(m >= 1);
    if tag_is_close(a) {
        assert(a[1] == '/');
        // name start 2 requires m > 1: attr scan begins at name end >= 2 when is_close...
        assert(tag_name_end(a) >= 2);
        assert(m >= 2);
        assert(b[1] == '/');
        assert(tag_is_close(b));
    } else {
        if b.len() >= 2 && b[1] == '/' {
            assert(m >= 2 ==> a[1] == b[1]);
            if m >= 2 {
                assert(tag_is_close(a));
                assert(false);
            } else {
                // m == 1: a == "<"; tag_complete(a) means a[0] == '>', contradiction
                assert(a[m - 1] == '>');
                assert(a[0] == '<');
                assert(false);
            }
        }
        assert(!tag_is_close(b));
    }
    assert(tag_name_start(b) == tag_name_start(a));
    let j = tag_name_start(a);
    let ne = tag_name_end(a);
    // the name scan ends strictly before the end of the construct
    assert(attr_scan(a, ne).0 == m);
    lemma_attr_scan_bounds(a, ne);
    assert(ne <= m);
    if ne == m {
        // the attribute scan consumed at least one character unless ne == len
        if ne < a.len() {
            assert(attr_scan(a, ne).0 > ne);
            assert(false);
        } else {
            assert(attr_scan(a, ne).0 == a.len());
            assert(m == a.len());
            // complete: a[m-1] == '>', but then the name scan would have stopped before
            lemma_name_scan_bounds(a, j);
            assert(ne == a.len());
            assert(ne - 1 >= j ==> spec_is_name_char(a[ne - 1]));
            if ne - 1 >= j {
                assert(a[m - 1] == '>');
                assert(spec_is_name_char('>'));
                assert(false);
            } else {
                // ne == j: name scan did not move, attr scan from j returned len with no '>'
                // but a[m-1] == '>' means attr scan at m-1 would have stopped there
                lemma_attr_scan_hits_gt(a, j, m - 1);
                assert(false);
            }
        }
    }
    assert(ne < m);
    lemma_name_scan_agree(a, b, j, m);
    assert(tag_name_end(b) == ne);
    assert(tag_name(b) =~= tag_name(a));
    lemma_attr_scan_agree(a, b, ne, m);
    assert(tag_len(b) == m);
    assert(tag_self_closing(b) == tag_self_closing(a));
    assert(b[m - 1] == a[m - 1]);
    assert(tag_complete(b));
    assert(b[0] == a[0]);
}

/// If some position `g` at or after `k` holds `>`, the attribute scan from `k`
/// stops at or before `g + 1`.
proof fn lemma_attr_scan_hits_gt(t: Seq<char>, k: int, g: int)
    requires
        0 <= k <= g < t.len(),
        t[g] == '>',
    ensures
        attr_scan(t, k).0 <= g + 1,
    decreases g - k,
{
    if k < g {
        if t[k] == '>' {
        } else if t[k] == '/' && k + 1 < t.len() && t[k + 1] == '>' {
        } else {
            lemma_attr_scan_hits_gt(t, k + 1, g);
        }
    }
}

/// The closing tag written for a stacked name scans back as a complete
/// closing construct with that name, whatever follows it.
pub proof fn lemma_close_tag_shape(name: Seq<char>, x: Seq<char>)
    requires
        name.len() >= 1,
        forall|k: int| 0 <= k < name.len() ==> spec_is_name_char(name[k]),
    ensures
        ({
            let t = seq!['<', '/'] + name + seq!['>'] + x;
            &&& t.len() == name.len() + 3 + x.len()
            &&& t[0] == '<'
            &&& tag_is_close(t)
            &&& tag_name(t) == name
            &&& tag_len(t) == name.len() + 3
            &&& !tag_self_closing(t)
            &&& tag_complete(t)
        }),
{
    let t = seq!['<', '/'] + name + seq!['>'] + x;
    assert(t[0] == '<' && t[1] == '/');
    assert(forall|k: int| 2 <= k < 2 + name.len() ==> t[k] == name[k - 2]);
    assert(t[2 + name.len() as int] == '>');
    lemma_name_scan_stops(t, 2, 2 + name.len() as int);
    assert(tag_name_end(t) == 2 + name.len() as int);
    assert(tag_name(t) =~= name);
    assert(attr_scan(t, 2 + name.len() as int).0 == name.len() + 3);
    assert(tag_len(t) == name.len() + 3);
    assert(t[tag_len(t) - 1] == '>');
}

/// A name scan over a run of name characters ending at a non-name character
/// stops exactly there.
pub proof fn lemma_name_scan_stops(t: Seq<char>, j: int, e: int)
    requires
        0 <= j <= e <= t.len(),
        forall|k: int| j <= k < e ==> spec_is_name_char(t[k]),
        e < t.len() ==> !spec_is_name_char(t[e]),
    ensures
        name_scan_end(t, j) == e,
    decreases e - j,
{
    if j < e {
        lemma_name_scan_stops(t, j + 1, e);
    }
}

/// Everything the executable lexer reports about one construct.
pub struct TagScan {
    /// Index just after the construct, relative to the whole text.
    pub end: usize,
    /// The construct's name.
    pub name: Vec<char>,
    /// Whether it is a closing construct (`</...`).
    pub is_close: bool,
    /// Whether it is self-closing (`.../>`).
    pub self_closing: bool,
}

/// Scans the `<...>` construct starting at index `i` of `s`.
pub fn scan_tag(s: &Vec<char>, i: usize) -> (r: TagScan)
    requires
        i < s@.len(),
        s@[i as int] == '<',
    ensures
        ({
            let t = s@.skip(i as int);
            &&& r.end - i == tag_len(t)
            &&& r.name@ == tag_name(t)
            &&& r.is_close == tag_is_close(t)
            &&& r.self_closing == tag_self_closing(t)
            &&& i < r.end <= s@.len()
        }),
{
    let ghost t = s@.skip(i as int);
    let n = s.len();
    proof {
        lemma_tag_len_bounds(t);
        lemma_name_scan_bounds(t, tag_name_start(t));
        lemma_attr_scan_bounds(t, tag_name_end(t));
    }
    let mut j: usize = i + 1;
    let mut is_close = false;
    if j < n && s[j] == '/' {
        is_close = true;
        j = j + 1;
    }
    proof {
        assert(forall|d: int| 0 <= d < t.len() ==> t[d] == s@[i + d]);
        assert(is_close == tag_is_close(t));
        assert(j - i == tag_name_start(t));
    }
    let mut name: Vec<char> = Vec::new();
    while j < n && crate::chars::is_ascii_alphabetic_char(s[j]) || j < n && '0' <= s[j] && s[j]
        <= '9' || j < n && s[j] == '-'
        invariant
            i + 1 <= j <= n,
            n == s@.len(),
            t == s@.skip(i as int),
            tag_name_start(t) <= j - i <= t.len(),
            name_scan_end(t, j - i) == tag_name_end(t),
            forall|d: int| 0 <= d < t.len() ==> t[d] == s@[i + d],
            tag_name_start(t) <= tag_name_end(t) <= t.len(),
            name@ == t.subrange(tag_name_start(t), j - i),
        decreases n - j,
    {
        name.push(s[j]);
        j = j + 1;
        proof {
            assert(name@ =~= t.subrange(tag_name_start(t), j - i));
        }
    }
    proof {
        assert(j - i == tag_name_end(t));
        assert(name@ =~= tag_name(t));
    }
    // attribute part
    let ghost ar = attr_scan(t, tag_name_end(t));
    loop
        invariant
            i < n,
            i < j <= n,
            n == s@.len(),
            t == s@.skip(i as int),
            tag_name_end(t) <= j - i <= t.len(),
            forall|d: int| 0 <= d < t.len() ==> t[d] == s@[i + d],
            ar == attr_scan(t, tag_name_end(t)),
            attr_scan(t, j - i) == ar,
            1 <= ar.0 <= t.len(),
            name@ == tag_name(t),
            is_close == tag_is_close(t),
            ar.0 == tag_len(t),
            ar.1 == tag_self_closing(t),
        decreases n - j,
    {
        if j >= n {
            proof {
                assert(attr_scan(t, j - i).0 == t.len());
            }
            return TagScan { end: n, name, is_close, self_closing: false };
        }
        let c = s[j];
        if c == '>' {
            proof {
                assert(t[j - i] == '>');
                assert(attr_scan(t, j - i).0 == j - i + 1);
            }
            return TagScan { end: j + 1, name, is_close, self_closing: false };
        } else if c == '/' && j + 1 < n && s[j + 1] == '>' {
            proof {
                assert(t[j - i] == '/' && t[j - i + 1] == '>');
                assert(attr_scan(t, j - i).0 == j - i + 2);
            }
            return TagScan { end: j + 2, name, is_close, self_closing: true };
        } else {
            proof {
                assert(attr_scan(t, j - i) == attr_scan(t, j - i + 1));
            }
            j = j + 1;
        }
    }
}

} // verus!
