//! Discovery of referenced asset paths: every value written as `src="..."`
//! in a fragment, in first-seen order, excluding inline data URIs (values
//! beginning with `data:`).

use vstd::prelude::*;
use crate::chars::{spec_match_at, match_at, str_to_chars, chars_to_string, str_views};

verus! {

/// The characters of the `src="` marker.
pub open spec fn src_marker() -> Seq<char> {
    seq!['s', 'r', 'c', '=', '"']
}

/// The characters of the inline-data scheme prefix.
pub open spec fn data_prefix() -> Seq<char> {
    seq!['d', 'a', 't', 'a', ':']
}

/// Whether a value begins with the inline-data scheme prefix.
pub open spec fn starts_with_data(v: Seq<char>) -> bool {
    v.len() >= 5 && v.subrange(0, 5) == data_prefix()
}

/// Index of the first `"` in `s`, or `s.len()` when there is none.
pub open spec fn find_quote(s: Seq<char>) -> int
    decreases s.len(),
{
    if s.len() == 0 {
        0
    } else if s[0] == '"' {
        0
    } else {
        1 + find_quote(s.skip(1))
    }
}

proof fn lemma_find_quote_bounds(s: Seq<char>)
    ensures
        0 <= find_quote(s) <= s.len(),
        find_quote(s) < s.len() ==> s[find_quote(s)] == '"',
        forall|k: int| 0 <= k < find_quote(s) ==> s[k] != '"',
    decreases s.len(),
{
    if s.len() > 0 && s[0] != '"' {
        lemma_find_quote_bounds(s.skip(1));
        assert forall|k: int| 0 <= k < find_quote(s) implies s[k] != '"' by {
            if k >= 1 {
                assert(s.skip(1)[k - 1] == s[k]);
            }
        }
    }
}

/// The reference scan: at each occurrence of `src="` capture the non-empty
/// run of characters up to the next `"`; a capture beginning with `data:` is
/// left out; scanning resumes after the closing quote, and elsewhere moves
/// one character at a time.
pub open spec fn ref_paths_rec(s: Seq<char>) -> Seq<Seq<char>>
    decreases s.len(),
    via ref_paths_rec_decreases
{
    if s.len() == 0 {
        Seq::empty()
    } else if spec_match_at(s, src_marker(), 0) {
        let rest = s.skip(5);
        let q = find_quote(rest);
        if 0 < q < rest.len() {
            let v = rest.subrange(0, q);
            if starts_with_data(v) {
                ref_paths_rec(rest.skip(q + 1))
            } else {
                seq![v] + ref_paths_rec(rest.skip(q + 1))
            }
        } else {
            ref_paths_rec(s.skip(1))
        }
    } else {
        ref_paths_rec(s.skip(1))
    }
}

#[via_fn]
proof fn ref_paths_rec_decreases(s: Seq<char>) {
    if s.len() > 0 && spec_match_at(s, src_marker(), 0) {
        lemma_find_quote_bounds(s.skip(5));
    }
}

/// What `get_ref_paths` returns on `h`.
pub open spec fn ref_paths_spec(h: Seq<char>) -> Seq<Seq<char>> {
    ref_paths_rec(h)
}

/// Reference extraction excludes inline data: no returned value begins with
/// `data:`, for any input.
pub proof fn lemma_ref_paths_no_inline_data(h: Seq<char>)
    ensures
        forall|k: int|
            0 <= k < ref_paths_spec(h).len() ==> !starts_with_data(#[trigger] ref_paths_spec(h)[k]),
    decreases h.len(),
{
    if h.len() == 0 {
    } else if spec_match_at(h, src_marker(), 0) {
        let rest = h.skip(5);
        let q = find_quote(rest);
        lemma_find_quote_bounds(rest);
        if 0 < q < rest.len() {
            let v = rest.subrange(0, q);
            let tail = ref_paths_rec(rest.skip(q + 1));
            lemma_ref_paths_no_inline_data(rest.skip(q + 1));
            if starts_with_data(v) {
                assert(ref_paths_spec(h) == tail);
                assert forall|k: int|
                    0 <= k < ref_paths_spec(h).len() implies !starts_with_data(
                    #[trigger] ref_paths_spec(h)[k],
                ) by {
                    assert(ref_paths_spec(h)[k] == ref_paths_spec(rest.skip(q + 1))[k]);
                }
            } else {
                assert forall|k: int|
                    0 <= k < ref_paths_spec(h).len() implies !starts_with_data(
                    #[trigger] ref_paths_spec(h)[k],
                ) by {
                    if k == 0 {
                        assert(ref_paths_spec(h)[0] == v);
                    } else {
                        assert(ref_paths_spec(h)[k] == ref_paths_spec(rest.skip(q + 1))[k - 1]);
                    }
                }
            }
        } else {
            lemma_ref_paths_no_inline_data(h.skip(1));
            assert forall|k: int|
                0 <= k < ref_paths_spec(h).len() implies !starts_with_data(
                #[trigger] ref_paths_spec(h)[k],
            ) by {
                assert(ref_paths_spec(h)[k] == ref_paths_spec(h.skip(1))[k]);
            }
        }
    } else {
        lemma_ref_paths_no_inline_data(h.skip(1));
        assert forall|k: int|
            0 <= k < ref_paths_spec(h).len() implies !starts_with_data(
            #[trigger] ref_paths_spec(h)[k],
        ) by {
            assert(ref_paths_spec(h)[k] == ref_paths_spec(h.skip(1))[k]);
        }
    }
}

/// Checks the `data:` prefix on a capture.
fn is_data_value(v: &Vec<char>) -> (r: bool)
    ensures
        r == starts_with_data(v@),
{
    if v.len() < 5 {
        return false;
    }
    let r = v[0] == 'd' && v[1] == 'a' && v[2] == 't' && v[3] == 'a' && v[4] == ':';
    proof {
        if r {
            assert(v@.subrange(0, 5) =~= data_prefix());
        } else {
            assert(v@.subrange(0, 5)[0] == v@[0]);
            assert(v@.subrange(0, 5)[1] == v@[1]);
            assert(v@.subrange(0, 5)[2] == v@[2]);
            assert(v@.subrange(0, 5)[3] == v@[3]);
            assert(v@.subrange(0, 5)[4] == v@[4]);
        }
    }
    r
}

/// Collects every `src="..."` attribute value of the fragment, in first-seen
/// order, except values that begin with the inline-data scheme prefix.
pub fn get_ref_paths(html: &str) -> (r: Vec<String>)
    ensures
        str_views(r@) == ref_paths_spec(html@),
        forall|k: int| 0 <= k < r@.len() ==> !starts_with_data(#[trigger] r@[k]@),
{
    let s = str_to_chars(html);
    let marker: Vec<char> = vec!['s', 'r', 'c', '=', '"'];
    proof {
        assert(marker@ =~= src_marker());
        assert(s@.skip(0) =~= s@);
    }
    let n = s.len();
    let mut out: Vec<String> = Vec::new();
    let mut i: usize = 0;
    let ghost goal = ref_paths_spec(html@);
    proof {
        assert(str_views(out@) =~= Seq::<Seq<char>>::empty());
        assert(str_views(out@) + ref_paths_rec(s@.skip(0)) =~= goal);
    }
    while i < n
        invariant
            i <= n,
            n == s@.len(),
            s@ == html@,
            marker@ == src_marker(),
            goal == ref_paths_spec(html@),
            goal == str_views(out@) + ref_paths_rec(s@.skip(i as int)),
        decreases n - i,
    {
        let ghost t = s@.skip(i as int);
        if match_at(&s, &marker, i) {
            proof {
                assert(t.subrange(0, 5) =~= s@.subrange(i as int, i as int + 5));
                assert(spec_match_at(t, src_marker(), 0));
            }
            // find the closing quote after the marker
            let ghost rest = t.skip(5);
            let start = i + 5;
            let mut p: usize = start;
            proof {
                assert(rest =~= s@.skip(start as int));
                lemma_find_quote_bounds(rest);
                assert(find_quote(s@.skip(start as int)) == (start - start) + find_quote(
                    s@.skip(start as int),
                ));
            }
            while p < n && s[p] != '"'
                invariant
                    start <= p <= n,
                    n == s@.len(),
                    rest == s@.skip(start as int),
                    find_quote(rest) == (p - start) + find_quote(s@.skip(p as int)),
                decreases n - p,
            {
                proof {
                    assert(s@.skip(p as int)[0] == s@[p as int]);
                    assert(s@.skip(p as int).skip(1) =~= s@.skip(p as int + 1));
                }
                p = p + 1;
            }
            proof {
                if p < n {
                    assert(s@.skip(p as int)[0] == s@[p as int]);
                    assert(find_quote(s@.skip(p as int)) == 0);
                } else {
                    assert(s@.skip(p as int) =~= Seq::<char>::empty());
                }
                assert(find_quote(rest) == p - start);
            }
            if p < n && p > start {
                // non-empty capture with a closing quote
                let mut v: Vec<char> = Vec::new();
                crate::chars::push_range(&mut v, &s, start, p);
                proof {
                    assert(v@ =~= rest.subrange(0, find_quote(rest)));
                    assert(rest.skip(find_quote(rest) + 1) =~= s@.skip(p as int + 1));
                }
                if !is_data_value(&v) {
                    let ghost out0 = str_views(out@);
                    let value = chars_to_string(&v);
                    out.push(value);
                    proof {
                        assert(str_views(out@) =~= out0 + seq![v@]);
                        assert((out0 + seq![v@]) + ref_paths_rec(s@.skip(p as int + 1)) =~= out0 + (
                        seq![v@] + ref_paths_rec(s@.skip(p as int + 1))));
                    }
                }
                i = p + 1;
            } else {
                proof {
                    assert(t.skip(1) =~= s@.skip(i as int + 1));
                }
                i = i + 1;
            }
        } else {
            proof {
                if t.len() >= 5 {
                    assert(t.subrange(0, 5) =~= s@.subrange(i as int, i as int + 5));
                }
                assert(!spec_match_at(t, src_marker(), 0));
                assert(t.skip(1) =~= s@.skip(i as int + 1));
            }
            i = i + 1;
        }
    }
    proof {
        assert(s@.skip(n as int) =~= Seq::<char>::empty());
        assert(goal =~= str_views(out@));
        lemma_ref_paths_no_inline_data(html@);
        assert forall|k: int| 0 <= k < out@.len() implies !starts_with_data(#[trigger] out@[k]@) by {
            assert(str_views(out@)[k] == out@[k]@);
        }
    }
    out
}

} // verus!
