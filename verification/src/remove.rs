//! Removal of named tags — opening tag, closing tag and everything between —
//! from an HTML fragment.
//!
//! Tag names are compared case-insensitively.  Self-closing instances of a
//! named tag are removed as well.  Non-matching constructs pass through
//! verbatim, attributes included; a stray matching close tag is dropped on
//! its own (a pop on an empty region is a no-op).

use vstd::prelude::*;
use crate::chars::{
    spec_eq_ci, eq_ignore_ascii_case_chars, str_to_chars, chars_to_string, views_of, str_views,
    push_range,
};
use crate::tags::{
    tag_len, tag_name, tag_is_close, tag_self_closing, tag_complete, lemma_tag_len_bounds,
    lemma_tag_agree, scan_tag,
};

verus! {

/// Whether `n` equals one of `names`, ignoring ASCII case.
pub open spec fn name_matches(n: Seq<char>, names: Seq<Seq<char>>) -> bool {
    exists|k: int| 0 <= k < names.len() && spec_eq_ci(n, #[trigger] names[k])
}

/// The removal scan.  `depth` counts how many matching regions are currently
/// open: text and constructs are emitted only at depth zero, and matching
/// constructs are never emitted.
pub open spec fn remove_rec(s: Seq<char>, names: Seq<Seq<char>>, depth: int) -> Seq<char>
    decreases s.len(),
    via remove_rec_decreases
{
    if s.len() == 0 {
        Seq::empty()
    } else if s[0] != '<' {
        if depth == 0 {
            seq![s[0]] + remove_rec(s.skip(1), names, depth)
        } else {
            remove_rec(s.skip(1), names, depth)
        }
    } else {
        let l = tag_len(s);
        if name_matches(tag_name(s), names) {
            if tag_self_closing(s) {
                remove_rec(s.skip(l), names, depth)
            } else if tag_is_close(s) {
                remove_rec(s.skip(l), names, if depth > 0 {
                    depth - 1
                } else {
                    0
                })
            } else {
                remove_rec(s.skip(l), names, depth + 1)
            }
        } else {
            if depth == 0 {
                s.take(l) + remove_rec(s.skip(l), names, depth)
            } else {
                remove_rec(s.skip(l), names, depth)
            }
        }
    }
}

#[via_fn]
proof fn remove_rec_decreases(s: Seq<char>, names: Seq<Seq<char>>, depth: int) {
    if s.len() > 0 && s[0] == '<' {
        lemma_tag_len_bounds(s);
    }
}

/// What `remove_html_tag` returns on `h` for tag names `names`.
pub open spec fn remove_spec(h: Seq<char>, names: Seq<Seq<char>>) -> Seq<char> {
    remove_rec(h, names, 0)
}

/// Checks whether `name` equals one of `names`, ignoring ASCII case.
fn matches_any(name: &Vec<char>, names: &Vec<Vec<char>>) -> (r: bool)
    ensures
        r == name_matches(name@, views_of(names@)),
{
    let n = names.len();
    let mut k: usize = 0;
    while k < n
        invariant
            k <= n,
            n == names@.len(),
            forall|j: int| 0 <= j < k ==> !spec_eq_ci(name@, views_of(names@)[j]),
        decreases n - k,
    {
        if eq_ignore_ascii_case_chars(name, &names[k]) {
            proof {
                assert(views_of(names@)[k as int] == names@[k as int]@);
            }
            return true;
        }
        proof {
            assert(views_of(names@)[k as int] == names@[k as int]@);
        }
        k = k + 1;
    }
    false
}

/// The removal scan over a character vector.
fn remove_chars(s: &Vec<char>, names: &Vec<Vec<char>>) -> (out: Vec<char>)
    ensures
        out@ == remove_spec(s@, views_of(names@)),
{
    let ghost nv = views_of(names@);
    let ghost goal = remove_spec(s@, nv);
    let n = s.len();
    let mut out: Vec<char> = Vec::new();
    let mut depth: usize = 0;
    let mut i: usize = 0;
    proof {
        assert(s@.skip(0) =~= s@);
        assert(out@ + remove_rec(s@.skip(0), nv, 0) =~= goal);
    }
    while i < n
        invariant
            i <= n,
            n == s@.len(),
            nv == views_of(names@),
            goal == remove_spec(s@, nv),
            goal == out@ + remove_rec(s@.skip(i as int), nv, depth as int),
            depth <= i,
        decreases n - i,
    {
        let ghost t = s@.skip(i as int);
        let ghost d0 = depth as int;
        proof {
            assert(t[0] == s@[i as int]);
        }
        let c = s[i];
        if c == '<' {
            let ts = scan_tag(s, i);
            proof {
                assert(tag_len(t) == ts.end - i);
                assert(t.skip(tag_len(t)) =~= s@.skip(ts.end as int));
                assert(t.take(tag_len(t)) =~= s@.subrange(i as int, ts.end as int));
            }
            if matches_any(&ts.name, names) {
                if ts.self_closing {
                    // dropped whole
                } else if ts.is_close {
                    if depth > 0 {
                        depth = depth - 1;
                    }
                } else {
                    depth = depth + 1;
                }
                proof {
                    assert(depth <= ts.end);
                }
            } else {
                if depth == 0 {
                    push_range(&mut out, s, i, ts.end);
                }
            }
            proof {
                assert(goal =~= out@ + remove_rec(s@.skip(ts.end as int), nv, depth as int));
            }
            i = ts.end;
        } else {
            if depth == 0 {
                out.push(c);
            }
            i = i + 1;
            proof {
                assert(t.skip(1) =~= s@.skip(i as int));
                assert(goal =~= out@ + remove_rec(s@.skip(i as int), nv, depth as int));
            }
        }
    }
    proof {
        assert(s@.skip(n as int) =~= Seq::<char>::empty());
        assert(goal =~= out@);
    }
    out
}

/// Removes every occurrence of the given tags — opening tag, closing tag and
/// the whole region between — from the fragment, case-insensitively;
/// self-closing instances are removed too, and everything else passes
/// through verbatim.
pub fn remove_html_tag(html: &str, tags: &Vec<String>) -> (r: String)
    ensures
        r@ == remove_spec(html@, str_views(tags@)),
{
    let cs = str_to_chars(html);
    let mut names: Vec<Vec<char>> = Vec::new();
    let mut k: usize = 0;
    while k < tags.len()
        invariant
            k <= tags@.len(),
            names@.len() == k as int,
            views_of(names@) == str_views(tags@).take(k as int),
        decreases tags@.len() - k,
    {
        names.push(str_to_chars(tags[k].as_str()));
        proof {
            assert(views_of(names@)[k as int] == names@[k as int]@);
            assert(str_views(tags@)[k as int] == tags@[k as int]@);
            assert(views_of(names@) =~= str_views(tags@).take(k as int + 1));
        }
        k = k + 1;
    }
    proof {
        assert(views_of(names@) =~= str_views(tags@));
    }
    let out = remove_chars(&cs, &names);
    chars_to_string(&out)
}

/// Prepending one complete non-matching construct to any text leaves it
/// untouched by the removal scan.
proof fn lemma_remove_prepend_span(s: Seq<char>, x: Seq<char>, names: Seq<Seq<char>>)
    requires
        s.len() > 0,
        s[0] == '<',
        tag_complete(s),
        !name_matches(tag_name(s), names),
    ensures
        remove_rec(s.take(tag_len(s)) + x, names, 0) == s.take(tag_len(s)) + remove_rec(
            x,
            names,
            0,
        ),
{
    let l = tag_len(s);
    lemma_tag_len_bounds(s);
    let sp = s.take(l) + x;
    assert(forall|d: int| 0 <= d < l ==> sp[d] == s[d]);
    lemma_tag_agree(s, sp);
    assert(sp.take(tag_len(sp)) =~= s.take(l));
    assert(sp.skip(tag_len(sp)) =~= x);
}

/// Idempotence of tag removal, generalized over the starting depth: the scan's
/// output holds no matching construct, so removing again changes nothing.
proof fn lemma_remove_idempotent_rec(s: Seq<char>, names: Seq<Seq<char>>, d: int)
    requires
        d >= 0,
    ensures
        remove_rec(remove_rec(s, names, d), names, 0) == remove_rec(s, names, d),
    decreases s.len(),
{
    let r = remove_rec(s, names, d);
    if s.len() == 0 {
        assert(r =~= Seq::<char>::empty());
    } else if s[0] != '<' {
        let r2 = remove_rec(s.skip(1), names, d);
        lemma_remove_idempotent_rec(s.skip(1), names, d);
        if d == 0 {
            assert(r == seq![s[0]] + r2);
            assert(r[0] == s[0]);
            assert(r.skip(1) =~= r2);
            assert(remove_rec(r, names, 0) == seq![r[0]] + remove_rec(r2, names, 0));
            assert(seq![r[0]] + remove_rec(r2, names, 0) =~= r);
        }
    } else {
        let l = tag_len(s);
        lemma_tag_len_bounds(s);
        if name_matches(tag_name(s), names) {
            let d2 = if tag_self_closing(s) {
                d
            } else if tag_is_close(s) {
                if d > 0 {
                    d - 1
                } else {
                    0
                }
            } else {
                d + 1
            };
            lemma_remove_idempotent_rec(s.skip(l), names, d2);
        } else {
            if d == 0 {
                if tag_complete(s) {
                    let rr = remove_rec(s.skip(l), names, 0);
                    lemma_remove_idempotent_rec(s.skip(l), names, 0);
                    lemma_remove_prepend_span(s, rr, names);
                } else {
                    assert(l == s.len());
                    assert(s.skip(l) =~= Seq::<char>::empty());
                    assert(remove_rec(Seq::<char>::empty(), names, 0) == Seq::<char>::empty());
                    assert(r =~= s.take(l));
                    assert(s.take(l) =~= s);
                    assert(remove_rec(r, names, 0) == remove_rec(s, names, 0));
                    assert(remove_rec(s, names, 0) == s.take(l) + remove_rec(
                        Seq::<char>::empty(),
                        names,
                        0,
                    ));
                    assert(s.take(l) + remove_rec(Seq::<char>::empty(), names, 0) =~= r);
                }
            } else {
                lemma_remove_idempotent_rec(s.skip(l), names, d);
            }
        }
    }
}

/// Idempotence of tag removal: removing the same tags twice returns the same
/// fragment as removing them once.
pub proof fn lemma_remove_idempotent(h: Seq<char>, names: Seq<Seq<char>>)
    ensures
        remove_spec(remove_spec(h, names), names) == remove_spec(h, names),
{
    lemma_remove_idempotent_rec(h, names, 0);
}

} // verus!
