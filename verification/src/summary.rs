//! Length-bounded, tag-balanced truncation of an HTML fragment.
//!
//! `extract_html_summary` copies the fragment while counting non-whitespace
//! characters outside `<...>` constructs against a budget, and tracks the
//! currently open tags on a stack.  When the budget is exhausted at a text
//! character, the output is terminated with a literal ellipsis marker and
//! explicit closing tags for everything still open, innermost first, so the
//! returned fragment is always well-nested.  A fragment shorter than the
//! budget is returned whole.

use vstd::prelude::*;
use crate::chars::{
    spec_is_whitespace, is_whitespace_char, str_to_chars, chars_to_string, views_of, push_range,
};
use crate::tags::{
    tag_len, tag_name, tag_is_close, tag_self_closing, tag_complete, spec_is_name_char,
    lemma_tag_len_bounds, lemma_tag_name_chars, lemma_tag_agree, lemma_close_tag_shape, scan_tag,
};

verus! {

/// A well-formed stacked tag name: non-empty and made of name characters.
pub open spec fn wf_name(n: Seq<char>) -> bool {
    n.len() >= 1 && (forall|d: int| 0 <= d < n.len() ==> spec_is_name_char(#[trigger] n[d]))
}

/// Every name on the stack is well formed.
pub open spec fn wf_stack(st: Seq<Seq<char>>) -> bool {
    forall|k: int| 0 <= k < st.len() ==> wf_name(#[trigger] st[k])
}

/// How the construct at the head of `t` transforms the stack of open tags:
/// self-closing and nameless constructs leave it alone, a closing construct
/// pops (a pop on an empty stack is a no-op), an opening construct pushes.
pub open spec fn tag_step_stack(st: Seq<Seq<char>>, t: Seq<char>) -> Seq<Seq<char>> {
    if tag_self_closing(t) || tag_name(t).len() == 0 {
        st
    } else if tag_is_close(t) {
        if st.len() > 0 {
            st.drop_last()
        } else {
            st
        }
    } else {
        st.push(tag_name(t))
    }
}

/// The stack of open tags after scanning all of `s`, starting from `st`.
pub open spec fn stack_after(s: Seq<char>, st: Seq<Seq<char>>) -> Seq<Seq<char>>
    decreases s.len(),
    via stack_after_decreases
{
    if s.len() == 0 {
        st
    } else if s[0] != '<' {
        stack_after(s.skip(1), st)
    } else {
        stack_after(s.skip(tag_len(s)), tag_step_stack(st, s))
    }
}

#[via_fn]
proof fn stack_after_decreases(s: Seq<char>, st: Seq<Seq<char>>) {
    if s.len() > 0 && s[0] == '<' {
        lemma_tag_len_bounds(s);
    }
}

/// A fragment is balanced when scanning it from an empty stack ends with an
/// empty stack.
pub open spec fn is_balanced(s: Seq<char>) -> bool {
    stack_after(s, Seq::empty()) == Seq::<Seq<char>>::empty()
}

/// The number of non-whitespace characters outside `<...>` constructs.
pub open spec fn visible_count(s: Seq<char>) -> int
    decreases s.len(),
    via visible_count_decreases
{
    if s.len() == 0 {
        0
    } else if s[0] != '<' {
        (if spec_is_whitespace(s[0]) {
            0int
        } else {
            1int
        }) + visible_count(s.skip(1))
    } else {
        visible_count(s.skip(tag_len(s)))
    }
}

#[via_fn]
proof fn visible_count_decreases(s: Seq<char>) {
    if s.len() > 0 && s[0] == '<' {
        lemma_tag_len_bounds(s);
    }
}

/// The closing tags written for a stack of open names, innermost first.
pub open spec fn close_tags(st: Seq<Seq<char>>) -> Seq<char>
    decreases st.len(),
{
    if st.len() == 0 {
        Seq::empty()
    } else {
        seq!['<', '/'] + st.last() + seq!['>'] + close_tags(st.drop_last())
    }
}

/// Result of the truncation scan: the output text and whether the budget ran
/// out before the fragment ended.
pub struct SummaryOut {
    pub out: Seq<char>,
    pub truncated: bool,
}

/// The truncation scan itself: `<...>` constructs are copied verbatim, text
/// characters are copied while the budget lasts (whitespace is free), and a
/// text character arriving with no budget left ends the output with `...`
/// and the closing tags of everything still open.
pub open spec fn summary_rec(s: Seq<char>, budget: int, st: Seq<Seq<char>>) -> SummaryOut
    decreases s.len(),
    via summary_rec_decreases
{
    if s.len() == 0 {
        SummaryOut { out: Seq::empty(), truncated: false }
    } else if s[0] == '<' {
        let l = tag_len(s);
        let r = summary_rec(s.skip(l), budget, tag_step_stack(st, s));
        SummaryOut { out: s.take(l) + r.out, truncated: r.truncated }
    } else if budget > 0 {
        let nb = if spec_is_whitespace(s[0]) {
            budget
        } else {
            budget - 1
        };
        let r = summary_rec(s.skip(1), nb, st);
        SummaryOut { out: seq![s[0]] + r.out, truncated: r.truncated }
    } else {
        SummaryOut { out: seq!['.', '.', '.'] + close_tags(st), truncated: true }
    }
}

#[via_fn]
proof fn summary_rec_decreases(s: Seq<char>, budget: int, st: Seq<Seq<char>>) {
    if s.len() > 0 && s[0] == '<' {
        lemma_tag_len_bounds(s);
    }
}

/// What `extract_html_summary` returns on `h` with budget `n`.
pub open spec fn summary_spec(h: Seq<char>, n: int) -> SummaryOut {
    summary_rec(h, n, Seq::empty())
}

/// Appends the closing tags for `stack`, innermost (last pushed) first.
fn push_close_tags(out: &mut Vec<char>, stack: &Vec<Vec<char>>)
    ensures
        final(out)@ == old(out)@ + close_tags(views_of(stack@)),
{
    let ghost views = views_of(stack@);
    let mut k: usize = stack.len();
    proof {
        assert(views.take(k as int) =~= views);
    }
    while k > 0
        invariant
            k <= stack@.len(),
            views == views_of(stack@),
            old(out)@ + close_tags(views) == out@ + close_tags(views.take(k as int)),
        decreases k,
    {
        let ghost out0 = out@;
        k = k - 1;
        out.push('<');
        out.push('/');
        push_range(out, &stack[k], 0, stack[k].len());
        out.push('>');
        proof {
            let tk = views.take(k as int + 1);
            assert(tk.last() == views[k as int]);
            assert(tk.drop_last() =~= views.take(k as int));
            assert(stack@[k as int]@ == views[k as int]);
            assert(stack@[k as int]@.subrange(0, stack@[k as int]@.len() as int) =~= views[k as int]);
            assert(out@ =~= out0 + (seq!['<', '/'] + views[k as int] + seq!['>']));
            assert(close_tags(tk) == seq!['<', '/'] + views[k as int] + seq!['>'] + close_tags(
                views.take(k as int)));
            assert(out0 + (seq!['<', '/'] + views[k as int] + seq!['>']) + close_tags(
                views.take(k as int)) =~= out0 + close_tags(tk));
        }
    }
    proof {
        assert(views.take(0) =~= Seq::<Seq<char>>::empty());
        assert(out@ + close_tags(views.take(0)) =~= out@);
    }
}

/// The truncation scan over a character vector.
fn summary_chars(s: &Vec<char>, max_text_len: usize) -> (out: Vec<char>)
    ensures
        out@ == summary_spec(s@, max_text_len as int).out,
{
    let n = s.len();
    let mut out: Vec<char> = Vec::new();
    let mut remaining: usize = max_text_len;
    let mut stack: Vec<Vec<char>> = Vec::new();
    let mut i: usize = 0;
    let ghost goal = summary_spec(s@, max_text_len as int);
    proof {
        assert(s@.skip(0) =~= s@);
        assert(views_of(stack@) =~= Seq::<Seq<char>>::empty());
        assert(out@ + summary_rec(s@.skip(0), remaining as int, views_of(stack@)).out =~= goal.out);
    }
    loop
        invariant
            i <= n,
            n == s@.len(),
            remaining <= max_text_len,
            goal == summary_spec(s@, max_text_len as int),
            goal.out == out@ + summary_rec(s@.skip(i as int), remaining as int, views_of(stack@)).out,
        decreases n - i,
    {
        if i >= n {
            proof {
                assert(s@.skip(i as int) =~= Seq::<char>::empty());
                assert(goal.out =~= out@);
            }
            return out;
        }
        let ghost t = s@.skip(i as int);
        let ghost st0 = views_of(stack@);
        let ghost rem0 = remaining as int;
        proof {
            assert(t[0] == s@[i as int]);
        }
        let c = s[i];
        if c == '<' {
            let ts = scan_tag(s, i);
            push_range(&mut out, s, i, ts.end);
            let pushed_close = ts.is_close;
            if !ts.self_closing && ts.name.len() > 0 {
                if ts.is_close {
                    let _ = stack.pop();
                } else {
                    stack.push(ts.name);
                }
            }
            proof {
                let l = tag_len(t);
                assert(l == ts.end - i);
                assert(t.take(l) =~= s@.subrange(i as int, ts.end as int));
                assert(t.skip(l) =~= s@.skip(ts.end as int));
                assert(views_of(stack@) =~= tag_step_stack(st0, t));
                assert(summary_rec(t, rem0, st0).out == t.take(l) + summary_rec(
                    t.skip(l),
                    rem0,
                    tag_step_stack(st0, t),
                ).out);
                assert(goal.out =~= out@ + summary_rec(
                    s@.skip(ts.end as int),
                    remaining as int,
                    views_of(stack@),
                ).out);
            }
            i = ts.end;
        } else if remaining > 0 {
            out.push(c);
            if !is_whitespace_char(c) {
                remaining = remaining - 1;
            }
            i = i + 1;
            proof {
                assert(t.skip(1) =~= s@.skip(i as int));
                assert(summary_rec(t, rem0, st0).out == seq![t[0]] + summary_rec(
                    t.skip(1),
                    remaining as int,
                    st0,
                ).out);
                assert(goal.out =~= out@ + summary_rec(
                    s@.skip(i as int),
                    remaining as int,
                    views_of(stack@),
                ).out);
            }
        } else {
            out.push('.');
            out.push('.');
            out.push('.');
            push_close_tags(&mut out, &stack);
            proof {
                assert(summary_rec(t, rem0, st0).out == seq!['.', '.', '.'] + close_tags(st0));
                assert(goal.out =~= out@);
            }
            return out;
        }
    }
}

proof fn lemma_wf_stack_step(st: Seq<Seq<char>>, s: Seq<char>)
    requires
        wf_stack(st),
        s.len() > 0,
    ensures
        wf_stack(tag_step_stack(st, s)),
{
    lemma_tag_name_chars(s);
    let st1 = tag_step_stack(st, s);
    assert forall|k: int| 0 <= k < st1.len() implies wf_name(#[trigger] st1[k]) by {
        if tag_self_closing(s) || tag_name(s).len() == 0 {
            assert(st1[k] == st[k]);
        } else if tag_is_close(s) {
            assert(st1[k] == st[k]);
        } else {
            if k < st.len() {
                assert(st1[k] == st[k]);
            } else {
                assert(st1[k] == tag_name(s));
            }
        }
    }
}

/// Scanning the closing tags written for a stack pops the whole stack.
proof fn lemma_close_tags_stack(st: Seq<Seq<char>>)
    requires
        wf_stack(st),
    ensures
        stack_after(close_tags(st), st) == Seq::<Seq<char>>::empty(),
    decreases st.len(),
{
    if st.len() == 0 {
        assert(close_tags(st) =~= Seq::<char>::empty());
    } else {
        let name = st.last();
        let rest = close_tags(st.drop_last());
        assert(wf_name(name));
        lemma_close_tag_shape(name, rest);
        let t = seq!['<', '/'] + name + seq!['>'] + rest;
        assert(close_tags(st) == t);
        assert(tag_step_stack(st, t) == st.drop_last());
        assert(t.skip(tag_len(t)) =~= rest);
        assert(wf_stack(st.drop_last())) by {
            assert forall|k: int| 0 <= k < st.drop_last().len() implies wf_name(
                #[trigger] st.drop_last()[k],
            ) by {
                assert(st.drop_last()[k] == st[k]);
            }
        }
        lemma_close_tags_stack(st.drop_last());
        assert(stack_after(t, st) == stack_after(rest, st.drop_last()));
    }
}

/// The closing tags written for a stack hold no visible characters.
proof fn lemma_close_tags_visible(st: Seq<Seq<char>>)
    requires
        wf_stack(st),
    ensures
        visible_count(close_tags(st)) == 0,
    decreases st.len(),
{
    if st.len() == 0 {
        assert(close_tags(st) =~= Seq::<char>::empty());
    } else {
        let name = st.last();
        let rest = close_tags(st.drop_last());
        assert(wf_name(name));
        lemma_close_tag_shape(name, rest);
        let t = seq!['<', '/'] + name + seq!['>'] + rest;
        assert(close_tags(st) == t);
        assert(t.skip(tag_len(t)) =~= rest);
        assert(wf_stack(st.drop_last())) by {
            assert forall|k: int| 0 <= k < st.drop_last().len() implies wf_name(
                #[trigger] st.drop_last()[k],
            ) by {
                assert(st.drop_last()[k] == st[k]);
            }
        }
        lemma_close_tags_visible(st.drop_last());
        assert(visible_count(t) == visible_count(rest));
    }
}

/// The scan invariant behind the tag-balance law: the stack obtained by
/// scanning the truncation's output equals the empty stack when truncation
/// happened, and the stack of the whole input otherwise.
pub proof fn lemma_summary_stack(s: Seq<char>, budget: int, st: Seq<Seq<char>>)
    requires
        wf_stack(st),
    ensures
        ({
            let r = summary_rec(s, budget, st);
            stack_after(r.out, st) == if r.truncated {
                Seq::<Seq<char>>::empty()
            } else {
                stack_after(s, st)
            }
        }),
    decreases s.len(),
{
    let r = summary_rec(s, budget, st);
    if s.len() == 0 {
        assert(r.out =~= Seq::<char>::empty());
    } else if s[0] == '<' {
        let l = tag_len(s);
        lemma_tag_len_bounds(s);
        let st1 = tag_step_stack(st, s);
        lemma_wf_stack_step(st, s);
        let r2 = summary_rec(s.skip(l), budget, st1);
        lemma_summary_stack(s.skip(l), budget, st1);
        if tag_complete(s) {
            assert(r.out == s.take(l) + r2.out);
            assert(forall|d: int| 0 <= d < l ==> r.out[d] == s[d]);
            lemma_tag_agree(s, r.out);
            assert(tag_step_stack(st, r.out) == st1);
            assert(r.out.skip(tag_len(r.out)) =~= r2.out);
            assert(stack_after(r.out, st) == stack_after(r2.out, st1));
        } else {
            assert(l == s.len());
            assert(s.skip(l) =~= Seq::<char>::empty());
            assert(r2.out =~= Seq::<char>::empty());
            assert(r.out =~= s);
        }
    } else if budget > 0 {
        let nb = if spec_is_whitespace(s[0]) {
            budget
        } else {
            budget - 1
        };
        let r2 = summary_rec(s.skip(1), nb, st);
        lemma_summary_stack(s.skip(1), nb, st);
        assert(r.out == seq![s[0]] + r2.out);
        assert(r.out[0] == s[0]);
        assert(r.out.skip(1) =~= r2.out);
        assert(stack_after(r.out, st) == stack_after(r2.out, st));
    } else {
        let ct = close_tags(st);
        let o = r.out;
        assert(o == seq!['.', '.', '.'] + ct);
        let a1 = seq!['.', '.'] + ct;
        let a2 = seq!['.'] + ct;
        assert(o[0] == '.' && o.skip(1) =~= a1);
        assert(a1[0] == '.' && a1.skip(1) =~= a2);
        assert(a2[0] == '.' && a2.skip(1) =~= ct);
        lemma_close_tags_stack(st);
        assert(stack_after(o, st) == stack_after(a1, st));
        assert(stack_after(a1, st) == stack_after(a2, st));
        assert(stack_after(a2, st) == stack_after(ct, st));
    }
}

/// The count invariant behind the length-bound law: when the budget ran out
/// the output holds exactly `budget` visible characters plus the three-dot
/// marker; otherwise it holds exactly the input's visible characters, which
/// then fit the budget.
pub proof fn lemma_summary_visible(s: Seq<char>, budget: int, st: Seq<Seq<char>>)
    requires
        budget >= 0,
        wf_stack(st),
    ensures
        ({
            let r = summary_rec(s, budget, st);
            &&& r.truncated ==> visible_count(r.out) == budget + 3
            &&& !r.truncated ==> visible_count(r.out) == visible_count(s) && visible_count(s)
                <= budget
        }),
    decreases s.len(),
{
    let r = summary_rec(s, budget, st);
    if s.len() == 0 {
        assert(r.out =~= Seq::<char>::empty());
    } else if s[0] == '<' {
        let l = tag_len(s);
        lemma_tag_len_bounds(s);
        let st1 = tag_step_stack(st, s);
        lemma_wf_stack_step(st, s);
        let r2 = summary_rec(s.skip(l), budget, st1);
        lemma_summary_visible(s.skip(l), budget, st1);
        if tag_complete(s) {
            assert(r.out == s.take(l) + r2.out);
            assert(forall|d: int| 0 <= d < l ==> r.out[d] == s[d]);
            lemma_tag_agree(s, r.out);
            assert(r.out.skip(tag_len(r.out)) =~= r2.out);
            assert(visible_count(r.out) == visible_count(r2.out));
            assert(visible_count(s) == visible_count(s.skip(l)));
        } else {
            assert(l == s.len());
            assert(s.skip(l) =~= Seq::<char>::empty());
            assert(r2.out =~= Seq::<char>::empty());
            assert(r.out =~= s);
            assert(visible_count(s) == visible_count(s.skip(l)));
        }
    } else if budget > 0 {
        let nb = if spec_is_whitespace(s[0]) {
            budget
        } else {
            budget - 1
        };
        let r2 = summary_rec(s.skip(1), nb, st);
        lemma_summary_visible(s.skip(1), nb, st);
        assert(r.out == seq![s[0]] + r2.out);
        assert(r.out[0] == s[0]);
        assert(r.out.skip(1) =~= r2.out);
        assert(visible_count(r.out) == (if spec_is_whitespace(s[0]) {
            0int
        } else {
            1int
        }) + visible_count(r2.out));
    } else {
        let ct = close_tags(st);
        let o = r.out;
        assert(o == seq!['.', '.', '.'] + ct);
        let a1 = seq!['.', '.'] + ct;
        let a2 = seq!['.'] + ct;
        assert(o[0] == '.' && o.skip(1) =~= a1);
        assert(a1[0] == '.' && a1.skip(1) =~= a2);
        assert(a2[0] == '.' && a2.skip(1) =~= ct);
        lemma_close_tags_visible(st);
        assert(visible_count(o) == 1 + visible_count(a1));
        assert(visible_count(a1) == 1 + visible_count(a2));
        assert(visible_count(a2) == 1 + visible_count(ct));
    }
}

/// Tag balance: the truncated fragment leaves no tag open.  For every
/// fragment `h` and budget `n`, scanning `extract_html_summary(h, n)` from an
/// empty stack ends with an empty stack, provided the input itself was
/// balanced or the budget actually ran out (an unbalanced input returned
/// whole stays unbalanced).
pub proof fn lemma_truncate_tag_balance(h: Seq<char>, n: int)
    requires
        is_balanced(h) || summary_spec(h, n).truncated,
    ensures
        is_balanced(summary_spec(h, n).out),
{
    lemma_summary_stack(h, n, Seq::empty());
}

/// Truncation length bound: not counting the appended three-dot marker, the
/// visible characters of `extract_html_summary(h, n)` number at most `n`, and
/// exactly `n` whenever `h` holds at least `n` visible characters.
pub proof fn lemma_truncate_length_bound(h: Seq<char>, n: int)
    requires
        n >= 0,
    ensures
        summary_spec(h, n).truncated ==> visible_count(summary_spec(h, n).out) == n + 3,
        !summary_spec(h, n).truncated ==> visible_count(summary_spec(h, n).out) == visible_count(h)
            && visible_count(h) <= n,
        visible_count(h) > n ==> summary_spec(h, n).truncated,
        visible_count(h) >= n ==> visible_count(summary_spec(h, n).out) == n + (
        if summary_spec(h, n).truncated {
            3int
        } else {
            0int
        }),
{
    lemma_summary_visible(h, n, Seq::empty());
}

/// Extracts a summary of at most `max_text_len` visible (non-whitespace,
/// non-markup) characters from an HTML fragment without breaking its tag
/// structure.
pub fn extract_html_summary(html: &str, max_text_len: usize) -> (r: String)
    ensures
        r@ == summary_spec(html@, max_text_len as int).out,
{
    let cs = str_to_chars(html);
    let out = summary_chars(&cs, max_text_len);
    chars_to_string(&out)
}

} // verus!
