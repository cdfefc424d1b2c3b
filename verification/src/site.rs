//! The site snapshot: one distinguished index post plus all other posts,
//! sorted by creation instant, newest first, with a stable order among posts
//! created at the same instant.

use vstd::prelude::*;

verus! {

/// A fully processed document ready for rendering.  Instants are Unix
/// timestamps in seconds.
#[derive(Clone)]
pub struct PostData {
    pub title: String,
    pub slug: String,
    pub summary_html: String,
    pub content_html: String,
    pub created: i64,
    pub updated: i64,
}

impl Default for PostData {
    /// An empty untitled post at the epoch instant.
    fn default() -> (r: PostData)
        ensures
            r.title@ == Seq::<char>::empty(),
            r.slug@ == Seq::<char>::empty(),
            r.summary_html@ == Seq::<char>::empty(),
            r.content_html@ == Seq::<char>::empty(),
            r.created == 0,
            r.updated == 0,
    {
        PostData {
            title: String::new(),
            slug: String::new(),
            summary_html: String::new(),
            content_html: String::new(),
            created: 0,
            updated: 0,
        }
    }
}

/// An immutable snapshot of the whole site.
pub struct Site {
    pub index: PostData,
    pub posts: Vec<PostData>,
}

/// Insertion into a sequence already sorted by `created` descending: the new
/// post goes after every post created at the same instant or later.
pub open spec fn insert_desc(s: Seq<PostData>, p: PostData) -> Seq<PostData>
    decreases s.len(),
{
    if s.len() == 0 {
        seq![p]
    } else if s[0].created >= p.created {
        seq![s[0]] + insert_desc(s.skip(1), p)
    } else {
        seq![p] + s
    }
}

/// Stable sort by `created` descending, processing posts in input order.
pub open spec fn sort_desc(s: Seq<PostData>) -> Seq<PostData>
    decreases s.len(),
{
    if s.len() == 0 {
        s
    } else {
        insert_desc(sort_desc(s.drop_last()), s.last())
    }
}

/// Sorted by `created`, newest first.
pub open spec fn sorted_desc(s: Seq<PostData>) -> bool {
    forall|i: int, j: int| 0 <= i <= j < s.len() ==> s[i].created >= s[j].created
}

/// The subsequence of posts created at instant `t`, in order.
pub open spec fn with_created(s: Seq<PostData>, t: i64) -> Seq<PostData>
    decreases s.len(),
{
    if s.len() == 0 {
        Seq::empty()
    } else if s[0].created == t {
        seq![s[0]] + with_created(s.skip(1), t)
    } else {
        with_created(s.skip(1), t)
    }
}

proof fn lemma_insert_desc_len(s: Seq<PostData>, p: PostData)
    ensures
        insert_desc(s, p).len() == s.len() + 1,
    decreases s.len(),
{
    if s.len() > 0 && s[0].created >= p.created {
        lemma_insert_desc_len(s.skip(1), p);
    }
}

proof fn lemma_insert_desc_sorted(s: Seq<PostData>, p: PostData)
    requires
        sorted_desc(s),
    ensures
        sorted_desc(insert_desc(s, p)),
    decreases s.len(),
{
    lemma_insert_desc_len(s, p);
    let r = insert_desc(s, p);
    if s.len() == 0 {
    } else if s[0].created >= p.created {
        assert(sorted_desc(s.skip(1))) by {
            assert(forall|i: int, j: int|
                0 <= i <= j < s.skip(1).len() ==> s.skip(1)[i] == s[i + 1] && s.skip(1)[j] == s[j
                    + 1]);
        }
        lemma_insert_desc_sorted(s.skip(1), p);
        let r2 = insert_desc(s.skip(1), p);
        lemma_insert_desc_len(s.skip(1), p);
        // head of r2 is either s[1] or p, both at most s[0].created
        assert forall|i: int, j: int| 0 <= i <= j < r.len() implies r[i].created >= r[j].created by {
            if i == 0 {
                if j > 0 {
                    assert(r[j] == r2[j - 1]);
                    // every element of r2 is either p or an element of s.skip(1)
                    lemma_insert_desc_elems(s.skip(1), p, j - 1);
                }
            } else {
                assert(r[i] == r2[i - 1] && r[j] == r2[j - 1]);
            }
        }
    } else {
        assert forall|i: int, j: int| 0 <= i <= j < r.len() implies r[i].created >= r[j].created by {
            if i == 0 && j > 0 {
                assert(r[j] == s[j - 1]);
            }
            if i > 0 {
                assert(r[i] == s[i - 1] && r[j] == s[j - 1]);
            }
        }
    }
}

/// Every element of an insertion's result is the inserted post or one of the
/// sequence's own.
proof fn lemma_insert_desc_elems(s: Seq<PostData>, p: PostData, k: int)
    requires
        0 <= k < insert_desc(s, p).len(),
    ensures
        insert_desc(s, p)[k] == p || exists|m: int| 0 <= m < s.len() && insert_desc(s, p)[k] == s[m],
    decreases s.len(),
{
    lemma_insert_desc_len(s, p);
    if s.len() == 0 {
    } else if s[0].created >= p.created {
        if k == 0 {
            assert(insert_desc(s, p)[0] == s[0]);
        } else {
            lemma_insert_desc_elems(s.skip(1), p, k - 1);
            if insert_desc(s.skip(1), p)[k - 1] != p {
                let m = choose|m: int|
                    0 <= m < s.skip(1).len() && insert_desc(s.skip(1), p)[k - 1] == s.skip(1)[m];
                assert(s.skip(1)[m] == s[m + 1]);
            }
        }
    } else {
        if k > 0 {
            assert(insert_desc(s, p)[k] == s[k - 1]);
        }
    }
}

/// The whole stable sort is sorted.
pub proof fn lemma_sort_desc_sorted(s: Seq<PostData>)
    ensures
        sorted_desc(sort_desc(s)),
    decreases s.len(),
{
    if s.len() > 0 {
        lemma_sort_desc_sorted(s.drop_last());
        lemma_insert_desc_sorted(sort_desc(s.drop_last()), s.last());
    }
}

/// `with_created` distributes over concatenation.
proof fn lemma_with_created_concat(a: Seq<PostData>, b: Seq<PostData>, t: i64)
    ensures
        with_created(a + b, t) == with_created(a, t) + with_created(b, t),
    decreases a.len(),
{
    if a.len() == 0 {
        assert(a + b =~= b);
        assert(with_created(a, t) + with_created(b, t) =~= with_created(b, t));
    } else {
        assert((a + b)[0] == a[0]);
        assert((a + b).skip(1) =~= a.skip(1) + b);
        lemma_with_created_concat(a.skip(1), b, t);
        if a[0].created == t {
            assert(seq![a[0]] + (with_created(a.skip(1), t) + with_created(b, t)) =~= (seq![a[0]]
                + with_created(a.skip(1), t)) + with_created(b, t));
        }
    }
}

proof fn lemma_with_created_single(p: PostData, t: i64)
    ensures
        p.created == t ==> with_created(seq![p], t) == seq![p],
        p.created != t ==> with_created(seq![p], t) == Seq::<PostData>::empty(),
{
    assert(seq![p].skip(1) =~= Seq::<PostData>::empty());
    assert(with_created(Seq::<PostData>::empty(), t) == Seq::<PostData>::empty());
    if p.created == t {
        assert(with_created(seq![p], t) == seq![p] + with_created(Seq::<PostData>::empty(), t));
        assert(seq![p] + Seq::<PostData>::empty() =~= seq![p]);
    }
}

/// Inserting a post appends it to the subsequence of its own instant and
/// leaves every other instant's subsequence unchanged.
proof fn lemma_insert_desc_stable(s: Seq<PostData>, p: PostData, t: i64)
    requires
        sorted_desc(s),
    ensures
        p.created == t ==> with_created(insert_desc(s, p), t) == with_created(s, t) + seq![p],
        p.created != t ==> with_created(insert_desc(s, p), t) == with_created(s, t),
    decreases s.len(),
{
    let r = insert_desc(s, p);
    if s.len() == 0 {
        lemma_with_created_single(p, t);
        if p.created == t {
            assert(with_created(s, t) + seq![p] =~= seq![p]);
        }
    } else if s[0].created >= p.created {
        assert(sorted_desc(s.skip(1))) by {
            assert(forall|i: int, j: int|
                0 <= i <= j < s.skip(1).len() ==> s.skip(1)[i] == s[i + 1] && s.skip(1)[j] == s[j
                    + 1]);
        }
        lemma_insert_desc_stable(s.skip(1), p, t);
        let r2 = insert_desc(s.skip(1), p);
        assert(r[0] == s[0]);
        assert(r.skip(1) =~= r2);
        if s[0].created == t {
            if p.created == t {
                assert(seq![s[0]] + (with_created(s.skip(1), t) + seq![p]) =~= (seq![s[0]]
                    + with_created(s.skip(1), t)) + seq![p]);
            }
        }
    } else {
        // p goes in front; everything in s is strictly older than p
        assert(r[0] == p);
        assert(r.skip(1) =~= s);
        if p.created == t {
            // nothing in s carries instant t at or above p's position:
            // s[0].created < p.created and s is sorted, so no element equals t
            assert(with_created(s, t) =~= Seq::<PostData>::empty()) by {
                lemma_with_created_none(s, t);
            }
            assert(with_created(r, t) == seq![p] + with_created(s, t));
            assert(seq![p] + with_created(s, t) =~= with_created(s, t) + seq![p]);
        }
    }
}

/// A sequence whose every element was created strictly before `t` holds no
/// post of instant `t`.
proof fn lemma_with_created_none(s: Seq<PostData>, t: i64)
    requires
        forall|i: int| 0 <= i < s.len() ==> s[i].created < t,
    ensures
        with_created(s, t) == Seq::<PostData>::empty(),
    decreases s.len(),
{
    if s.len() > 0 {
        lemma_with_created_none(s.skip(1), t);
        assert(with_created(s, t) =~= Seq::<PostData>::empty());
    }
}

/// Sort stability: for every instant, the sorted sequence lists the posts of
/// that instant in their input order.
pub proof fn lemma_sort_desc_stable(s: Seq<PostData>, t: i64)
    ensures
        with_created(sort_desc(s), t) == with_created(s, t),
    decreases s.len(),
{
    if s.len() > 0 {
        let a = s.drop_last();
        let p = s.last();
        lemma_sort_desc_stable(a, t);
        lemma_sort_desc_sorted(a);
        lemma_insert_desc_stable(sort_desc(a), p, t);
        assert(a + seq![p] =~= s);
        lemma_with_created_concat(a, seq![p], t);
        lemma_with_created_single(p, t);
        if p.created != t {
            assert(with_created(a, t) + Seq::<PostData>::empty() =~= with_created(a, t));
        }
    }
}

/// Builds the site snapshot: the posts are sorted by creation instant,
/// newest first, stably.
pub fn assemble_site(index: PostData, posts: Vec<PostData>) -> (r: Site)
    ensures
        r.index == index,
        r.posts@ == sort_desc(posts@),
        sorted_desc(r.posts@),
        forall|t: i64| with_created(r.posts@, t) == with_created(posts@, t),
{
    let ghost input = posts@;
    let mut rest = posts;
    let mut sorted: Vec<PostData> = Vec::new();
    let ghost mut k: int = 0;
    proof {
        assert(input.take(0) =~= Seq::<PostData>::empty());
        assert(input.skip(0) =~= input);
    }
    while rest.len() > 0
        invariant
            sorted@ == sort_desc(input.take(k)),
            rest@ == input.skip(k),
            0 <= k <= input.len(),
            k == input.len() - rest@.len(),
        decreases rest@.len(),
    {
        let p = rest.remove(0);
        proof {
            assert(p == input[k]);
            assert(rest@ =~= input.skip(k + 1));
        }
        // find the first position whose post is strictly older
        let ghost svs = sorted@;
        let n = sorted.len();
        let mut j: usize = 0;
        while j < n && sorted[j].created >= p.created
            invariant
                j <= n,
                n == sorted@.len(),
                sorted@ == svs,
                forall|m: int| 0 <= m < j ==> sorted@[m].created >= p.created,
            decreases n - j,
        {
            j = j + 1;
        }
        proof {
            lemma_insert_desc_at(sorted@, p, j as int);
        }
        sorted.insert(j, p);
        proof {
            assert(sorted@ =~= svs.take(j as int) + seq![p] + svs.skip(j as int));
            assert(input.take(k + 1).drop_last() =~= input.take(k));
            assert(input.take(k + 1).last() == input[k]);
        }
        proof {
            k = k + 1;
        }
    }
    proof {
        assert(input.take(k) =~= input);
        lemma_sort_desc_sorted(input);
        assert forall|t: i64| with_created(sorted@, t) == with_created(input, t) by {
            lemma_sort_desc_stable(input, t);
        }
    }
    Site { index, posts: sorted }
}

/// Positional form of `insert_desc`: inserting at the first strictly-older
/// position realizes the specification.
proof fn lemma_insert_desc_at(s: Seq<PostData>, p: PostData, j: int)
    requires
        0 <= j <= s.len(),
        forall|m: int| 0 <= m < j ==> s[m].created >= p.created,
        j < s.len() ==> s[j].created < p.created,
    ensures
        insert_desc(s, p) == s.take(j) + seq![p] + s.skip(j),
    decreases s.len(),
{
    if s.len() == 0 {
        assert(s.take(0) + seq![p] + s.skip(0) =~= seq![p]);
    } else if j == 0 {
        assert(s[0].created < p.created);
        assert(s.take(0) + seq![p] + s.skip(0) =~= seq![p] + s);
    } else {
        assert(s[0].created >= p.created);
        assert(forall|m: int| 0 <= m < j - 1 ==> s.skip(1)[m] == s[m + 1]);
        if j - 1 < s.skip(1).len() {
            assert(s.skip(1)[j - 1] == s[j]);
        }
        lemma_insert_desc_at(s.skip(1), p, j - 1);
        assert(s.skip(1).take(j - 1) =~= s.take(j).skip(1));
        assert(s.skip(1).skip(j - 1) =~= s.skip(j));
        assert(seq![s[0]] + (s.skip(1).take(j - 1) + seq![p] + s.skip(1).skip(j - 1)) =~= s.take(j)
            + seq![p] + s.skip(j));
    }
}

} // verus!
