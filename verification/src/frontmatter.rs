//! Extraction of an optional leading front-matter block, delimited by a line
//! of three dashes at the start and a matching line further down.  The block's
//! text is returned separately; the remaining document follows the closing
//! delimiter.

use vstd::prelude::*;
use crate::chars::{
    spec_match_at, spec_find, match_at, find_seq, str_to_chars, chars_to_string, push_range,
    lemma_find_agrees,
};

verus! {

/// The front-matter delimiter: a line of three dashes.
pub open spec fn fm_delim() -> Seq<char> {
    seq!['-', '-', '-', '\n']
}

/// What `extract_frontmatter` returns: when the document starts with the
/// delimiter and the delimiter occurs again, the text between the two (after
/// the opening line, up to the closing line) and the document after the
/// closing line; otherwise no front matter and the document unchanged.
pub open spec fn frontmatter_spec(s: Seq<char>) -> (Option<Seq<char>>, Seq<char>) {
    if s.len() >= 4 && s.subrange(0, 4) == fm_delim() && spec_find(s.skip(4), fm_delim()) is Some {
        let q = spec_find(s.skip(4), fm_delim()).unwrap();
        (Some(s.subrange(4, 4 + q)), s.skip(4 + q + 4))
    } else {
        (None, s)
    }
}

/// Splits an optional leading front-matter block off a document.
pub fn extract_frontmatter(content: String) -> (r: (Option<String>, String))
    ensures
        ({
            let (fm, rest) = frontmatter_spec(content@);
            &&& (r.0 matches Some(y) ==> fm == Some(y@))
            &&& (r.0 is None ==> fm is None)
            &&& r.1@ == rest
        }),
{
    let cs = str_to_chars(content.as_str());
    let delim: Vec<char> = vec!['-', '-', '-', '\n'];
    proof {
        assert(delim@ =~= fm_delim());
    }
    if cs.len() < 4 || !match_at(&cs, &delim, 0) {
        proof {
            if cs@.len() >= 4 {
                assert(cs@.subrange(0, 4) != fm_delim());
            }
        }
        return (None, content);
    }
    proof {
        assert(cs@.subrange(0, 4) =~= fm_delim());
    }
    let mut body: Vec<char> = Vec::new();
    push_range(&mut body, &cs, 4, cs.len());
    proof {
        assert(body@ =~= cs@.skip(4));
    }
    match find_seq(&body, &delim) {
        Some(q) => {
            proof {
                lemma_find_agrees(body@, delim@, q as int);
            }
            let mut yaml: Vec<char> = Vec::new();
            push_range(&mut yaml, &cs, 4, 4 + q);
            let mut rest: Vec<char> = Vec::new();
            push_range(&mut rest, &cs, 4 + q + 4, cs.len());
            proof {
                assert(yaml@ =~= cs@.subrange(4, 4 + q));
                assert(rest@ =~= cs@.skip(4 + q + 4));
            }
            (Some(chars_to_string(&yaml)), chars_to_string(&rest))
        },
        None => {
            proof {
                assert(spec_find(cs@.skip(4), fm_delim()) is None);
            }
            (None, content)
        },
    }
}

/// `s` with every carriage-return/line-feed pair turned into a bare line
/// feed.
pub open spec fn normalize_newlines_spec(s: Seq<char>) -> Seq<char>
    decreases s.len(),
{
    if s.len() == 0 {
        Seq::empty()
    } else if s.len() >= 2 && s[0] == '\r' && s[1] == '\n' {
        seq!['\n'] + normalize_newlines_spec(s.skip(2))
    } else {
        seq![s[0]] + normalize_newlines_spec(s.skip(1))
    }
}

/// Normalizes CRLF line endings to bare line feeds, so that the front-matter
/// delimiter is recognized whatever endings the document was written with.
pub fn normalize_newlines(text: &str) -> (r: String)
    ensures
        r@ == normalize_newlines_spec(text@),
{
    let s = str_to_chars(text);
    let n = s.len();
    let mut out: Vec<char> = Vec::new();
    let mut i: usize = 0;
    let ghost goal = normalize_newlines_spec(text@);
    proof {
        assert(s@.skip(0) =~= s@);
        assert(out@ + normalize_newlines_spec(s@.skip(0)) =~= goal);
    }
    while i < n
        invariant
            i <= n,
            n == s@.len(),
            s@ == text@,
            goal == normalize_newlines_spec(text@),
            goal == out@ + normalize_newlines_spec(s@.skip(i as int)),
        decreases n - i,
    {
        let ghost t = s@.skip(i as int);
        proof {
            assert(t[0] == s@[i as int]);
            if t.len() >= 2 {
                assert(t[1] == s@[i as int + 1]);
            }
        }
        if s[i] == '\r' && i + 1 < n && s[i + 1] == '\n' {
            out.push('\n');
            i = i + 2;
            proof {
                assert(t.skip(2) =~= s@.skip(i as int));
                assert(goal =~= out@ + normalize_newlines_spec(s@.skip(i as int)));
            }
        } else {
            out.push(s[i]);
            i = i + 1;
            proof {
                assert(t.skip(1) =~= s@.skip(i as int));
                assert(goal =~= out@ + normalize_newlines_spec(s@.skip(i as int)));
            }
        }
    }
    proof {
        assert(s@.skip(n as int) =~= Seq::<char>::empty());
        assert(goal =~= out@);
    }
    chars_to_string(&out)
}

} // verus!
