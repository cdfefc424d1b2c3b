//! Injection of a text block into a source file between tagged comment
//! markers: an existing marked block is replaced, and a file without one gets
//! the block inserted at a chosen anchor (or at the end).

use vstd::prelude::*;
use crate::chars::{
    spec_find, find_seq, str_to_chars, chars_to_string, push_range, lemma_find_agrees,
};

verus! {

/// ASCII-uppercased image of one character.
pub open spec fn spec_upper(c: char) -> char {
    if 'a' <= c && c <= 'z' {
        (((c as u32) - 32) as char)
    } else {
        c
    }
}

/// ASCII-uppercased image of a character sequence.
pub open spec fn spec_upper_seq(s: Seq<char>) -> Seq<char> {
    s.map_values(|c: char| spec_upper(c))
}

fn upper_char(c: char) -> (r: char)
    ensures
        r == spec_upper(c),
{
    if 'a' <= c && c <= 'z' {
        let u: u32 = (c as u32) - 32;
        crate::chars::char_from_u32(u)
    } else {
        c
    }
}

/// The opening marker of a tagged block: `<!-- TAG_START -->`.
pub open spec fn start_tag_of(tag: Seq<char>) -> Seq<char> {
    seq!['<', '!', '-', '-', ' '] + spec_upper_seq(tag) + seq![
        '_',
        'S',
        'T',
        'A',
        'R',
        'T',
        ' ',
        '-',
        '-',
        '>',
    ]
}

/// The closing marker of a tagged block: `<!-- TAG_END -->`.
pub open spec fn end_tag_of(tag: Seq<char>) -> Seq<char> {
    seq!['<', '!', '-', '-', ' '] + spec_upper_seq(tag) + seq![
        '_',
        'E',
        'N',
        'D',
        ' ',
        '-',
        '-',
        '>',
    ]
}

/// A marked block with the markers on their own lines.
pub open spec fn block_of(tag: Seq<char>, inject: Seq<char>) -> Seq<char> {
    start_tag_of(tag) + seq!['\n'] + inject + seq!['\n'] + end_tag_of(tag)
}

/// What `inject_str` returns: when both markers are found (the first opening
/// marker, then the first closing marker after it), the old span between them
/// is replaced by the fresh block and returned; otherwise the block is
/// inserted at the first occurrence of the anchor (at the end without one).
pub open spec fn inject_spec(
    source: Seq<char>,
    inject: Seq<char>,
    tag: Seq<char>,
    pos: Option<Seq<char>>,
) -> (Seq<char>, Option<Seq<char>>) {
    let st = start_tag_of(tag);
    let et = end_tag_of(tag);
    if spec_find(source, st) is Some {
        let p = spec_find(source, st).unwrap();
        let after = source.skip(p + st.len());
        if spec_find(after, et) is Some {
            let q = spec_find(after, et).unwrap();
            (
                source.take(p) + block_of(tag, inject) + after.skip(q + et.len()),
                Some(after.take(q)),
            )
        } else {
            insert_spec(source, inject, tag, pos)
        }
    } else {
        insert_spec(source, inject, tag, pos)
    }
}

/// The insertion form: the block goes at the first occurrence of the anchor,
/// or at the end of the source without one.
pub open spec fn insert_spec(
    source: Seq<char>,
    inject: Seq<char>,
    tag: Seq<char>,
    pos: Option<Seq<char>>,
) -> (Seq<char>, Option<Seq<char>>) {
    let ipos = match pos {
        Some(ps) => match spec_find(source, ps) {
            Some(ip) => ip,
            None => source.len() as int,
        },
        None => source.len() as int,
    };
    (source.take(ipos) + block_of(tag, inject) + source.skip(ipos), None)
}

/// Builds the two markers for a tag.
fn build_markers(tag: &str) -> (r: (Vec<char>, Vec<char>))
    ensures
        r.0@ == start_tag_of(tag@),
        r.1@ == end_tag_of(tag@),
{
    let tcs = str_to_chars(tag);
    let mut up: Vec<char> = Vec::new();
    let mut i: usize = 0;
    while i < tcs.len()
        invariant
            i <= tcs@.len(),
            up@ == spec_upper_seq(tcs@).take(i as int),
        decreases tcs@.len() - i,
    {
        up.push(upper_char(tcs[i]));
        i = i + 1;
        proof {
            assert(spec_upper_seq(tcs@)[i - 1] == spec_upper(tcs@[i - 1]));
            assert(up@ =~= spec_upper_seq(tcs@).take(i as int));
        }
    }
    proof {
        assert(up@ =~= spec_upper_seq(tcs@));
    }
    let mut st: Vec<char> = vec!['<', '!', '-', '-', ' '];
    push_range(&mut st, &up, 0, up.len());
    let mut et_tail: Vec<char> = vec!['_', 'E', 'N', 'D', ' ', '-', '-', '>'];
    let mut st_tail: Vec<char> = vec!['_', 'S', 'T', 'A', 'R', 'T', ' ', '-', '-', '>'];
    let mut et: Vec<char> = vec!['<', '!', '-', '-', ' '];
    push_range(&mut et, &up, 0, up.len());
    push_range(&mut st, &st_tail, 0, st_tail.len());
    push_range(&mut et, &et_tail, 0, et_tail.len());
    proof {
        assert(up@.subrange(0, up@.len() as int) =~= up@);
        assert(st@ =~= start_tag_of(tag@));
        assert(et@ =~= end_tag_of(tag@));
    }
    (st, et)
}

/// Pushes the fresh block for a tag.
fn push_block(out: &mut Vec<char>, st: &Vec<char>, et: &Vec<char>, inject: &Vec<char>)
    ensures
        final(out)@ == old(out)@ + (st@ + seq!['\n'] + inject@ + seq!['\n'] + et@),
{
    push_range(out, st, 0, st.len());
    out.push('\n');
    push_range(out, inject, 0, inject.len());
    out.push('\n');
    push_range(out, et, 0, et.len());
    proof {
        assert(st@.subrange(0, st@.len() as int) =~= st@);
        assert(inject@.subrange(0, inject@.len() as int) =~= inject@);
        assert(et@.subrange(0, et@.len() as int) =~= et@);
        assert(out@ =~= old(out)@ + (st@ + seq!['\n'] + inject@ + seq!['\n'] + et@));
    }
}

/// Injects a text block into a source under a tagged pair of comment markers,
/// replacing an existing marked block or inserting a fresh one at the anchor.
/// Returns the new source and the old marked span, if one was replaced.
pub fn inject_str(source: &str, inject: &str, tag: &str, pos: Option<&str>) -> (r: (
    String,
    Option<String>,
))
    ensures
        ({
            let (out, old_inject) = inject_spec(
                source@,
                inject@,
                tag@,
                match pos {
                    Some(p) => Some(p@),
                    None => None,
                },
            );
            &&& r.0@ == out
            &&& (r.1 matches Some(o) ==> old_inject == Some(o@))
            &&& (r.1 is None ==> old_inject is None)
        }),
{
    let scs = str_to_chars(source);
    let ics = str_to_chars(inject);
    let (st, et) = build_markers(tag);
    let found: Option<(usize, usize)> = match find_seq(&scs, &st) {
        Some(p) => {
            proof {
                lemma_find_agrees(scs@, st@, p as int);
                assert(p + st@.len() <= scs@.len());
            }
            let slen = scs.len();
            let mut after: Vec<char> = Vec::new();
            push_range(&mut after, &scs, p + st.len(), slen);
            proof {
                assert(after@ =~= scs@.skip(p + st@.len()));
            }
            match find_seq(&after, &et) {
                Some(q) => {
                    proof {
                        lemma_find_agrees(after@, et@, q as int);
                    }
                    Some((p, q))
                },
                None => None,
            }
        },
        None => None,
    };
    match found {
        Some((p, q)) => {
            let after_start = p + st.len();
            let mut out: Vec<char> = Vec::new();
            push_range(&mut out, &scs, 0, p);
            push_block(&mut out, &st, &et, &ics);
            push_range(&mut out, &scs, after_start + q + et.len(), scs.len());
            let mut old_span: Vec<char> = Vec::new();
            push_range(&mut old_span, &scs, after_start, after_start + q);
            proof {
                let ghost after = scs@.skip(p + st@.len());
                assert(after.skip(q + et@.len()) =~= scs@.subrange(
                    after_start + q + et@.len(),
                    scs@.len() as int,
                ));
                assert(out@ =~= scs@.take(p as int) + block_of(tag@, inject@) + after.skip(
                    q + et@.len(),
                ));
                assert(old_span@ =~= after.take(q as int));
            }
            (chars_to_string(&out), Some(chars_to_string(&old_span)))
        },
        None => {
            let ipos: usize = match pos {
                Some(ps) => {
                    let pcs = str_to_chars(ps);
                    match find_seq(&scs, &pcs) {
                        Some(ip) => {
                            proof {
                                lemma_find_agrees(scs@, pcs@, ip as int);
                            }
                            ip
                        },
                        None => scs.len(),
                    }
                },
                None => scs.len(),
            };
            let mut out: Vec<char> = Vec::new();
            push_range(&mut out, &scs, 0, ipos);
            push_block(&mut out, &st, &et, &ics);
            push_range(&mut out, &scs, ipos, scs.len());
            proof {
                assert(out@ =~= scs@.take(ipos as int) + block_of(tag@, inject@) + scs@.skip(
                    ipos as int,
                ));
            }
            (chars_to_string(&out), None)
        },
    }
}

} // verus!
