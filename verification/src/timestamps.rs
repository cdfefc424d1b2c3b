//! Interpretation of the version-control collaborator's answer: the captured
//! output of a history query is a decimal Unix timestamp, and anything that
//! cannot be read as one — a failed query included — degrades to the epoch
//! instant rather than an error.

use vstd::prelude::*;
use crate::chars::str_to_chars;
use crate::content::{spec_trim, trim_chars};

verus! {

/// Whether `c` is a decimal digit.
pub open spec fn spec_is_digit(c: char) -> bool {
    '0' <= c && c <= '9'
}

/// The value of a digit character.
pub open spec fn digit_val(c: char) -> int {
    c as int - '0' as int
}

/// Whether a sequence is one or more decimal digits.
pub open spec fn all_digits(s: Seq<char>) -> bool {
    forall|k: int| 0 <= k < s.len() ==> spec_is_digit(#[trigger] s[k])
}

/// The numeric value of a digit sequence.
pub open spec fn dec_val(s: Seq<char>) -> int
    decreases s.len(),
{
    if s.len() == 0 {
        0
    } else {
        dec_val(s.drop_last()) * 10 + digit_val(s.last())
    }
}

/// What a signed decimal literal denotes: an optional sign, then at least one
/// digit and nothing else, within the signed 64-bit range; any other text
/// denotes zero.
pub open spec fn parse_i64_spec(s: Seq<char>) -> int {
    let neg = s.len() > 0 && s[0] == '-';
    let ds = if s.len() > 0 && (s[0] == '-' || s[0] == '+') {
        s.skip(1)
    } else {
        s
    };
    if ds.len() > 0 && all_digits(ds) {
        let v = if neg {
            -dec_val(ds)
        } else {
            dec_val(ds)
        };
        if i64::MIN <= v <= i64::MAX {
            v
        } else {
            0
        }
    } else {
        0
    }
}

/// What `parse_timestamp` returns: zero for a failed query, else the trimmed
/// output read as a signed decimal.
pub open spec fn timestamp_spec(success: bool, out: Seq<char>) -> int {
    if success {
        parse_i64_spec(spec_trim(out))
    } else {
        0
    }
}

/// Appending a digit multiplies by ten and adds it.
proof fn lemma_dec_val_push(s: Seq<char>, c: char)
    ensures
        dec_val(s.push(c)) == dec_val(s) * 10 + digit_val(c),
{
    assert(s.push(c).drop_last() =~= s);
    assert(s.push(c).last() == c);
}

/// A digit sequence's value is non-negative.
proof fn lemma_dec_val_nonneg(s: Seq<char>)
    requires
        all_digits(s),
    ensures
        dec_val(s) >= 0,
    decreases s.len(),
{
    if s.len() > 0 {
        assert(all_digits(s.drop_last())) by {
            assert(forall|k: int| 0 <= k < s.len() - 1 ==> s.drop_last()[k] == s[k]);
        }
        lemma_dec_val_nonneg(s.drop_last());
    }
}

/// Reads the version-control collaborator's captured output as a Unix
/// timestamp: the trimmed text as a signed decimal number, or zero when the
/// query failed, the text is not a number, or the value does not fit.
pub fn parse_timestamp(success: bool, output: &str) -> (r: i64)
    ensures
        r == timestamp_spec(success, output@),
{
    if !success {
        return 0;
    }
    let cs = str_to_chars(output);
    let t = trim_chars(&cs);
    let ghost ts = spec_trim(output@);
    proof {
        assert(t@ == ts);
    }
    let n = t.len();
    if n == 0 {
        return 0;
    }
    let neg = t[0] == '-';
    let start: usize = if t[0] == '-' || t[0] == '+' {
        1
    } else {
        0
    };
    let ghost ds = if ts[0] == '-' || ts[0] == '+' {
        ts.skip(1)
    } else {
        ts
    };
    proof {
        assert(ds =~= ts.subrange(start as int, n as int));
    }
    if n == start {
        return 0;
    }
    // accumulate the magnitude, detecting overflow past the i64 range
    let mut acc: u64 = 0;
    let mut over = false;
    let mut i: usize = start;
    while i < n
        invariant
            success,
            ts == spec_trim(output@),
            start <= i <= n,
            n == t@.len(),
            n == ts.len(),
            n > 0,
            t@ == ts,
            neg == (ts[0] == '-'),
            start == (if ts[0] == '-' || ts[0] == '+' {
                1int
            } else {
                0int
            }),
            ds == ts.subrange(start as int, n as int),
            all_digits(ts.subrange(start as int, i as int)),
            !over ==> acc == dec_val(ts.subrange(start as int, i as int)),
            over ==> dec_val(ts.subrange(start as int, i as int)) > 0x8000000000000000,
        decreases n - i,
    {
        let c = t[i];
        if c < '0' || c > '9' {
            proof {
                assert(ds[i - start] == c);
                assert(!spec_is_digit(c));
                assert(!all_digits(ds));
                assert(parse_i64_spec(ts) == 0);
            }
            return 0;
        }
        let d: u64 = digit_value(c);
        proof {
            let pre = ts.subrange(start as int, i as int);
            let post = ts.subrange(start as int, i as int + 1);
            assert(post =~= pre.push(c));
            lemma_dec_val_push(pre, c);
            if !over && acc > (0xffffffffffffffffu64 - 9) / 10 {
                assert(dec_val(post) > 0x8000000000000000);
            }
            if over {
                lemma_dec_val_nonneg(pre);
                assert(dec_val(post) > 0x8000000000000000);
            }
        }
        if over || acc > (0xffffffffffffffffu64 - 9) / 10 {
            over = true;
        } else {
            acc = acc * 10 + d;
        }
        i = i + 1;
        proof {
            assert(all_digits(ts.subrange(start as int, i as int)));
        }
    }
    proof {
        assert(ts.subrange(start as int, n as int) =~= ds);
        assert(all_digits(ds));
    }
    if over {
        return 0;
    }
    if neg {
        if acc > 0x8000000000000000u64 {
            0
        } else if acc == 0x8000000000000000u64 {
            i64::MIN
        } else {
            -(acc as i64)
        }
    } else {
        if acc > 0x7fffffffffffffffu64 {
            0
        } else {
            acc as i64
        }
    }
}

fn digit_value(c: char) -> (r: u64)
    requires
        spec_is_digit(c),
    ensures
        r == digit_val(c),
        r <= 9,
{
    (c as u32 as u64) - 48
}

} // verus!
