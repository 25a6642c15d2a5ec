//! Small verified string helpers shared across the crate: equality, decimal
//! formatting, joining, and substring search, all specified over character
//! sequences.

use vstd::prelude::*;
use vstd::string::StringExecFns;
use vstd::string::StrSliceExecFns;

verus! {

/// String-slice equality, specified over the character sequences.
pub fn str_eq(a: &str, b: &str) -> (r: bool)
    ensures
        r == (a@ == b@),
{
    let x = a.to_owned();
    let y = b.to_owned();
    x == y
}

/// Relies on String::push: appends exactly the one character.
#[verifier::external_body]
pub fn push_char(s: &mut String, c: char)
    ensures
        final(s)@ == old(s)@ + seq![c],
{
    s.push(c)
}

/// The decimal digit character for a value below ten.
pub open spec fn spec_digit(d: int) -> char {
    ((d + 48) as u8) as char
}

/// The decimal numeral of a non-negative integer, most significant digit
/// first, without leading zeros (a single '0' for zero).
pub open spec fn spec_dec(n: int) -> Seq<char>
    decreases n,
{
    if n < 10 {
        seq![spec_digit(if n < 0 {
            0
        } else {
            n
        })]
    } else {
        spec_dec(n / 10).push(spec_digit(n % 10))
    }
}

/// Append the decimal numeral of `n`.
pub fn push_dec(s: &mut String, n: u64)
    ensures
        final(s)@ == old(s)@ + spec_dec(n as int),
    decreases n,
{
    if n < 10 {
        push_char(s, ((n as u8) + 48) as char);
    } else {
        push_dec(s, n / 10);
        push_char(s, (((n % 10) as u8) + 48) as char);
        proof {
            assert((old(s)@ + spec_dec(n as int / 10)) + seq![spec_digit(n as int % 10)] =~= old(
                s,
            )@ + spec_dec(n as int));
        }
    }
}

/// The parts joined by the separator: empty for no parts, and no leading
/// or trailing separator.
pub open spec fn spec_join(parts: Seq<Seq<char>>, sep: Seq<char>) -> Seq<char>
    decreases parts.len(),
{
    if parts.len() == 0 {
        Seq::<char>::empty()
    } else if parts.len() == 1 {
        parts[0]
    } else {
        spec_join(parts.drop_last(), sep) + sep + parts.last()
    }
}

/// Append `part` to `out`, preceded by `sep` unless `out` is the joined
/// form of no parts yet.
pub fn join(parts: &Vec<String>, sep: &str) -> (r: String)
    ensures
        r@ == spec_join(parts.deep_view(), sep@),
{
    let mut out = String::new();
    let mut i: usize = 0;
    while i < parts.len()
        invariant
            i <= parts@.len(),
            out@ == spec_join(parts.deep_view().take(i as int), sep@),
        decreases parts@.len() - i,
    {
        if i > 0 {
            out.append(sep);
        }
        out.append(parts[i].as_str());
        proof {
            let pv = parts.deep_view();
            assert(pv.take(i as int + 1).drop_last() =~= pv.take(i as int));
            assert(pv.take(i as int + 1).last() == pv[i as int]);
        }
        i += 1;
    }
    proof {
        assert(parts.deep_view().take(parts@.len() as int) =~= parts.deep_view());
    }
    out
}

/// `needle` occurs in `haystack` as a contiguous run.
pub open spec fn contains_seq(haystack: Seq<char>, needle: Seq<char>) -> bool {
    exists|i: int|
        0 <= i <= haystack.len() - needle.len() && #[trigger] haystack.subrange(
            i,
            i + needle.len() as int,
        ) == needle
}

/// `prefix` starts `s`.
pub open spec fn starts_with_seq(s: Seq<char>, prefix: Seq<char>) -> bool {
    prefix.len() <= s.len() && s.subrange(0, prefix.len() as int) == prefix
}

/// Whether `haystack` contains `needle` as a substring (by characters).
pub fn contains_str(haystack: &str, needle: &str) -> (r: bool)
    ensures
        r == contains_seq(haystack@, needle@),
{
    let hl = haystack.unicode_len();
    let nl = needle.unicode_len();
    if nl > hl {
        return false;
    }
    if nl == 0 {
        proof {
            assert(haystack@.subrange(0, 0 + needle@.len() as int) =~= needle@);
        }
        return true;
    }
    let mut i: usize = 0;
    while i <= hl - nl
        invariant
            1 <= nl <= hl,
            hl == haystack@.len(),
            nl == needle@.len(),
            i <= hl - nl + 1,
            forall|j: int|
                0 <= j < i ==> #[trigger] haystack@.subrange(j, j + needle@.len() as int)
                    != needle@,
        decreases hl - i,
    {
        let mut k: usize = 0;
        let mut eq = true;
        while k < nl && eq
            invariant
                nl <= hl,
                hl == haystack@.len(),
                nl == needle@.len(),
                i + nl <= hl,
                k <= nl,
                eq ==> forall|m: int| 0 <= m < k ==> haystack@[i + m] == needle@[m],
                !eq ==> haystack@.subrange(i as int, i as int + needle@.len() as int) != needle@,
            decreases
                    nl - k,
                    (if eq {
                        1int
                    } else {
                        0int
                    }),
        {
            if haystack.get_char(i + k) != needle.get_char(k) {
                proof {
                    assert(haystack@.subrange(i as int, i as int + needle@.len() as int)[k as int]
                        != needle@[k as int]);
                }
                eq = false;
            } else {
                k += 1;
            }
        }
        if eq {
            proof {
                assert(haystack@.subrange(i as int, i as int + needle@.len() as int) =~= needle@);
            }
            return true;
        }
        i += 1;
    }
    proof {
        assert forall|j: int|
            0 <= j <= haystack@.len() - needle@.len() implies #[trigger] haystack@.subrange(
            j,
            j + needle@.len() as int,
        ) != needle@ by {
            assert(j < i);
        }
    }
    false
}

/// Whether `s` starts with `prefix` (by characters).
pub fn starts_with_str(s: &str, prefix: &str) -> (r: bool)
    ensures
        r == starts_with_seq(s@, prefix@),
{
    let sl = s.unicode_len();
    let pl = prefix.unicode_len();
    if pl > sl {
        return false;
    }
    let mut k: usize = 0;
    while k < pl
        invariant
            pl <= sl,
            sl == s@.len(),
            pl == prefix@.len(),
            k <= pl,
            forall|m: int| 0 <= m < k ==> s@[m] == prefix@[m],
        decreases pl - k,
    {
        if s.get_char(k) != prefix.get_char(k) {
            proof {
                assert(s@.subrange(0, prefix@.len() as int)[k as int] != prefix@[k as int]);
            }
            return false;
        }
        k += 1;
    }
    proof {
        assert(s@.subrange(0, prefix@.len() as int) =~= prefix@);
    }
    true
}

/// Push a string, growing the deep view by its character sequence.
pub fn push_string(v: &mut Vec<String>, s: String)
    ensures
        final(v).deep_view() == old(v).deep_view().push(s@),
{
    let ghost sv = s@;
    v.push(s);
    proof {
        assert(v.deep_view() =~~= old(v).deep_view().push(sv));
    }
}

} // verus!
