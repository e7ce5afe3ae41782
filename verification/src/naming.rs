//! Names of the halves.
//!
//! A half is named `<start>-<end>-<stem>.bin`: its range in decimal, then the
//! stem of the file it was cut from. A stem that already begins with such a
//! range, left there by an earlier split, loses it first, so that names do not
//! grow from one split to the next.

use vstd::prelude::*;
use vstd::string::*;
use crate::decimal::{all_digits, decimal, is_digit, lemma_decimal_digits};
use crate::signature::{range_text, Signature};

verus! {

/// `s` begins with `a` digits, a hyphen, `b` digits and a hyphen, where neither
/// run of digits is empty.
pub open spec fn has_range_prefix(s: Seq<char>, a: int, b: int) -> bool {
    &&& 0 < a
    &&& 0 < b
    &&& a + b + 2 <= s.len()
    &&& all_digits(s.subrange(0, a))
    &&& s[a] == '-'
    &&& all_digits(s.subrange(a + 1, a + 1 + b))
    &&& s[a + 1 + b] == '-'
}

/// `s` begins with a range: digits, hyphen, digits, hyphen.
pub open spec fn begins_with_range(s: Seq<char>) -> bool {
    exists|a: int, b: int| has_range_prefix(s, a, b)
}

/// `s` without the range it begins with; `s` itself where it begins with none.
pub open spec fn stripped(s: Seq<char>) -> Seq<char> {
    if begins_with_range(s) {
        let (a, b) = choose|a: int, b: int| has_range_prefix(s, a, b);
        s.subrange(a + b + 2, s.len() as int)
    } else {
        s
    }
}

/// The stem of the half that covers `sig` of a file with stem `stem`.
pub open spec fn half_stem(sig: Signature, stem: Seq<char>) -> Seq<char> {
    range_text(sig) + seq!['-'] + stripped(stem)
}

/// The file name of the half that covers `sig` of a file with stem `stem`.
pub open spec fn file_name(sig: Signature, stem: Seq<char>) -> Seq<char> {
    half_stem(sig, stem) + seq!['.', 'b', 'i', 'n']
}

/// A string begins with at most one range: the lengths of its two runs of
/// digits are determined.
pub proof fn lemma_range_prefix_unique(s: Seq<char>, a: int, b: int, c: int, d: int)
    requires
        has_range_prefix(s, a, b),
        has_range_prefix(s, c, d),
    ensures
        a == c,
        b == d,
{
    if a < c {
        assert(s.subrange(0, c)[a] == s[a]);
    }
    if c < a {
        assert(s.subrange(0, a)[c] == s[c]);
    }
    if b < d {
        assert(s.subrange(a + 1, a + 1 + d)[b] == s[a + 1 + b]);
    }
    if d < b {
        assert(s.subrange(a + 1, a + 1 + b)[d] == s[a + 1 + d]);
    }
}

/// Where `s` begins with a range whose runs of digits are `a` and `b` long,
/// stripping cuts off exactly those `a + b + 2` characters.
pub proof fn lemma_stripped_at(s: Seq<char>, a: int, b: int)
    requires
        has_range_prefix(s, a, b),
    ensures
        stripped(s) == s.subrange(a + b + 2, s.len() as int),
{
    let (c, d) = choose|c: int, d: int| has_range_prefix(s, c, d);
    lemma_range_prefix_unique(s, a, b, c, d);
}

/// Stripping a stem that a split produced gives back what that split kept of
/// its own input: the range in front is taken off whole, and nothing else.
pub proof fn lemma_strip_half_stem(sig: Signature, stem: Seq<char>)
    ensures
        stripped(half_stem(sig, stem)) == stripped(stem),
{
    let first = decimal(sig.start_offset as nat);
    let second = decimal(sig.end_offset as nat);
    let s = half_stem(sig, stem);
    let a = first.len() as int;
    let b = second.len() as int;
    lemma_decimal_digits(sig.start_offset as nat);
    lemma_decimal_digits(sig.end_offset as nat);
    assert(s.subrange(0, a) =~= first);
    assert(s.subrange(a + 1, a + 1 + b) =~= second);
    assert(s[a] == '-');
    assert(s[a + 1 + b] == '-');
    assert(has_range_prefix(s, a, b));
    lemma_stripped_at(s, a, b);
    assert(s.subrange(a + b + 2, s.len() as int) =~= stripped(stem));
}

/// Naming is idempotent: a half of a half is named as if the first split had
/// not happened. Its name carries the new range and the stem as the first
/// split stripped it, so ranges do not pile up in front of a name however
/// often a file is split.
pub proof fn lemma_naming_idempotent(first: Signature, second: Signature, stem: Seq<char>)
    ensures
        file_name(second, half_stem(first, stem)) == file_name(second, stem),
        half_stem(second, half_stem(first, stem)) == half_stem(second, stem),
{
    lemma_strip_half_stem(first, stem);
}

/// The number of digits that `text` holds from position `from` on, up to the
/// first character that is no digit.
fn digit_run(text: &str, len: usize, from: usize) -> (n: usize)
    requires
        len == text@.len(),
        from <= len,
    ensures
        from + n <= len,
        all_digits(text@.subrange(from as int, from + n)),
        from + n < len ==> !is_digit(text@[from + n]),
{
    let mut n: usize = 0;
    while from + n < len
        invariant
            len == text@.len(),
            from + n <= len,
            all_digits(text@.subrange(from as int, from + n)),
        ensures
            from + n <= len,
            all_digits(text@.subrange(from as int, from + n)),
            from + n < len ==> !is_digit(text@[from + n]),
        decreases len - from - n,
    {
        let c = text.get_char(from + n);
        if !(c >= '0' && c <= '9') {
            break;
        }
        assert forall|i: int| 0 <= i < n + 1 implies is_digit(
            #[trigger] text@.subrange(from as int, from + n + 1)[i],
        ) by {
            if i < n {
                assert(text@.subrange(from as int, from + n)[i] == text@[from + i]);
            }
        }
        n = n + 1;
    }
    n
}

/// Takes the range off the front of `stem`, if it begins with one.
pub fn strip_range_prefix(stem: &str) -> (out: &str)
    ensures
        out@ == stripped(stem@),
{
    let len = stem.unicode_len();
    let a = digit_run(stem, len, 0);
    if a == 0 || a >= len || stem.get_char(a) != '-' {
        proof {
            lemma_no_range_prefix_first(stem@, a as int);
        }
        return stem;
    }
    let b = digit_run(stem, len, a + 1);
    if b == 0 || a + 1 + b >= len || stem.get_char(a + 1 + b) != '-' {
        proof {
            lemma_no_range_prefix_second(stem@, a as int, b as int);
        }
        return stem;
    }
    proof {
        lemma_stripped_at(stem@, a as int, b as int);
    }
    stem.substring_char(a + b + 2, len)
}

/// A string whose first run of digits is empty, or is not followed by a
/// hyphen, begins with no range.
proof fn lemma_no_range_prefix_first(s: Seq<char>, a: int)
    requires
        0 <= a <= s.len(),
        all_digits(s.subrange(0, a)),
        a < s.len() ==> !is_digit(s[a]),
        a == 0 || a >= s.len() || s[a] != '-',
    ensures
        !begins_with_range(s),
{
    if begins_with_range(s) {
        let (c, d) = choose|c: int, d: int| has_range_prefix(s, c, d);
        if c < a {
            assert(s.subrange(0, a)[c] == s[c]);
        }
        if a < c {
            assert(s.subrange(0, c)[a] == s[a]);
        }
    }
}

/// A string that begins with digits and a hyphen, but whose second run of
/// digits is empty or is not followed by a hyphen, begins with no range.
proof fn lemma_no_range_prefix_second(s: Seq<char>, a: int, b: int)
    requires
        0 < a < s.len(),
        all_digits(s.subrange(0, a)),
        s[a] == '-',
        0 <= b,
        a + 1 + b <= s.len(),
        all_digits(s.subrange(a + 1, a + 1 + b)),
        a + 1 + b < s.len() ==> !is_digit(s[a + 1 + b]),
        b == 0 || a + 1 + b >= s.len() || s[a + 1 + b] != '-',
    ensures
        !begins_with_range(s),
{
    if begins_with_range(s) {
        let (c, d) = choose|c: int, d: int| has_range_prefix(s, c, d);
        if c < a {
            assert(s.subrange(0, a)[c] == s[c]);
        }
        if a < c {
            assert(s.subrange(0, c)[a] == s[a]);
        }
        if d < b {
            assert(s.subrange(a + 1, a + 1 + b)[d] == s[a + 1 + d]);
        }
        if b < d {
            assert(s.subrange(a + 1, a + 1 + d)[b] == s[a + 1 + b]);
        }
    }
}

/// The name of the file that holds the half covering `sig` of a file whose
/// stem is `stem`.
pub fn half_file_name(sig: &Signature, stem: &str) -> (name: String)
    ensures
        name@ == file_name(*sig, stem@),
{
    let mut name = sig.range_str();
    proof {
        reveal_strlit("-");
        reveal_strlit(".bin");
    }
    name.append("-");
    name.append(strip_range_prefix(stem));
    name.append(".bin");
    assert(name@ =~= file_name(*sig, stem@));
    name
}

} // verus!

