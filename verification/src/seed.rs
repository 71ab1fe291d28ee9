//! The spaced-seed template: parsing a binary mask string and constructing
//! the template string for a minimizer scheme.

use vstd::prelude::*;

verus! {

/// Why a string fails to parse as a binary numeral.
#[derive(Clone, Copy, PartialEq, Eq, Structural, Debug)]
pub enum ParseBinaryError {
    /// The string is empty.
    Empty,
    /// A character other than `0` or `1` occurs after the optional leading
    /// sign — or the string is nothing but the sign.
    InvalidDigit,
    /// The value does not fit in 64 bits.
    Overflow,
}

/// Whether every character is a binary digit.
pub open spec fn all_binary(s: Seq<char>) -> bool {
    forall|i: int| 0 <= i < s.len() ==> (s[i] == '0' || s[i] == '1')
}

/// The value of a binary digit string, most significant digit first.
pub open spec fn bin_val(s: Seq<char>) -> int
    decreases s.len(),
{
    if s.len() == 0 {
        0
    } else {
        2 * bin_val(s.drop_last()) + (if s.last() == '1' {
            1int
        } else {
            0int
        })
    }
}

/// The digit part of a numeral: one optional leading `+` sign is stripped.
pub open spec fn digits_of(s: Seq<char>) -> Seq<char> {
    if s.len() > 0 && s[0] == '+' {
        s.subrange(1, s.len() as int)
    } else {
        s
    }
}

/// What parsing a binary numeral yields: the empty string is rejected as
/// empty; a lone sign, or any character beside `0` and `1` after the
/// optional leading `+`, is an invalid digit; a value beyond 64 bits
/// overflows; any other numeral reads as its base-2 value.
pub open spec fn spec_parse_binary(s: Seq<char>) -> Result<u64, ParseBinaryError> {
    if s.len() == 0 {
        Err(ParseBinaryError::Empty)
    } else if digits_of(s).len() == 0 || !all_binary(digits_of(s)) {
        Err(ParseBinaryError::InvalidDigit)
    } else if bin_val(digits_of(s)) > u64::MAX {
        Err(ParseBinaryError::Overflow)
    } else {
        Ok(bin_val(digits_of(s)) as u64)
    }
}

/// Binary values are never negative.
pub proof fn lemma_bin_val_nonneg(s: Seq<char>)
    ensures
        bin_val(s) >= 0,
    decreases s.len(),
{
    if s.len() > 0 {
        lemma_bin_val_nonneg(s.drop_last());
    }
}

/// A prefix never reads as more than the whole string.
pub proof fn lemma_bin_val_prefix_le(s: Seq<char>, j: int)
    requires
        0 <= j <= s.len(),
    ensures
        bin_val(s.take(j)) <= bin_val(s),
    decreases s.len(),
{
    if j == s.len() {
        assert(s.take(j) =~= s);
    } else {
        assert(s.drop_last().take(j) =~= s.take(j));
        lemma_bin_val_prefix_le(s.drop_last(), j);
        lemma_bin_val_nonneg(s.drop_last());
    }
}

/// Parses a spaced-seed mask written in binary, accepting one optional
/// leading `+` sign before the digits.
pub fn parse_binary(src: &str) -> (r: Result<u64, ParseBinaryError>)
    ensures
        r == spec_parse_binary(src@),
{
    let n = src.unicode_len();
    if n == 0 {
        return Err(ParseBinaryError::Empty);
    }
    let start: usize = if src.get_char(0) == '+' {
        1
    } else {
        0
    };
    let ghost digits = digits_of(src@);
    proof {
        assert(digits =~= src@.subrange(start as int, n as int));
    }
    if start == n {
        // the string is nothing but the sign
        return Err(ParseBinaryError::InvalidDigit);
    }
    let mut i: usize = start;
    while i < n
        invariant
            start <= i <= n,
            n == src@.len(),
            digits == digits_of(src@),
            digits.len() == n - start,
            forall|k: int| 0 <= k < digits.len() ==> digits[k] == src@[start + k],
            forall|k: int| 0 <= k < i - start ==> (digits[k] == '0' || digits[k] == '1'),
        decreases n - i,
    {
        let c = src.get_char(i);
        if c != '0' && c != '1' {
            proof {
                assert(digits[i - start] == src@[i as int]);
            }
            return Err(ParseBinaryError::InvalidDigit);
        }
        i = i + 1;
    }
    assert(all_binary(digits));
    let mut acc: u64 = 0;
    let mut j: usize = start;
    proof {
        assert(digits.take(0) =~= Seq::<char>::empty());
    }
    while j < n
        invariant
            start <= j <= n,
            n == src@.len(),
            digits == digits_of(src@),
            digits.len() == n - start,
            forall|k: int| 0 <= k < digits.len() ==> digits[k] == src@[start + k],
            all_binary(digits),
            acc as int == bin_val(digits.take(j - start)),
        decreases n - j,
    {
        let c = src.get_char(j);
        proof {
            assert(digits.take(j - start + 1).drop_last() =~= digits.take(j - start));
            assert(digits.take(j - start + 1).last() == digits[j - start]);
            assert(digits[j - start] == src@[j as int]);
        }
        let d: u64 = if c == '1' {
            1
        } else {
            0
        };
        if acc >= 0x8000_0000_0000_0000 {
            proof {
                lemma_bin_val_prefix_le(digits, j - start + 1);
                lemma_bin_val_nonneg(digits.take(j - start + 1));
            }
            return Err(ParseBinaryError::Overflow);
        }
        acc = acc * 2 + d;
        j = j + 1;
    }
    proof {
        assert(digits.take(n - start) =~= digits);
    }
    Ok(acc)
}

/// The seed template: a solid core of `1`s followed by the spaced `01`
/// pairs.
pub open spec fn spec_seed_template(minimizer_len: int, minimizer_spaces: int) -> Seq<char> {
    Seq::new((minimizer_len - 2 * minimizer_spaces) as nat, |i: int| '1') + Seq::new(
        (2 * minimizer_spaces) as nat,
        |i: int|
            if i % 2 == 0 {
                '0'
            } else {
                '1'
            },
    )
}

/// Builds the spaced-seed template for a minimizer scheme: one `1` for each
/// solid position, then one `01` pair per space. The space budget is capped
/// at a quarter of the minimizer length.
pub fn construct_seed_template(minimizer_len: usize, minimizer_spaces: usize) -> (r: String)
    requires
        minimizer_spaces <= minimizer_len / 4,
    ensures
        r@ =~= spec_seed_template(minimizer_len as int, minimizer_spaces as int),
{
    proof {
        assert(4 * (minimizer_len / 4) <= minimizer_len);
    }
    let core_len = minimizer_len - 2 * minimizer_spaces;
    let mut s = String::new();
    let mut i: usize = 0;
    proof {
        reveal_strlit("1");
        assert("1"@ =~= seq!['1']);
        reveal_strlit("01");
        assert("01"@ =~= seq!['0', '1']);
    }
    while i < core_len
        invariant
            i <= core_len,
            s@ =~= Seq::new(i as nat, |k: int| '1'),
            "1"@ =~= seq!['1'],
        decreases core_len - i,
    {
        s.append("1");
        proof {
            assert(Seq::new(i as nat, |k: int| '1').push('1') =~= Seq::new(
                (i + 1) as nat,
                |k: int| '1',
            ));
        }
        i = i + 1;
    }
    let ghost core = Seq::new(core_len as nat, |k: int| '1');
    let mut j: usize = 0;
    while j < minimizer_spaces
        invariant
            j <= minimizer_spaces,
            s@ =~= core + Seq::new(
                (2 * j) as nat,
                |k: int|
                    if k % 2 == 0 {
                        '0'
                    } else {
                        '1'
                    },
            ),
            "01"@ =~= seq!['0', '1'],
        decreases minimizer_spaces - j,
    {
        s.append("01");
        proof {
            assert(Seq::new(
                (2 * j) as nat,
                |k: int|
                    if k % 2 == 0 {
                        '0'
                    } else {
                        '1'
                    },
            ) + seq!['0', '1'] =~= Seq::new(
                (2 * (j + 1)) as nat,
                |k: int|
                    if k % 2 == 0 {
                        '0'
                    } else {
                        '1'
                    },
            ));
        }
        j = j + 1;
    }
    s
}

} // verus!
