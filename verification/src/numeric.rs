//! Exact decimal numbers read from cell texts, the fallible coercion step
//! between a loaded table and a plot.

use vstd::prelude::*;

use crate::chars::{all_digits, digit_val, digits_val, is_digit};
use crate::chars::lemma_digits_val_prefix_le;
use crate::split::{split_char, split_str, views};

verus! {

/// An exact decimal number; it denotes `mantissa / 10^scale`, negated when
/// `neg` is set.
#[derive(Clone, Copy, Debug, PartialEq, Eq, Structural)]
pub struct Decimal {
    pub neg: bool,
    pub mantissa: u128,
    pub scale: usize,
}

/// The unbounded value a decimal literal denotes.
pub struct DecModel {
    pub neg: bool,
    pub mantissa: nat,
    pub scale: nat,
}

/// The decimal literals accepted as cell values: an optional leading minus
/// sign, a nonempty run of digits, and optionally a dot followed by a
/// nonempty run of digits.
pub open spec fn spec_parse_decimal(s: Seq<char>) -> Option<DecModel> {
    if s.len() == 0 {
        None
    } else {
        let neg = s[0] == '-';
        let body = if neg {
            s.drop_first()
        } else {
            s
        };
        let parts = split_char(body, '.');
        if parts.len() == 1 && parts[0].len() > 0 && all_digits(parts[0]) {
            Some(DecModel { neg, mantissa: digits_val(parts[0]), scale: 0 })
        } else if parts.len() == 2 && parts[0].len() > 0 && parts[1].len() > 0 && all_digits(
            parts[0],
        ) && all_digits(parts[1]) {
            Some(
                DecModel {
                    neg,
                    mantissa: digits_val(parts[0] + parts[1]),
                    scale: parts[1].len(),
                },
            )
        } else {
            None
        }
    }
}

/// Whether the cell text denotes a decimal that `Decimal` can hold.
pub open spec fn cell_numeric(s: Seq<char>) -> bool {
    spec_parse_decimal(s) matches Some(m) && m.mantissa <= u128::MAX
}

/// The `Decimal` a numeric cell text denotes.
pub open spec fn spec_dec(s: Seq<char>) -> Decimal
    recommends
        cell_numeric(s),
{
    let m = spec_parse_decimal(s)->Some_0;
    Decimal { neg: m.neg, mantissa: m.mantissa as u128, scale: m.scale as usize }
}

/// The digit value of `c`, when it has one.
fn digit_of_char(c: char) -> (r: Option<u8>)
    ensures
        match r {
            Some(d) => is_digit(c) && d == digit_val(c),
            None => !is_digit(c),
        },
{
    if c == '0' {
        Some(0)
    } else if c == '1' {
        Some(1)
    } else if c == '2' {
        Some(2)
    } else if c == '3' {
        Some(3)
    } else if c == '4' {
        Some(4)
    } else if c == '5' {
        Some(5)
    } else if c == '6' {
        Some(6)
    } else if c == '7' {
        Some(7)
    } else if c == '8' {
        Some(8)
    } else if c == '9' {
        Some(9)
    } else {
        None
    }
}

/// Parse a nonempty run of digits into its value. Fails when the text is
/// empty, holds a non-digit, or denotes more than `u128` holds.
pub fn parse_digits(s: &str) -> (r: Option<u128>)
    ensures
        match r {
            Some(v) => s@.len() > 0 && all_digits(s@) && v == digits_val(s@),
            None => !(s@.len() > 0 && all_digits(s@) && digits_val(s@) <= u128::MAX),
        },
{
    let len = s.unicode_len();
    if len == 0 {
        return None;
    }
    let mut val: u128 = 0;
    let mut i: usize = 0;
    proof {
        assert(s@.subrange(0, 0) =~= Seq::<char>::empty());
    }
    while i < len
        invariant
            len == s@.len(),
            i <= len,
            all_digits(s@.subrange(0, i as int)),
            val == digits_val(s@.subrange(0, i as int)),
        decreases len - i,
    {
        let c = s.get_char(i);
        proof {
            assert(s@.subrange(0, i + 1) =~= s@.subrange(0, i as int).push(s@[i as int]));
            assert(s@.subrange(0, i + 1).drop_last() =~= s@.subrange(0, i as int));
        }
        match digit_of_char(c) {
            Some(d) => {
                match val.checked_mul(10) {
                    Some(shifted) => {
                        match shifted.checked_add(d as u128) {
                            Some(next) => {
                                val = next;
                            },
                            None => {
                                proof {
                                    lemma_digits_val_prefix_le(s@, i + 1, len as int);
                                    assert(s@.subrange(0, len as int) =~= s@);
                                }
                                return None;
                            },
                        }
                    },
                    None => {
                        proof {
                            lemma_digits_val_prefix_le(s@, i + 1, len as int);
                            assert(s@.subrange(0, len as int) =~= s@);
                            assert(digits_val(s@.subrange(0, i + 1)) >= val * 10);
                        }
                        return None;
                    },
                }
            },
            None => {
                return None;
            },
        }
        i = i + 1;
    }
    proof {
        assert(s@.subrange(0, len as int) =~= s@);
    }
    Some(val)
}

/// Splitting a concatenation into digits of each part.
proof fn lemma_all_digits_concat(a: Seq<char>, b: Seq<char>)
    ensures
        all_digits(a + b) == (all_digits(a) && all_digits(b)),
{
    if all_digits(a) && all_digits(b) {
        assert forall|i: int| 0 <= i < (a + b).len() implies is_digit(#[trigger] (a + b)[i]) by {
            if i < a.len() {
                assert((a + b)[i] == a[i]);
            } else {
                assert((a + b)[i] == b[i - a.len()]);
            }
        }
    }
    if all_digits(a + b) {
        assert forall|i: int| 0 <= i < a.len() implies is_digit(#[trigger] a[i]) by {
            assert((a + b)[i] == a[i]);
        }
        assert forall|i: int| 0 <= i < b.len() implies is_digit(#[trigger] b[i]) by {
            assert((a + b)[i + a.len()] == b[i]);
        }
    }
}

/// Parse one cell text as a decimal literal.
///
/// Returns the denoted value exactly when the text is a decimal literal
/// whose mantissa fits in `u128`, and nothing otherwise.
pub fn parse_decimal(s: &str) -> (r: Option<Decimal>)
    ensures
        cell_numeric(s@) ==> r == Some(spec_dec(s@)),
        !cell_numeric(s@) ==> r is None,
{
    let len = s.unicode_len();
    if len == 0 {
        return None;
    }
    let neg = s.get_char(0) == '-';
    let body: &str = if neg {
        s.substring_char(1, len)
    } else {
        s
    };
    proof {
        if neg {
            assert(body@ =~= s@.drop_first());
        }
    }
    let parts = split_str(body, '.');
    proof {
        assert(views(parts@).len() == parts@.len());
    }
    if parts.len() == 1 {
        proof {
            assert(parts@[0]@ == split_char(body@, '.')[0]);
        }
        match parse_digits(parts[0].as_str()) {
            Some(v) => Some(Decimal { neg, mantissa: v, scale: 0 }),
            None => None,
        }
    } else if parts.len() == 2 {
        proof {
            assert(parts@[0]@ == split_char(body@, '.')[0]);
            assert(parts@[1]@ == split_char(body@, '.')[1]);
        }
        if parts[0].as_str().is_empty() || parts[1].as_str().is_empty() {
            return None;
        }
        let joined = parts[0].clone().concat(parts[1].as_str());
        proof {
            lemma_all_digits_concat(parts@[0]@, parts@[1]@);
        }
        let scale = parts[1].as_str().unicode_len();
        match parse_digits(joined.as_str()) {
            Some(v) => Some(Decimal { neg, mantissa: v, scale }),
            None => None,
        }
    } else {
        None
    }
}

} // verus!
