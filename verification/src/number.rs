//! Reading a field as a decimal integer where it is one.

use vstd::prelude::*;

verus! {

/// Whether a character is a decimal digit.
pub open spec fn is_digit(c: char) -> bool {
    48 <= c as int <= 57
}

/// The value of a decimal digit.
pub open spec fn digit_val(c: char) -> int {
    c as int - 48
}

/// Whether every character is a decimal digit.
pub open spec fn all_digits(s: Seq<char>) -> bool {
    forall|i: int| 0 <= i < s.len() ==> is_digit(#[trigger] s[i])
}

/// The number a sequence of decimal digits denotes.
pub open spec fn digits_value(s: Seq<char>) -> int
    decreases s.len(),
{
    if s.len() == 0 {
        0
    } else {
        digits_value(s.drop_last()) * 10 + digit_val(s.last())
    }
}

/// The number a decimal integer literal denotes: an optional sign followed
/// by one or more digits.  `None` when the text is not such a literal.
pub open spec fn int_literal_value(s: Seq<char>) -> Option<int> {
    if s.len() > 0 && (s[0] == '+' || s[0] == '-') {
        let digits = s.drop_first();
        if digits.len() > 0 && all_digits(digits) {
            if s[0] == '-' {
                Option::Some(-digits_value(digits))
            } else {
                Option::Some(digits_value(digits))
            }
        } else {
            Option::None
        }
    } else if s.len() > 0 && all_digits(s) {
        Option::Some(digits_value(s))
    } else {
        Option::None
    }
}

/// The number a text denotes as a machine integer: `None` when it is not a
/// decimal integer literal or lies outside the representable range.
pub open spec fn parsed_i64(s: Seq<char>) -> Option<int> {
    match int_literal_value(s) {
        Option::Some(v) => if i64::MIN <= v <= i64::MAX {
            Option::Some(v)
        } else {
            Option::None
        },
        Option::None => Option::None,
    }
}

/// A sequence of digits denotes a number that is not negative.
proof fn lemma_digits_value_nonneg(s: Seq<char>)
    requires
        all_digits(s),
    ensures
        digits_value(s) >= 0,
    decreases s.len(),
{
    if s.len() > 0 {
        assert(all_digits(s.drop_last()));
        lemma_digits_value_nonneg(s.drop_last());
    }
}

/// A prefix of a sequence of digits denotes at most the number the whole
/// sequence denotes.
proof fn lemma_digits_value_take_le(s: Seq<char>, at: int)
    requires
        0 <= at <= s.len(),
        all_digits(s),
    ensures
        digits_value(s.take(at)) <= digits_value(s),
    decreases s.len() - at,
{
    if at == s.len() {
        assert(s.take(at) =~= s);
    } else {
        assert(s.take(at + 1).drop_last() =~= s.take(at));
        assert(all_digits(s.take(at)));
        lemma_digits_value_nonneg(s.take(at));
        lemma_digits_value_take_le(s, at + 1);
    }
}

/// Reads the input as a decimal integer where it is one — an optional sign
/// followed by one or more digits, denoting a number the machine integer can
/// hold — and otherwise keeps it as the name it is.
pub fn num_or_name<'a>(input: &'a str) -> (parsed: Result<i64, &'a str>)
    ensures
        match parsed {
            Result::Ok(number) => parsed_i64(input@) == Option::Some(number as int),
            Result::Err(name) => parsed_i64(input@) is None && name@ == input@,
        },
{
    let n = input.unicode_len();
    if n == 0 {
        return Result::Err(input);
    }
    let first = input.get_char(0);
    let negative = first == '-';
    let has_sign = negative || first == '+';
    let start: usize = if has_sign {
        1
    } else {
        0
    };
    if n == start {
        return Result::Err(input);
    }
    let ghost digits = if has_sign {
        input@.drop_first()
    } else {
        input@
    };
    // The value read so far, negated: the negative side of the range is the
    // wider one, so accumulating downward loses no representable literal.
    let mut acc: i64 = 0;
    let mut i: usize = start;
    assert(digits.take(0) =~= Seq::<char>::empty());
    while i < n
        invariant
            n == input@.len(),
            start <= i <= n,
            start == 1 || start == 0,
            has_sign == (start == 1),
            has_sign == (input@[0] == '+' || input@[0] == '-'),
            negative == (input@[0] == '-'),
            digits == (if has_sign {
                input@.drop_first()
            } else {
                input@
            }),
            digits.len() == n - start,
            forall|k: int| 0 <= k < i - start ==> is_digit(#[trigger] digits[k]),
            acc == -digits_value(digits.take(i - start)),
        decreases n - i,
    {
        let ghost j = i - start;
        let c = input.get_char(i);
        proof {
            assert(digits[j] == input@[i as int]);
        }
        let code = c as u32;
        if code < 48 || code > 57 {
            assert(!is_digit(digits[j]));
            return Result::Err(input);
        }
        let d = (code - 48) as i64;
        let ghost value_so_far = digits_value(digits.take(j));
        proof {
            assert(digits.take(j + 1).drop_last() =~= digits.take(j));
            assert(digits.take(j + 1).last() == digits[j]);
            assert(digits_value(digits.take(j + 1)) == value_so_far * 10 + digit_val(digits[j]));
        }
        proof {
            assert(all_digits(digits.take(j)));
            lemma_digits_value_nonneg(digits.take(j));
        }
        let widened = match acc.checked_mul(10) {
            Option::Some(v) => v,
            Option::None => {
                proof {
                    assert(acc * 10 < i64::MIN);
                    assert(value_so_far * 10 == -(acc * 10));
                    assert(value_so_far * 10 + digit_val(digits[j]) > i64::MAX + 1);
                    lemma_out_of_range(digits, j, value_so_far * 10 + digit_val(digits[j]));
                    lemma_literal_out_of_range(input@, digits, has_sign);
                }
                return Result::Err(input);
            },
        };
        let lowered = match widened.checked_sub(d) {
            Option::Some(v) => v,
            Option::None => {
                proof {
                    assert(widened - d < i64::MIN);
                    assert(value_so_far * 10 + digit_val(digits[j]) == -(widened - d));
                    assert(value_so_far * 10 + digit_val(digits[j]) > i64::MAX + 1);
                    lemma_out_of_range(digits, j, value_so_far * 10 + digit_val(digits[j]));
                    lemma_literal_out_of_range(input@, digits, has_sign);
                }
                return Result::Err(input);
            },
        };
        acc = lowered;
        i = i + 1;
    }
    proof {
        assert(digits.take(n - start) =~= digits);
        assert(all_digits(digits));
    }
    if negative {
        return Result::Ok(acc);
    }
    if acc == i64::MIN {
        // The digits denote one more than the largest representable number.
        return Result::Err(input);
    }
    Result::Ok(-acc)
}

/// Once the digits read so far denote a number past the representable range,
/// the whole digit sequence does too.
proof fn lemma_out_of_range(digits: Seq<char>, at: int, partial: int)
    requires
        0 <= at < digits.len(),
        is_digit(digits[at]),
        partial == digits_value(digits.take(at + 1)),
        partial > i64::MAX + 1,
    ensures
        !all_digits(digits) || digits_value(digits) > i64::MAX + 1,
{
    if all_digits(digits) {
        lemma_digits_value_take_le(digits, at + 1);
    }
}

/// A literal whose digits denote a number past the representable range on
/// both sides denotes no machine integer, whatever its sign.
proof fn lemma_literal_out_of_range(text: Seq<char>, digits: Seq<char>, has_sign: bool)
    requires
        digits == (if has_sign {
            text.drop_first()
        } else {
            text
        }),
        has_sign ==> text.len() > 0 && (text[0] == '+' || text[0] == '-'),
        !has_sign ==> !(text.len() > 0 && (text[0] == '+' || text[0] == '-')),
        !all_digits(digits) || digits_value(digits) > i64::MAX + 1,
    ensures
        parsed_i64(text) is None,
{
}

} // verus!
