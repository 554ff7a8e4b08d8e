//! Splitting a record once at the first unescaped separator, keeping the
//! escape characters in the halves.

use vstd::prelude::*;

use crate::token::ESCAPE_MARK;

verus! {

/// The index shifted: `None` stays `None`.
pub open spec fn shift_index(at: Option<int>, by: int) -> Option<int> {
    match at {
        Option::None => Option::None,
        Option::Some(j) => Option::Some(j + by),
    }
}

/// Where a flip-flopped scan first splits: the index of the first occurrence
/// of the separator that is not escaped.  The separator takes priority over
/// the escape character, as in the lexer; each escape character toggles the
/// pending-escape flag, an escaped separator is consumed and clears it, and
/// any other character clears it.
pub open spec fn split_index(s: Seq<char>, separator: char, escaped: bool) -> Option<int>
    decreases s.len(),
{
    if s.len() == 0 {
        Option::None
    } else if s[0] == separator {
        if escaped {
            shift_index(split_index(s.drop_first(), separator, false), 1)
        } else {
            Option::Some(0)
        }
    } else if s[0] == ESCAPE_MARK {
        shift_index(split_index(s.drop_first(), separator, !escaped), 1)
    } else {
        shift_index(split_index(s.drop_first(), separator, false), 1)
    }
}

/// Splits the input at the first unescaped separator into the halves before
/// and after it, the separator itself excluded; `None` when every separator
/// is escaped or none occurs.  The halves keep their escape characters.
pub fn flipflop_once<'a>(input: &'a str, separator: char) -> (split: Option<(&'a str, &'a str)>)
    ensures
        match split_index(input@, separator, false) {
            Option::None => split is None,
            Option::Some(at) => split matches Option::Some((head, tail)) && head@
                == input@.subrange(0, at) && tail@ == input@.subrange(at + 1, input@.len() as int),
        },
{
    let n = input.unicode_len();
    let mut escaped = false;
    let mut i: usize = 0;
    assert(input@.skip(0) =~= input@);
    while i < n
        invariant
            n == input@.len(),
            i <= n,
            split_index(input@, separator, false) == shift_index(
                split_index(input@.skip(i as int), separator, escaped),
                i as int,
            ),
        decreases n - i,
    {
        proof {
            assert(input@.skip(i as int).drop_first() =~= input@.skip(i as int + 1));
        }
        let c = input.get_char(i);
        if c == separator && !escaped {
            let head = input.substring_char(0, i);
            let tail = input.substring_char(i + 1, n);
            return Option::Some((head, tail));
        } else if c == separator {
            escaped = false;
        } else if c == ESCAPE_MARK {
            escaped = !escaped;
        } else {
            escaped = false;
        }
        i = i + 1;
    }
    assert(input@.skip(n as int) =~= Seq::<char>::empty());
    Option::None
}

} // verus!
