//! Conversion of literal text into scalar values: signed decimal
//! integers (with an exact overflow rule) and the shape of float
//! literals, whose text the tree keeps verbatim.

use vstd::prelude::*;

verus! {

/// Whether `c` is a decimal digit.
pub open spec fn is_digit_char(c: char) -> bool {
    48 <= (c as u32) && (c as u32) <= 57
}

/// The value of a decimal digit.
pub open spec fn digit_val(c: char) -> int {
    (c as u32) - 48
}

/// Whether every character of `s` is a decimal digit.
pub open spec fn seq_is_digits(s: Seq<char>) -> bool {
    forall|i: int| 0 <= i < s.len() ==> is_digit_char(#[trigger] s[i])
}

/// The value of a digit string read in base ten.
pub open spec fn digits_value(s: Seq<char>) -> int
    decreases s.len(),
{
    if s.len() == 0 {
        0
    } else {
        digits_value(s.drop_last()) * 10 + digit_val(s.last())
    }
}

/// The first index at or after `i` that does not hold a digit (or the
/// end of `s`).
pub open spec fn digits_end_from(s: Seq<char>, i: nat) -> nat
    decreases s.len() - i,
{
    if i < s.len() && is_digit_char(s[i as int]) {
        digits_end_from(s, i + 1)
    } else {
        i
    }
}

/// The signed integer a piece of text denotes, if any: an optional
/// sign, then one or more decimal digits, nothing else, and a value
/// within the signed machine-integer range. Exactly the texts accepted
/// when converting a token of integer kind.
pub open spec fn int_value_of(s: Seq<char>) -> Option<int> {
    if s.len() == 0 {
        None
    } else {
        let neg = s[0] == '-';
        let body = if s[0] == '-' || s[0] == '+' {
            s.subrange(1, s.len() as int)
        } else {
            s
        };
        if body.len() == 0 || !seq_is_digits(body) {
            None
        } else if neg {
            if -digits_value(body) < isize::MIN {
                None
            } else {
                Some(-digits_value(body))
            }
        } else {
            if digits_value(body) > isize::MAX {
                None
            } else {
                Some(digits_value(body))
            }
        }
    }
}

/// Whether a piece of text has the shape of a float literal: an
/// optional minus sign, one or more digits, a dot, and one or more
/// digits, nothing else.
pub open spec fn is_float_text(s: Seq<char>) -> bool {
    let start: nat = if s.len() > 0 && s[0] == '-' {
        1nat
    } else {
        0nat
    };
    let e1 = digits_end_from(s, start);
    let e2 = digits_end_from(s, e1 + 1);
    e1 > start && e1 + 1 < s.len() && s[e1 as int] == '.' && e2 > e1 + 1 && e2 == s.len()
}

/// The digit run starting inside the text ends inside the text.
pub(crate) proof fn lemma_digits_end_bounds(s: Seq<char>, i: nat)
    requires
        i <= s.len(),
    ensures
        i <= digits_end_from(s, i) <= s.len(),
    decreases s.len() - i,
{
    if i < s.len() && is_digit_char(s[i as int]) {
        lemma_digits_end_bounds(s, i + 1);
    }
}

/// When every character from `i` on is a digit, the digit run ends
/// only at the end of the text.
pub(crate) proof fn lemma_digits_end_all(s: Seq<char>, i: nat)
    requires
        i <= s.len(),
        forall|j: int| i <= j < s.len() ==> is_digit_char(#[trigger] s[j]),
    ensures
        digits_end_from(s, i) == s.len(),
    decreases s.len() - i,
{
    if i < s.len() {
        lemma_digits_end_all(s, i + 1);
    }
}

/// A digit string has a non-negative value.
proof fn lemma_digits_value_nonneg(s: Seq<char>)
    requires
        seq_is_digits(s),
    ensures
        digits_value(s) >= 0,
    decreases s.len(),
{
    if s.len() > 0 {
        lemma_digits_value_nonneg(s.drop_last());
    }
}

/// Extending a digit string never shrinks its value.
proof fn lemma_digits_value_prefix(s: Seq<char>, k: int)
    requires
        seq_is_digits(s),
        0 <= k <= s.len(),
    ensures
        digits_value(s.subrange(0, k)) <= digits_value(s),
    decreases s.len(),
{
    if k == s.len() {
        assert(s.subrange(0, k) =~= s);
    } else {
        lemma_digits_value_nonneg(s.drop_last());
        lemma_digits_value_prefix(s.drop_last(), k);
        assert(s.drop_last().subrange(0, k) =~= s.subrange(0, k));
    }
}

/// The end of the digit run starting at `from`.
pub(crate) fn scan_digits(text: &str, from: usize) -> (e: usize)
    requires
        from <= text@.len(),
    ensures
        e == digits_end_from(text@, from as nat),
        from <= e <= text@.len(),
{
    let len = text.unicode_len();
    let mut i = from;
    while i < len
        invariant
            from <= i <= len,
            len == text@.len(),
            digits_end_from(text@, from as nat) == digits_end_from(text@, i as nat),
        decreases len - i,
    {
        let c = text.get_char(i);
        if (c as u32) < 48 || (c as u32) > 57 {
            return i;
        }
        i = i + 1;
    }
    i
}

/// Converts integer-literal text to a signed machine integer:
/// `Some` exactly when the text is an optionally signed digit string
/// whose value is representable, `None` otherwise.
pub fn parse_integer(text: &str) -> (r: Option<isize>)
    ensures
        match int_value_of(text@) {
            Some(v) => isize::MIN <= v <= isize::MAX && r == Some(v as isize),
            None => r is None,
        },
{
    let len = text.unicode_len();
    if len == 0 {
        return None;
    }
    let first = text.get_char(0);
    let neg = first == '-';
    let start: usize = if first == '-' || first == '+' {
        1
    } else {
        0
    };
    if start >= len {
        return None;
    }
    let ghost body: Seq<char> = if text@[0] == '-' || text@[0] == '+' {
        text@.subrange(1, text@.len() as int)
    } else {
        text@
    };
    let bound: u128 = (isize::MAX as u128) + 1;
    let mut mag: u128 = 0;
    let mut i: usize = start;
    while i < len
        invariant
            start <= i <= len,
            start <= 1,
            start < len,
            len == text@.len(),
            bound == (isize::MAX as u128) + 1,
            body == (if text@[0] == '-' || text@[0] == '+' {
                text@.subrange(1, text@.len() as int)
            } else {
                text@
            }),
            body.len() == len - start,
            forall|j: int| 0 <= j < body.len() ==> body[j] == text@[j + start],
            seq_is_digits(body.subrange(0, i - start)),
            mag == digits_value(body.subrange(0, i - start)),
            mag <= bound,
        decreases len - i,
    {
        let c = text.get_char(i);
        let cv = c as u32;
        if cv < 48 || cv > 57 {
            assert(!is_digit_char(body[i - start]));
            return None;
        }
        let d = (cv - 48) as u128;
        let new_mag = mag * 10 + d;
        proof {
            let prefix = body.subrange(0, i + 1 - start);
            assert(prefix.drop_last() =~= body.subrange(0, i - start));
            assert(prefix.last() == body[i - start]);
        }
        if new_mag > bound {
            proof {
                if seq_is_digits(body) {
                    lemma_digits_value_prefix(body, i + 1 - start);
                }
            }
            return None;
        }
        mag = new_mag;
        i = i + 1;
    }
    proof {
        assert(body.subrange(0, i - start) =~= body);
    }
    if neg {
        if mag == bound {
            assert(-digits_value(body) == isize::MIN);
            Some(isize::MIN)
        } else {
            Some(-(mag as isize))
        }
    } else {
        if mag > bound - 1 {
            None
        } else {
            Some(mag as isize)
        }
    }
}

/// Tests whether text has the shape of a float literal.
pub fn check_float_text(text: &str) -> (b: bool)
    ensures
        b == is_float_text(text@),
{
    let len = text.unicode_len();
    if len == 0 {
        return false;
    }
    let start: usize = if text.get_char(0) == '-' {
        1
    } else {
        0
    };
    if start >= len {
        return false;
    }
    let e1 = scan_digits(text, start);
    if e1 <= start {
        return false;
    }
    if !(e1 < len - 1) {
        return false;
    }
    if text.get_char(e1) != '.' {
        return false;
    }
    let e2 = scan_digits(text, e1 + 1);
    if e2 <= e1 + 1 {
        return false;
    }
    e2 == len
}

} // verus!
