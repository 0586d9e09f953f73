//! Parsing a word as a signed 64-bit decimal integer: an optional `+` or `-`
//! sign followed by one or more ASCII digits, with the value required to fit
//! in `i64`.

use vstd::prelude::*;

verus! {

/// ASCII decimal digit.
pub open spec fn is_digit(c: char) -> bool {
    48 <= c as u32 && c as u32 <= 57
}

/// The numeric value of a digit character.
pub open spec fn digit_val(c: char) -> int {
    c as u32 - 48
}

/// Every character of `s` is a decimal digit.
pub open spec fn all_digits(s: Seq<char>) -> bool {
    forall|i: int| 0 <= i < s.len() ==> is_digit(#[trigger] s[i])
}

/// The value of a digit sequence read in base 10.
pub open spec fn dec_val(s: Seq<char>) -> int
    decreases s.len(),
{
    if s.len() == 0 {
        0
    } else {
        dec_val(s.drop_last()) * 10 + digit_val(s.last())
    }
}

/// `s` begins with an explicit sign character.
pub open spec fn has_sign(s: Seq<char>) -> bool {
    s.len() > 0 && (s[0] == '+' || s[0] == '-')
}

/// The digit part of an integer literal: everything after an optional sign.
pub open spec fn int_body(s: Seq<char>) -> Seq<char> {
    if has_sign(s) {
        s.skip(1)
    } else {
        s
    }
}

/// `s` is an optionally signed, non-empty digit string.
pub open spec fn well_formed_int(s: Seq<char>) -> bool {
    int_body(s).len() > 0 && all_digits(int_body(s))
}

/// The signed mathematical value of a well-formed integer literal.
pub open spec fn int_value(s: Seq<char>) -> int {
    if s.len() > 0 && s[0] == '-' {
        -dec_val(int_body(s))
    } else {
        dec_val(int_body(s))
    }
}

/// `s` parses fully as a signed 64-bit integer.
pub open spec fn parses_as_i64(s: Seq<char>) -> bool {
    well_formed_int(s) && i64::MIN <= int_value(s) <= i64::MAX
}

/// The value of a digit sequence is non-negative.
pub proof fn lemma_dec_val_nonneg(s: Seq<char>)
    requires
        all_digits(s),
    ensures
        dec_val(s) >= 0,
    decreases s.len(),
{
    if s.len() > 0 {
        assert(all_digits(s.drop_last()));
        lemma_dec_val_nonneg(s.drop_last());
        assert(is_digit(s.last()));
    }
}

/// Reading one more digit multiplies the value by ten and adds the digit.
pub proof fn lemma_dec_val_step(s: Seq<char>, i: int)
    requires
        0 <= i < s.len(),
    ensures
        dec_val(s.subrange(0, i + 1)) == dec_val(s.subrange(0, i)) * 10 + digit_val(s[i]),
{
    let p = s.subrange(0, i + 1);
    assert(p.drop_last() =~= s.subrange(0, i));
    assert(p.last() == s[i]);
}

/// Parse `w` as a signed 64-bit decimal integer, as the classifier's integer
/// rule demands: `Some` exactly when `w` is an optionally signed digit string
/// whose value fits in `i64`.
pub fn parse_i64_word(w: &str) -> (r: Option<i64>)
    ensures
        r is Some <==> parses_as_i64(w@),
        r is Some ==> r->0 as int == int_value(w@),
{
    let n: usize = w.unicode_len();
    if n == 0 {
        return None;
    }
    let first: char = w.get_char(0);
    let neg: bool = first == '-';
    let start: usize = if first == '-' || first == '+' {
        1
    } else {
        0
    };
    if start >= n {
        // a bare sign has an empty digit part
        assert(int_body(w@) =~= w@.skip(1));
        return None;
    }
    let ghost body = int_body(w@);
    proof {
        if has_sign(w@) {
            assert(body =~= w@.subrange(1, n as int));
        } else {
            assert(body =~= w@.subrange(0, n as int));
        }
        assert(body =~= w@.subrange(start as int, n as int));
        assert(body.subrange(0, 0) =~= Seq::<char>::empty());
    }
    let mut i: usize = start;
    // magnitude so far, capped just above 2^63 once it can no longer fit
    let mut mag: u128 = 0;
    while i < n
        invariant
            start <= i <= n,
            n == w@.len(),
            start < n,
            body == int_body(w@),
            body == w@.subrange(start as int, n as int),
            all_digits(body.subrange(0, i - start)),
            mag <= 9223372036854775809u128,
            mag <= 9223372036854775808u128 ==> mag as int == dec_val(body.subrange(0, i - start)),
            mag > 9223372036854775808u128 ==> dec_val(body.subrange(0, i - start))
                > 9223372036854775808i128 as int,
        decreases n - i,
    {
        let c: char = w.get_char(i);
        let u: u32 = c as u32;
        if !(48 <= u && u <= 57) {
            // a non-digit in the body: the word is not an integer literal
            proof {
                assert(body[i - start] == w@[i as int]);
                assert(!is_digit(body[i - start]));
            }
            return None;
        }
        let d: u128 = (u - 48) as u128;
        let ghost prefix = body.subrange(0, i - start);
        let ghost prefix1 = body.subrange(0, i + 1 - start);
        proof {
            lemma_dec_val_step(body, i - start);
            assert(all_digits(prefix1));
            lemma_dec_val_nonneg(prefix);
        }
        if mag > 9223372036854775808u128 {
            // already over the line: one more digit cannot bring it back
            proof {
                assert(dec_val(prefix1) == dec_val(prefix) * 10 + digit_val(body[i - start]));
                assert(dec_val(prefix) * 10 >= dec_val(prefix)) by {
                    lemma_dec_val_nonneg(prefix);
                }
            }
        } else {
            mag = mag * 10 + d;
            if mag > 9223372036854775808u128 {
                mag = 9223372036854775809u128;
            }
        }
        i = i + 1;
    }
    proof {
        assert(body.subrange(0, n - start) =~= body);
    }
    if mag > 9223372036854775807u128 {
        if neg && mag == 9223372036854775808u128 {
            return Some(i64::MIN);
        }
        // magnitude out of range for the sign
        proof {
            if mag == 9223372036854775809u128 {
                assert(dec_val(body) > 9223372036854775808i128 as int);
            }
        }
        return None;
    }
    let m: i64 = mag as i64;
    if neg {
        Some(-m)
    } else {
        Some(m)
    }
}

} // verus!
