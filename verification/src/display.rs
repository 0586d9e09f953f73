//! Human-readable text for each token kind, as the diagnostic dump prints
//! it: keywords and operators render as themselves, name-carrying kinds as
//! their text, integer literals in decimal, and the fallback as nothing.

use vstd::prelude::*;

use crate::token::SpecTokenKind;
use crate::token::TokenKind;

verus! {

/// The digit character for a value below ten.
pub open spec fn digit_char(d: nat) -> char {
    if d == 0 {
        '0'
    } else if d == 1 {
        '1'
    } else if d == 2 {
        '2'
    } else if d == 3 {
        '3'
    } else if d == 4 {
        '4'
    } else if d == 5 {
        '5'
    } else if d == 6 {
        '6'
    } else if d == 7 {
        '7'
    } else if d == 8 {
        '8'
    } else {
        '9'
    }
}

/// The decimal digits of `n`, most significant first, with no leading zero
/// except for zero itself.
pub open spec fn dec_digits(n: nat) -> Seq<char>
    decreases n,
{
    if n < 10 {
        seq![digit_char(n)]
    } else {
        dec_digits(n / 10).push(digit_char(n % 10))
    }
}

/// The canonical decimal text of `n`: a minus sign exactly when negative.
pub open spec fn dec_str_of(n: int) -> Seq<char> {
    if n < 0 {
        seq!['-'] + dec_digits((-n) as nat)
    } else {
        dec_digits(n as nat)
    }
}

/// The display text of a token kind.
pub open spec fn display_of(k: SpecTokenKind) -> Seq<char> {
    match k {
        SpecTokenKind::SemiColon => "SemiColon"@,
        SpecTokenKind::EndOfFunctionKeyWord => "return"@,
        SpecTokenKind::ConstKeyword => "const"@,
        SpecTokenKind::IntLiteral(n) => dec_str_of(n),
        SpecTokenKind::Let => "let"@,
        SpecTokenKind::If => "if"@,
        SpecTokenKind::Else => "else"@,
        SpecTokenKind::True => "true"@,
        SpecTokenKind::False => "false"@,
        SpecTokenKind::Func => "func"@,
        SpecTokenKind::ArrowFunction => "=>"@,
        SpecTokenKind::LeftParen => "("@,
        SpecTokenKind::RightParen => ")"@,
        SpecTokenKind::LeftCurly => "{"@,
        SpecTokenKind::RightCurly => "}"@,
        SpecTokenKind::Unidentified => Seq::empty(),
        SpecTokenKind::SpecialType => "::"@,
        SpecTokenKind::TypeOf => ":"@,
        SpecTokenKind::FuncName(s) => s,
        SpecTokenKind::Equals => "="@,
        SpecTokenKind::VariableName(s) => s,
        SpecTokenKind::String(s) => s,
        SpecTokenKind::Char => "char"@,
        SpecTokenKind::Number => "number"@,
    }
}

/// Append the digit character for `d` to `s`.
fn push_digit(s: &mut String, d: u64)
    requires
        d < 10,
    ensures
        final(s)@ == old(s)@.push(digit_char(d as nat)),
{
    let digits: &str = "0123456789";
    proof {
        reveal_strlit("0123456789");
    }
    let piece: &str = digits.substring_char(d as usize, d as usize + 1);
    proof {
        assert(piece@ =~= seq![digit_char(d as nat)]);
    }
    s.append(piece);
    proof {
        assert(s@ =~= old(s)@.push(digit_char(d as nat)));
    }
}

/// Render `n` in decimal, exactly as the canonical decimal text.
pub fn int_literal_text(n: i64) -> (r: String)
    ensures
        r@ == dec_str_of(n as int),
{
    let neg: bool = n < 0;
    let mag: u64 = if n < 0 {
        (-(n as i128)) as u64
    } else {
        n as u64
    };
    let mut rev: Vec<u64> = Vec::new();
    rev.push(mag % 10);
    let mut m: u64 = mag / 10;
    proof {
        let digits_of = |r: Seq<u64>|
            Seq::new(r.len(), |k: int| digit_char(r[r.len() - 1 - k] as nat));
        if m == 0 {
            assert(dec_digits(mag as nat) =~= digits_of(rev@));
        } else {
            assert(dec_digits(mag as nat) == dec_digits(m as nat).push(
                digit_char((mag % 10) as nat),
            ));
            assert(dec_digits(mag as nat) =~= dec_digits(m as nat) + digits_of(rev@));
        }
    }
    while m > 0
        invariant
            rev@.len() > 0,
            forall|k: int| 0 <= k < rev@.len() ==> #[trigger] rev@[k] < 10,
            m > 0 ==> dec_digits(mag as nat) =~= dec_digits(m as nat) + Seq::new(
                rev@.len(),
                |k: int| digit_char(rev@[rev@.len() - 1 - k] as nat),
            ),
            m == 0 ==> dec_digits(mag as nat) =~= Seq::new(
                rev@.len(),
                |k: int| digit_char(rev@[rev@.len() - 1 - k] as nat),
            ),
        decreases m,
    {
        let ghost rev0 = rev@;
        let ghost m0 = m;
        let d: u64 = m % 10;
        rev.push(d);
        m = m / 10;
        proof {
            let digits_of = |r: Seq<u64>|
                Seq::new(r.len(), |k: int| digit_char(r[r.len() - 1 - k] as nat));
            assert(digits_of(rev@) =~= seq![digit_char(d as nat)] + digits_of(rev0));
            if m == 0 {
                assert(dec_digits(m0 as nat) =~= seq![digit_char(d as nat)]);
                assert(dec_digits(mag as nat) =~= digits_of(rev@));
            } else {
                assert(dec_digits(m0 as nat) == dec_digits(m as nat).push(digit_char(d as nat)));
                assert(dec_digits(mag as nat) =~= dec_digits(m as nat) + digits_of(rev@));
            }
        }
    }
    let mut out: String = String::new();
    if neg {
        proof {
            reveal_strlit("-");
        }
        out.append("-");
    }
    let ghost prefix = out@;
    proof {
        if neg {
            assert(prefix =~= seq!['-']);
        } else {
            assert(prefix =~= Seq::<char>::empty());
        }
    }
    let mut j: usize = rev.len();
    while j > 0
        invariant
            j <= rev@.len(),
            forall|k: int| 0 <= k < rev@.len() ==> #[trigger] rev@[k] < 10,
            out@ =~= prefix + Seq::new(
                (rev@.len() - j) as nat,
                |k: int| digit_char(rev@[rev@.len() - 1 - k] as nat),
            ),
        decreases j,
    {
        j = j - 1;
        push_digit(&mut out, rev[j]);
        proof {
            assert(out@ =~= prefix + Seq::new(
                (rev@.len() - j) as nat,
                |k: int| digit_char(rev@[rev@.len() - 1 - k] as nat),
            ));
        }
    }
    proof {
        assert(Seq::new(rev@.len(), |k: int| digit_char(rev@[rev@.len() - 1 - k] as nat))
            =~= dec_digits(mag as nat));
        assert(out@ =~= prefix + dec_digits(mag as nat));
        if neg {
            assert(out@ =~= dec_str_of(n as int));
        } else {
            assert(out@ =~= dec_str_of(n as int));
        }
    }
    out
}

impl TokenKind {
    /// The display text of this token kind.
    pub fn display_text(&self) -> (r: String)
        ensures
            r@ == display_of(self.model()),
    {
        match self {
            TokenKind::SemiColon => "SemiColon".to_owned(),
            TokenKind::EndOfFunctionKeyWord => "return".to_owned(),
            TokenKind::ConstKeyword => "const".to_owned(),
            TokenKind::IntLiteral(n) => int_literal_text(*n),
            TokenKind::Let => "let".to_owned(),
            TokenKind::If => "if".to_owned(),
            TokenKind::Else => "else".to_owned(),
            TokenKind::True => "true".to_owned(),
            TokenKind::False => "false".to_owned(),
            TokenKind::Func => "func".to_owned(),
            TokenKind::ArrowFunction => "=>".to_owned(),
            TokenKind::LeftParen => "(".to_owned(),
            TokenKind::RightParen => ")".to_owned(),
            TokenKind::LeftCurly => "{".to_owned(),
            TokenKind::RightCurly => "}".to_owned(),
            TokenKind::Unidentified => {
                let r = "".to_owned();
                proof {
                    reveal_strlit("");
                    assert(r@ =~= Seq::<char>::empty());
                }
                r
            },
            TokenKind::SpecialType => "::".to_owned(),
            TokenKind::TypeOf => ":".to_owned(),
            TokenKind::FuncName(s) => s.clone(),
            TokenKind::Equals => "=".to_owned(),
            TokenKind::VariableName(s) => s.clone(),
            TokenKind::String(s) => s.clone(),
            TokenKind::Char => "char".to_owned(),
            TokenKind::Number => "number".to_owned(),
        }
    }
}

} // verus!
