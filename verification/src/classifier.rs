//! The classifier: consumes the word sequence with a forward cursor and
//! produces typed tokens, looking one word ahead after `func`, `let`,
//! `const`, and `:` to classify the follow-up word.

use vstd::prelude::*;

use crate::chars::alphabetic_char;
use crate::chars::alphabetic_of;
use crate::chars::is_space;
use crate::parse_int::has_sign;
use crate::parse_int::int_body;
use crate::parse_int::int_value;
use crate::parse_int::is_digit;
use crate::parse_int::parse_i64_word;
use crate::parse_int::parses_as_i64;
use crate::splitter::split_spec;
use crate::splitter::split_words_into_vec;
use crate::splitter::word_views;
use crate::splitter::lemma_split_all_space;
use crate::token::Diagnostic;
use crate::token::DiagnosticKind;
use crate::token::SpecDiagnostic;
use crate::token::SpecToken;
use crate::token::SpecTokenKind;
use crate::token::TextSpan;
use crate::token::Token;
use crate::token::TokenKind;
use crate::token::diags_model;
use crate::token::lemma_diags_model_push;
use crate::token::lemma_tokens_model_push;
use crate::token::tokens_model;

verus! {

/// The token kind of a word that starts with a letter: an exact keyword
/// match, or the fallback.
pub open spec fn keyword_kind(w: Seq<char>) -> SpecTokenKind {
    if w == "let"@ {
        SpecTokenKind::Let
    } else if w == "if"@ {
        SpecTokenKind::If
    } else if w == "else"@ {
        SpecTokenKind::Else
    } else if w == "true"@ {
        SpecTokenKind::True
    } else if w == "false"@ {
        SpecTokenKind::False
    } else if w == "func"@ {
        SpecTokenKind::Func
    } else if w == "return"@ {
        SpecTokenKind::EndOfFunctionKeyWord
    } else if w == "const"@ {
        SpecTokenKind::ConstKeyword
    } else {
        SpecTokenKind::Unidentified
    }
}

/// The token kind of a word that does not start with a letter: an exact
/// operator or punctuation match, or the fallback. The `{`/`}` mapping is
/// deliberately swapped; it is pinned as observed behaviour.
pub open spec fn operator_kind(w: Seq<char>) -> SpecTokenKind {
    if w == ":"@ {
        SpecTokenKind::TypeOf
    } else if w == "::"@ {
        SpecTokenKind::SpecialType
    } else if w == "("@ {
        SpecTokenKind::LeftParen
    } else if w == ")"@ {
        SpecTokenKind::RightParen
    } else if w == "{"@ {
        SpecTokenKind::RightCurly
    } else if w == "}"@ {
        SpecTokenKind::LeftCurly
    } else if w == ";"@ {
        SpecTokenKind::SemiColon
    } else if w == "=>"@ {
        SpecTokenKind::ArrowFunction
    } else if w == "="@ {
        SpecTokenKind::Equals
    } else {
        SpecTokenKind::Unidentified
    }
}

/// The token kind of the word consumed after a `:`; the `String` marker
/// carries the colon's own text.
pub open spec fn type_marker_kind(next: Seq<char>, colon: Seq<char>) -> SpecTokenKind {
    if next == "String"@ {
        SpecTokenKind::String(colon)
    } else if next == "Number"@ {
        SpecTokenKind::Number
    } else if next == "Char"@ {
        SpecTokenKind::Char
    } else {
        SpecTokenKind::Unidentified
    }
}

/// The tokens the integer-literal and keyword rules emit for the word `w` at
/// position `i`: an integer literal (span size 8, the byte width of the
/// value), or a keyword-or-fallback token if the word starts with a letter,
/// or nothing.
pub open spec fn base_tokens(w: Seq<char>, i: nat) -> Seq<SpecToken> {
    if parses_as_i64(w) {
        seq![SpecToken { kind: SpecTokenKind::IntLiteral(int_value(w)), size: 8, index: i }]
    } else if w.len() > 0 && alphabetic_of(w[0]) {
        seq![SpecToken { kind: keyword_kind(w), size: w.len(), index: i }]
    } else {
        Seq::empty()
    }
}

/// The tokens emitted from cursor position `i` to the end of the word
/// sequence. A compound keyword consumes the following word; a word that
/// does not start with a letter gets an operator token, and a `:` consumes
/// and classifies the following type word as well.
pub open spec fn classify_from(ws: Seq<Seq<char>>, i: int) -> Seq<SpecToken>
    decreases ws.len() - i,
{
    if i < 0 || i >= ws.len() {
        Seq::empty()
    } else {
        let w = ws[i];
        let base = base_tokens(w, i as nat);
        if w == "func"@ {
            if i + 1 < ws.len() {
                base + seq![
                    SpecToken {
                        kind: SpecTokenKind::FuncName(ws[i + 1]),
                        size: ws[i + 1].len(),
                        index: (i + 1) as nat,
                    },
                ] + classify_from(ws, i + 2)
            } else {
                base + seq![
                    SpecToken { kind: SpecTokenKind::Unidentified, size: 0, index: (i + 1) as nat },
                ] + classify_from(ws, i + 1)
            }
        } else if w == "let"@ || w == "const"@ {
            if i + 1 < ws.len() {
                base + seq![
                    SpecToken {
                        kind: SpecTokenKind::VariableName(ws[i + 1]),
                        size: ws[i + 1].len(),
                        index: (i + 1) as nat,
                    },
                ] + classify_from(ws, i + 2)
            } else {
                base + seq![
                    SpecToken { kind: SpecTokenKind::Unidentified, size: 0, index: (i + 1) as nat },
                ] + classify_from(ws, i + 1)
            }
        } else {
            let base2 = if w.len() > 0 && !alphabetic_of(w[0]) {
                base + seq![SpecToken { kind: operator_kind(w), size: w.len(), index: i as nat }]
            } else {
                base
            };
            if w == ":"@ {
                if i + 1 < ws.len() {
                    base2 + seq![
                        SpecToken {
                            kind: type_marker_kind(ws[i + 1], w),
                            size: w.len(),
                            index: (i + 1) as nat,
                        },
                    ] + classify_from(ws, i + 2)
                } else {
                    base2 + classify_from(ws, i + 1)
                }
            } else {
                base2 + classify_from(ws, i + 1)
            }
        }
    }
}

/// The diagnostics emitted from cursor position `i` on: one for each
/// compound keyword that stands last in the word sequence, at the keyword's
/// own position.
pub open spec fn diags_from(ws: Seq<Seq<char>>, i: int) -> Seq<SpecDiagnostic>
    decreases ws.len() - i,
{
    if i < 0 || i >= ws.len() {
        Seq::empty()
    } else {
        let w = ws[i];
        if w == "func"@ {
            if i + 1 < ws.len() {
                diags_from(ws, i + 2)
            } else {
                seq![
                    SpecDiagnostic { kind: DiagnosticKind::MissingFunctionName, index: i as nat },
                ] + diags_from(ws, i + 1)
            }
        } else if w == "let"@ || w == "const"@ {
            if i + 1 < ws.len() {
                diags_from(ws, i + 2)
            } else {
                seq![
                    SpecDiagnostic { kind: DiagnosticKind::MissingVariableName, index: i as nat },
                ] + diags_from(ws, i + 1)
            }
        } else if w == ":"@ && i + 1 < ws.len() {
            diags_from(ws, i + 2)
        } else {
            diags_from(ws, i + 1)
        }
    }
}

/// Character-by-character string equality.
pub fn str_eq(w: &str, t: &str) -> (b: bool)
    ensures
        b == (w@ == t@),
{
    let wn: usize = w.unicode_len();
    let tn: usize = t.unicode_len();
    if wn != tn {
        return false;
    }
    let mut k: usize = 0;
    while k < wn
        invariant
            k <= wn,
            wn == w@.len(),
            wn == t@.len(),
            forall|m: int| 0 <= m < k ==> w@[m] == t@[m],
        decreases wn - k,
    {
        if w.get_char(k) != t.get_char(k) {
            return false;
        }
        k = k + 1;
    }
    proof {
        assert(w@ =~= t@);
    }
    true
}

/// Does the word start with an alphabetic character, so that the
/// keyword-or-identifier split takes the keyword branch?
pub fn is_keyword(token: &str) -> (b: bool)
    requires
        token@.len() > 0,
    ensures
        b == alphabetic_of(token@[0]),
{
    alphabetic_char(token.get_char(0))
}

/// Does the word start with anything but an alphabetic character, so that
/// the operator rule applies?
pub fn is_identifier(token: &str) -> (b: bool)
    requires
        token@.len() > 0,
    ensures
        b == !alphabetic_of(token@[0]),
{
    !is_keyword(token)
}

/// Exact keyword match for a word that starts with a letter.
fn keyword_token_kind(w: &str) -> (k: TokenKind)
    ensures
        k.model() == keyword_kind(w@),
{
    if str_eq(w, "let") {
        TokenKind::Let
    } else if str_eq(w, "if") {
        TokenKind::If
    } else if str_eq(w, "else") {
        TokenKind::Else
    } else if str_eq(w, "true") {
        TokenKind::True
    } else if str_eq(w, "false") {
        TokenKind::False
    } else if str_eq(w, "func") {
        TokenKind::Func
    } else if str_eq(w, "return") {
        TokenKind::EndOfFunctionKeyWord
    } else if str_eq(w, "const") {
        TokenKind::ConstKeyword
    } else {
        TokenKind::Unidentified
    }
}

/// Exact operator or punctuation match for a word that does not start with a
/// letter.
fn operator_token_kind(w: &str) -> (k: TokenKind)
    ensures
        k.model() == operator_kind(w@),
{
    if str_eq(w, ":") {
        TokenKind::TypeOf
    } else if str_eq(w, "::") {
        TokenKind::SpecialType
    } else if str_eq(w, "(") {
        TokenKind::LeftParen
    } else if str_eq(w, ")") {
        TokenKind::RightParen
    } else if str_eq(w, "{") {
        TokenKind::RightCurly
    } else if str_eq(w, "}") {
        TokenKind::LeftCurly
    } else if str_eq(w, ";") {
        TokenKind::SemiColon
    } else if str_eq(w, "=>") {
        TokenKind::ArrowFunction
    } else if str_eq(w, "=") {
        TokenKind::Equals
    } else {
        TokenKind::Unidentified
    }
}

/// Classify the word consumed after a `:`; the `String` marker keeps the
/// colon's own text.
fn type_marker_token_kind(next: &str, colon: &str) -> (k: TokenKind)
    ensures
        k.model() == type_marker_kind(next@, colon@),
{
    if str_eq(next, "String") {
        TokenKind::String(colon.to_owned())
    } else if str_eq(next, "Number") {
        TokenKind::Number
    } else if str_eq(next, "Char") {
        TokenKind::Char
    } else {
        TokenKind::Unidentified
    }
}

/// Classify a word sequence into tokens, reporting each compound keyword
/// that is missing its follow-up word as a diagnostic.
pub fn classify_with_diagnostics(words: &Vec<String>) -> (r: (Vec<Token>, Vec<Diagnostic>))
    requires
        forall|k: int| 0 <= k < words@.len() ==> (#[trigger] words@[k])@.len() > 0,
    ensures
        tokens_model(r.0@) == classify_from(word_views(words@), 0),
        diags_model(r.1@) == diags_from(word_views(words@), 0),
{
    let ghost ws = word_views(words@);
    let n: usize = words.len();
    let mut tokens: Vec<Token> = Vec::new();
    let mut diags: Vec<Diagnostic> = Vec::new();
    let mut i: usize = 0;
    proof {
        assert(tokens_model(tokens@) =~= Seq::<SpecToken>::empty());
        assert(diags_model(diags@) =~= Seq::<SpecDiagnostic>::empty());
        assert(Seq::<SpecToken>::empty() + classify_from(ws, 0) =~= classify_from(ws, 0));
        assert(Seq::<SpecDiagnostic>::empty() + diags_from(ws, 0) =~= diags_from(ws, 0));
    }
    while i < n
        invariant
            i <= n,
            n == words@.len(),
            ws == word_views(words@),
            forall|k: int| 0 <= k < words@.len() ==> (#[trigger] words@[k])@.len() > 0,
            classify_from(ws, 0) == tokens_model(tokens@) + classify_from(ws, i as int),
            diags_from(ws, 0) == diags_model(diags@) + diags_from(ws, i as int),
        decreases n - i,
    {
        let ghost t0 = tokens@;
        let ghost d0 = diags@;
        let ghost w = ws[i as int];
        let w_str: &str = words[i].as_str();
        assert(w_str@ == w);
        // rule 1 and 2: integer literal, else keyword-or-fallback for a word
        // that starts with a letter
        match parse_i64_word(w_str) {
            Option::Some(v) => {
                let t = Token {
                    kind: TokenKind::IntLiteral(v),
                    span: TextSpan { size: 8, index: i },
                };
                proof {
                    assert(t.model() == base_tokens(w, i as nat)[0]);
                    lemma_tokens_model_push(tokens@, t);
                }
                tokens.push(t);
            },
            Option::None => {
                if alphabetic_char(w_str.get_char(0)) {
                    let sz: usize = w_str.unicode_len();
                    let t = Token {
                        kind: keyword_token_kind(w_str),
                        span: TextSpan { size: sz, index: i },
                    };
                    proof {
                        assert(t.model() == base_tokens(w, i as nat)[0]);
                        lemma_tokens_model_push(tokens@, t);
                    }
                    tokens.push(t);
                }
            },
        }
        proof {
            assert(tokens_model(tokens@) =~= tokens_model(t0) + base_tokens(w, i as nat));
        }
        let ghost t1 = tokens@;
        // rule 3: compound keywords consume the following word
        let is_func: bool = str_eq(w_str, "func");
        let is_let: bool = str_eq(w_str, "let");
        let is_const: bool = str_eq(w_str, "const");
        let next_i: usize;
        if is_func || is_let || is_const {
            if i + 1 < n {
                let next: &String = &words[i + 1];
                let sz: usize = next.as_str().unicode_len();
                let name: String = next.clone();
                let t = Token {
                    kind: if is_func {
                        TokenKind::FuncName(name)
                    } else {
                        TokenKind::VariableName(name)
                    },
                    span: TextSpan { size: sz, index: i + 1 },
                };
                let ghost tm = t.model();
                proof {
                    lemma_tokens_model_push(tokens@, t);
                }
                tokens.push(t);
                next_i = i + 2;
                proof {
                    let step = base_tokens(w, i as nat) + seq![tm];
                    assert(tokens_model(tokens@) =~= tokens_model(t0) + step);
                    assert(classify_from(ws, i as int) == step + classify_from(ws, i + 2));
                    assert(diags_from(ws, i as int) == diags_from(ws, i + 2));
                }
            } else {
                let t = Token {
                    kind: TokenKind::Unidentified,
                    span: TextSpan { size: 0, index: i + 1 },
                };
                let d = Diagnostic {
                    kind: if is_func {
                        DiagnosticKind::MissingFunctionName
                    } else {
                        DiagnosticKind::MissingVariableName
                    },
                    index: i,
                };
                let ghost tm = t.model();
                let ghost dm = d.model();
                proof {
                    lemma_tokens_model_push(tokens@, t);
                    lemma_diags_model_push(diags@, d);
                }
                tokens.push(t);
                diags.push(d);
                next_i = i + 1;
                proof {
                    let step = base_tokens(w, i as nat) + seq![tm];
                    assert(tokens_model(tokens@) =~= tokens_model(t0) + step);
                    assert(classify_from(ws, i as int) == step + classify_from(ws, i + 1));
                    assert(diags_model(diags@) =~= diags_model(d0) + seq![dm]);
                    assert(diags_from(ws, i as int) == seq![dm] + diags_from(ws, i + 1));
                }
            }
        } else {
            // rule 4: operator or punctuation, for a word that does not
            // start with a letter
            if !alphabetic_char(w_str.get_char(0)) {
                let sz: usize = w_str.unicode_len();
                let t = Token {
                    kind: operator_token_kind(w_str),
                    span: TextSpan { size: sz, index: i },
                };
                proof {
                    lemma_tokens_model_push(tokens@, t);
                }
                tokens.push(t);
            }
            let ghost base2 = if w.len() > 0 && !alphabetic_of(w[0]) {
                base_tokens(w, i as nat) + seq![
                    SpecToken { kind: operator_kind(w), size: w.len(), index: i as nat },
                ]
            } else {
                base_tokens(w, i as nat)
            };
            proof {
                assert(tokens_model(tokens@) =~= tokens_model(t0) + base2);
            }
            // rule 5: a colon consumes and classifies the following word
            if str_eq(w_str, ":") {
                if i + 1 < n {
                    let next: &String = &words[i + 1];
                    let sz: usize = w_str.unicode_len();
                    let t = Token {
                        kind: type_marker_token_kind(next.as_str(), w_str),
                        span: TextSpan { size: sz, index: i + 1 },
                    };
                    let ghost tm = t.model();
                    proof {
                        lemma_tokens_model_push(tokens@, t);
                    }
                    tokens.push(t);
                    next_i = i + 2;
                    proof {
                        let step = base2 + seq![tm];
                        assert(tokens_model(tokens@) =~= tokens_model(t0) + step);
                        assert(classify_from(ws, i as int) == step + classify_from(ws, i + 2));
                        assert(diags_from(ws, i as int) == diags_from(ws, i + 2));
                    }
                } else {
                    next_i = i + 1;
                    proof {
                        assert(classify_from(ws, i as int) == base2 + classify_from(ws, i + 1));
                        assert(diags_from(ws, i as int) == diags_from(ws, i + 1));
                    }
                }
            } else {
                next_i = i + 1;
                proof {
                    assert(classify_from(ws, i as int) == base2 + classify_from(ws, i + 1));
                    assert(diags_from(ws, i as int) == diags_from(ws, i + 1));
                }
            }
        }
        proof {
            assert(tokens_model(tokens@) + classify_from(ws, next_i as int) =~= tokens_model(t0)
                + classify_from(ws, i as int));
            assert(diags_model(diags@) + diags_from(ws, next_i as int) =~= diags_model(d0)
                + diags_from(ws, i as int));
        }
        i = next_i;
    }
    proof {
        assert(classify_from(ws, i as int) =~= Seq::<SpecToken>::empty());
        assert(diags_from(ws, i as int) =~= Seq::<SpecDiagnostic>::empty());
        assert(tokens_model(tokens@) + Seq::<SpecToken>::empty() =~= tokens_model(tokens@));
        assert(diags_model(diags@) + Seq::<SpecDiagnostic>::empty() =~= diags_model(diags@));
    }
    (tokens, diags)
}

/// Classify a word sequence into tokens, keeping only the token sequence.
pub fn classify(words: &Vec<String>) -> (tokens: Vec<Token>)
    requires
        forall|k: int| 0 <= k < words@.len() ==> (#[trigger] words@[k])@.len() > 0,
    ensures
        tokens_model(tokens@) == classify_from(word_views(words@), 0),
{
    let r = classify_with_diagnostics(words);
    r.0
}

/// The whole lexing pass: split raw source text into words, then classify
/// the words into tokens.
pub fn tokenizer(stream_buffer: String) -> (tokens: Vec<Token>)
    ensures
        tokens_model(tokens@) == classify_from(split_spec(stream_buffer@), 0),
{
    let ghost source = stream_buffer@;
    let words = split_words_into_vec(stream_buffer);
    let r = classify_with_diagnostics(&words);
    r.0
}

/// Law: a source of nothing but whitespace lexes to no tokens at all.
pub proof fn lemma_whitespace_source_yields_no_tokens(s: Seq<char>)
    requires
        forall|i: int| 0 <= i < s.len() ==> is_space(#[trigger] s[i]),
    ensures
        classify_from(split_spec(s), 0) =~= Seq::<SpecToken>::empty(),
{
    lemma_split_all_space(s);
}

/// Law: the token sequence preserves the left-to-right order of the source
/// words: every token's span index is at least the cursor position that
/// produced it, and the indices never decrease along the output.
pub proof fn lemma_token_order_preserved(ws: Seq<Seq<char>>, i: int)
    ensures
        forall|k: int| 0 <= k < classify_from(ws, i).len() ==> (#[trigger] classify_from(
            ws,
            i,
        )[k]).index >= i,
        forall|k1: int, k2: int|
            0 <= k1 <= k2 < classify_from(ws, i).len() ==> (#[trigger] classify_from(ws, i)[k1]).index
                <= (#[trigger] classify_from(ws, i)[k2]).index,
    decreases ws.len() - i,
{
    if i < 0 || i >= ws.len() {
    } else {
        let w = ws[i];
        if w == "func"@ || w == "let"@ || w == "const"@ {
            if i + 1 < ws.len() {
                lemma_token_order_preserved(ws, i + 2);
            } else {
                lemma_token_order_preserved(ws, i + 1);
            }
        } else {
            if w == ":"@ && i + 1 < ws.len() {
                lemma_token_order_preserved(ws, i + 2);
            } else {
                lemma_token_order_preserved(ws, i + 1);
            }
        }
    }
}

/// Law: a word at the cursor that parses as a signed 64-bit integer is
/// classified as an integer literal carrying exactly that value, emitted
/// before anything else produced at that position.
pub proof fn lemma_int_word_yields_int_literal(ws: Seq<Seq<char>>, i: int)
    requires
        0 <= i < ws.len(),
        parses_as_i64(ws[i]),
    ensures
        classify_from(ws, i).len() > 0,
        classify_from(ws, i)[0] == (SpecToken {
            kind: SpecTokenKind::IntLiteral(int_value(ws[i])),
            size: 8,
            index: i as nat,
        }),
{
    let w = ws[i];
    reveal_strlit("func");
    reveal_strlit("let");
    reveal_strlit("const");
    reveal_strlit(":");
    let body = int_body(w);
    assert(is_digit(body[0]));
    // the first character is a sign or a digit, so the word is not a
    // compound trigger
    if has_sign(w) {
        assert(w[0] == '+' || w[0] == '-');
    } else {
        assert(body[0] == w[0]);
    }
    assert(w != "func"@);
    assert(w != "let"@);
    assert(w != "const"@);
    assert(w != ":"@);
    // whether or not the sign or digit in front counts as alphabetic, the
    // integer-literal rule has already emitted its token first
    let base = base_tokens(w, i as nat);
    if w.len() > 0 && !alphabetic_of(w[0]) {
        let base2 = base + seq![
            SpecToken { kind: operator_kind(w), size: w.len(), index: i as nat },
        ];
        assert(classify_from(ws, i) == base2 + classify_from(ws, i + 1));
    } else {
        assert(classify_from(ws, i) == base + classify_from(ws, i + 1));
    }
    assert(classify_from(ws, i)[0] == base[0]);
}

} // verus!
