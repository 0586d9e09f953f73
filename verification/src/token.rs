//! Token kinds, spans, diagnostics, and their mathematical models.

use vstd::prelude::*;

verus! {

/// The closed set of token kinds the classifier can emit.
#[derive(Debug, Clone, PartialEq)]
pub enum TokenKind {
    // keywords
    EndOfFunctionKeyWord,
    ConstKeyword,
    Let,
    If,
    Else,
    True,
    False,
    Func,
    // literals
    IntLiteral(i64),
    FuncName(String),
    VariableName(String),
    // operators and punctuation
    ArrowFunction,
    LeftParen,
    RightParen,
    LeftCurly,
    RightCurly,
    SemiColon,
    TypeOf,
    SpecialType,
    Equals,
    // fallback
    Unidentified,
    // type markers
    String(String),
    Char,
    Number,
}

/// Positional metadata of a token: `size` is the character length of the word
/// the token's information came from (8 for integer literals, 0 for a missing
/// compound follow-up), and `index` is that word's position in the word
/// sequence.
#[derive(Debug, Clone, PartialEq, Eq, Structural)]
pub struct TextSpan {
    pub size: usize,
    pub index: usize,
}

/// A classified lexical unit.
#[derive(Debug, Clone, PartialEq)]
pub struct Token {
    pub kind: TokenKind,
    pub span: TextSpan,
}

/// What a diagnostic reports: a compound keyword at the end of the word
/// sequence, with no follow-up word to consume.
#[derive(Debug, Clone, Copy, PartialEq, Eq, Structural)]
pub enum DiagnosticKind {
    MissingFunctionName,
    MissingVariableName,
}

/// A diagnostic emitted by the classifier; `index` is the position of the
/// triggering keyword word.
#[derive(Debug, Clone, Copy, PartialEq, Eq, Structural)]
pub struct Diagnostic {
    pub kind: DiagnosticKind,
    pub index: usize,
}

/// Mathematical model of a token kind, over sequences of characters and
/// unbounded integers.
pub enum SpecTokenKind {
    EndOfFunctionKeyWord,
    ConstKeyword,
    Let,
    If,
    Else,
    True,
    False,
    Func,
    IntLiteral(int),
    FuncName(Seq<char>),
    VariableName(Seq<char>),
    ArrowFunction,
    LeftParen,
    RightParen,
    LeftCurly,
    RightCurly,
    SemiColon,
    TypeOf,
    SpecialType,
    Equals,
    Unidentified,
    String(Seq<char>),
    Char,
    Number,
}

/// Mathematical model of a token.
pub struct SpecToken {
    pub kind: SpecTokenKind,
    pub size: nat,
    pub index: nat,
}

/// Mathematical model of a diagnostic.
pub struct SpecDiagnostic {
    pub kind: DiagnosticKind,
    pub index: nat,
}

impl TokenKind {
    /// The model of this kind.
    pub open spec fn model(self) -> SpecTokenKind {
        match self {
            TokenKind::EndOfFunctionKeyWord => SpecTokenKind::EndOfFunctionKeyWord,
            TokenKind::ConstKeyword => SpecTokenKind::ConstKeyword,
            TokenKind::Let => SpecTokenKind::Let,
            TokenKind::If => SpecTokenKind::If,
            TokenKind::Else => SpecTokenKind::Else,
            TokenKind::True => SpecTokenKind::True,
            TokenKind::False => SpecTokenKind::False,
            TokenKind::Func => SpecTokenKind::Func,
            TokenKind::IntLiteral(n) => SpecTokenKind::IntLiteral(n as int),
            TokenKind::FuncName(s) => SpecTokenKind::FuncName(s@),
            TokenKind::VariableName(s) => SpecTokenKind::VariableName(s@),
            TokenKind::ArrowFunction => SpecTokenKind::ArrowFunction,
            TokenKind::LeftParen => SpecTokenKind::LeftParen,
            TokenKind::RightParen => SpecTokenKind::RightParen,
            TokenKind::LeftCurly => SpecTokenKind::LeftCurly,
            TokenKind::RightCurly => SpecTokenKind::RightCurly,
            TokenKind::SemiColon => SpecTokenKind::SemiColon,
            TokenKind::TypeOf => SpecTokenKind::TypeOf,
            TokenKind::SpecialType => SpecTokenKind::SpecialType,
            TokenKind::Equals => SpecTokenKind::Equals,
            TokenKind::Unidentified => SpecTokenKind::Unidentified,
            TokenKind::String(s) => SpecTokenKind::String(s@),
            TokenKind::Char => SpecTokenKind::Char,
            TokenKind::Number => SpecTokenKind::Number,
        }
    }
}

impl Token {
    /// The model of this token.
    pub open spec fn model(self) -> SpecToken {
        SpecToken { kind: self.kind.model(), size: self.span.size as nat, index: self.span.index as nat }
    }
}

impl Diagnostic {
    /// The model of this diagnostic.
    pub open spec fn model(self) -> SpecDiagnostic {
        SpecDiagnostic { kind: self.kind, index: self.index as nat }
    }
}

/// The models of a sequence of tokens, in order.
pub open spec fn tokens_model(ts: Seq<Token>) -> Seq<SpecToken> {
    Seq::new(ts.len(), |i: int| ts[i].model())
}

/// The models of a sequence of diagnostics, in order.
pub open spec fn diags_model(ds: Seq<Diagnostic>) -> Seq<SpecDiagnostic> {
    Seq::new(ds.len(), |i: int| ds[i].model())
}

/// Pushing a token appends its model.
pub proof fn lemma_tokens_model_push(ts: Seq<Token>, t: Token)
    ensures
        tokens_model(ts.push(t)) =~= tokens_model(ts).push(t.model()),
{
}

/// Pushing a diagnostic appends its model.
pub proof fn lemma_diags_model_push(ds: Seq<Diagnostic>, d: Diagnostic)
    ensures
        diags_model(ds.push(d)) =~= diags_model(ds).push(d.model()),
{
}

} // verus!
