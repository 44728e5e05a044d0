//! Tokens: the classified lexical units that the parser consumes.

use vstd::prelude::*;

verus! {

/// The kind tag of a token. Only the kinds named by the grammar are
/// distinguished; every other lexical unit is `Other`, which the parser
/// uniformly rejects as an invalid token.
#[derive(Clone, Copy, PartialEq, Eq, Debug)]
pub enum TokenKind {
    Integer,
    Float,
    Str,
    BrackOpen,
    BrackClose,
    CurlyOpen,
    CurlyClose,
    Comma,
    Colon,
    Other,
}

/// A token: a kind tag, the literal text it covers, and the 1-based
/// source position (line, column) of its first character.
#[derive(Clone, PartialEq, Eq, Debug)]
pub struct Token {
    pub kind: TokenKind,
    pub text: String,
    pub line: usize,
    pub column: usize,
}

/// The mathematical model of a token.
pub struct TokenModel {
    pub kind: TokenKind,
    pub text: Seq<char>,
    pub line: nat,
    pub column: nat,
}

impl View for Token {
    type V = TokenModel;

    open spec fn view(&self) -> TokenModel {
        TokenModel {
            kind: self.kind,
            text: self.text@,
            line: self.line as nat,
            column: self.column as nat,
        }
    }
}

/// The model of a token sequence.
pub open spec fn toks_view(toks: Seq<Token>) -> Seq<TokenModel> {
    toks.map_values(|t: Token| t@)
}

} // verus!
