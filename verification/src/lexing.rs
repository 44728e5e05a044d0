//! The token source: turns the input text into the sequence of tokens
//! that the parser consumes, tracking 1-based line and column
//! positions. Exhaustion of the input is an empty remainder of the
//! token sequence, never an error.

use vstd::prelude::*;

use crate::numeric::{digits_end_from, is_digit_char, lemma_digits_end_bounds, scan_digits};
use crate::token::{toks_view, Token, TokenKind, TokenModel};

verus! {

/// The kind of a single-character punctuation token.
pub open spec fn punct_kind(c: char) -> TokenKind {
    if c == '[' {
        TokenKind::BrackOpen
    } else if c == ']' {
        TokenKind::BrackClose
    } else if c == '{' {
        TokenKind::CurlyOpen
    } else if c == '}' {
        TokenKind::CurlyClose
    } else if c == ',' {
        TokenKind::Comma
    } else {
        TokenKind::Colon
    }
}

/// Whether `c` is one of the six punctuation characters.
pub open spec fn is_punct(c: char) -> bool {
    c == '[' || c == ']' || c == '{' || c == '}' || c == ',' || c == ':'
}

/// Whether `c` is horizontal whitespace.
pub open spec fn is_blank(c: char) -> bool {
    c == ' ' || c == '\t' || c == '\r'
}

/// Shorthand for a token model.
pub open spec fn mk_tok(kind: TokenKind, text: Seq<char>, line: nat, column: nat) -> TokenModel {
    TokenModel { kind, text, line, column }
}

/// Scans the inside of a string literal from `i`, the index just after
/// the opening quote: yields the decoded text and the index after the
/// closing quote, or `None` when the literal does not close on its own
/// line. A backslash passes the character after it through verbatim.
pub open spec fn scan_string(s: Seq<char>, i: nat) -> Option<(Seq<char>, nat)>
    decreases s.len() - i,
{
    if i >= s.len() || s[i as int] == '\n' {
        None
    } else if s[i as int] == '"' {
        Some((Seq::empty(), (i + 1) as nat))
    } else if s[i as int] == '\\' {
        if i + 1 >= s.len() || s[(i + 1) as int] == '\n' {
            None
        } else {
            match scan_string(s, i + 2) {
                Some((t, n)) => Some((seq![s[(i + 1) as int]] + t, n)),
                None => None,
            }
        }
    } else {
        match scan_string(s, i + 1) {
            Some((t, n)) => Some((seq![s[i as int]] + t, n)),
            None => None,
        }
    }
}

/// The number token starting at `i`, which holds a digit or a minus
/// sign followed by a digit, and the index just after the token: a
/// float when a dot with at least one digit follows the first digit
/// run, an integer otherwise.
pub open spec fn number_token(s: Seq<char>, i: nat, line: nat, col: nat) -> (TokenModel, nat) {
    let d: nat = if s[i as int] == '-' {
        i + 1
    } else {
        i
    };
    let e1 = digits_end_from(s, d);
    if e1 + 1 < s.len() && s[e1 as int] == '.' && is_digit_char(s[(e1 + 1) as int]) {
        let e2 = digits_end_from(s, e1 + 1);
        (mk_tok(TokenKind::Float, s.subrange(i as int, e2 as int), line, col), e2)
    } else {
        (mk_tok(TokenKind::Integer, s.subrange(i as int, e1 as int), line, col), e1)
    }
}

/// The tokens of the input from index `i` on, with the position of
/// index `i` given as 1-based `line` and `col`. A character that fits
/// no token kind becomes an `Other` token of its own; an unterminated
/// string literal becomes a single `Other` token that ends the stream.
pub open spec fn lex_from(s: Seq<char>, i: nat, line: nat, col: nat) -> Seq<TokenModel>
    decreases s.len() - i,
{
    if i >= s.len() {
        Seq::empty()
    } else {
        let c = s[i as int];
        if is_blank(c) {
            lex_from(s, i + 1, line, col + 1)
        } else if c == '\n' {
            lex_from(s, i + 1, line + 1, 1)
        } else if is_punct(c) {
            seq![mk_tok(punct_kind(c), seq![c], line, col)] + lex_from(s, i + 1, line, col + 1)
        } else if c == '"' {
            match scan_string(s, i + 1) {
                Some((text, n)) => if i < n && n <= s.len() {
                    seq![mk_tok(TokenKind::Str, text, line, col)] + lex_from(
                        s,
                        n,
                        line,
                        (col + (n - i)) as nat,
                    )
                } else {
                    seq![mk_tok(TokenKind::Str, text, line, col)]
                },
                None => seq![mk_tok(TokenKind::Other, seq![c], line, col)],
            }
        } else if is_digit_char(c) || (c == '-' && i + 1 < s.len() && is_digit_char(
            s[(i + 1) as int],
        )) {
            let (t, n) = number_token(s, i, line, col);
            if i < n && n <= s.len() {
                seq![t] + lex_from(s, n, line, (col + (n - i)) as nat)
            } else {
                seq![t]
            }
        } else {
            seq![mk_tok(TokenKind::Other, seq![c], line, col)] + lex_from(s, i + 1, line, col + 1)
        }
    }
}

/// The whole token sequence of the input.
pub open spec fn tokens_of(s: Seq<char>) -> Seq<TokenModel> {
    lex_from(s, 0, 1, 1)
}

/// Whether position `idx` of the text holds a decimal digit.
fn digit_at(s: &str, idx: usize) -> (b: bool)
    ensures
        b == (idx < s@.len() && is_digit_char(s@[idx as int])),
{
    let len = s.unicode_len();
    if idx >= len {
        false
    } else {
        let c = s.get_char(idx);
        48 <= (c as u32) && (c as u32) <= 57
    }
}

/// Scans the inside of a string literal, following `scan_string`.
/// Returns whether the literal closed, the decoded text, and the index
/// just after the closing quote.
fn scan_string_body(s: &str, start: usize) -> (r: (bool, String, usize))
    requires
        start <= s@.len(),
    ensures
        match scan_string(s@, start as nat) {
            Some((t, n)) => r.0 && r.1@ == t && r.2 == n && start < n <= s@.len(),
            None => !r.0,
        },
{
    let len = s.unicode_len();
    let mut j = start;
    let mut acc = String::new();
    proof {
        match scan_string(s@, start as nat) {
            Some((t, n)) => {
                assert(Seq::<char>::empty() + t =~= t);
            },
            None => {},
        }
    }
    while j < len
        invariant
            start <= j <= len,
            len == s@.len(),
            (match scan_string(s@, j as nat) {
                Some((t, n)) => scan_string(s@, start as nat) == Some::<(Seq<char>, nat)>(
                    (acc@ + t, n),
                ),
                None => scan_string(s@, start as nat) is None,
            }),
        decreases len - j,
    {
        let c = s.get_char(j);
        if c == '\n' {
            return (false, acc, 0);
        } else if c == '"' {
            proof {
                assert(acc@ + Seq::<char>::empty() =~= acc@);
            }
            return (true, acc, j + 1);
        } else if c == '\\' {
            if j + 1 >= len {
                return (false, acc, 0);
            }
            let c2 = s.get_char(j + 1);
            if c2 == '\n' {
                return (false, acc, 0);
            }
            let ghost old_acc = acc@;
            acc.append(s.substring_char(j + 1, j + 2));
            proof {
                assert(s@.subrange(j + 1 as int, j + 2 as int) =~= seq![s@[j + 1 as int]]);
                match scan_string(s@, (j + 2) as nat) {
                    Some((t, n)) => {
                        assert(old_acc + (seq![s@[j + 1 as int]] + t) =~= (old_acc + seq![
                            s@[j + 1 as int],
                        ]) + t);
                    },
                    None => {},
                }
            }
            j = j + 2;
        } else {
            let ghost old_acc = acc@;
            acc.append(s.substring_char(j, j + 1));
            proof {
                assert(s@.subrange(j as int, j + 1 as int) =~= seq![s@[j as int]]);
                match scan_string(s@, (j + 1) as nat) {
                    Some((t, n)) => {
                        assert(old_acc + (seq![s@[j as int]] + t) =~= (old_acc + seq![s@[j as int]])
                            + t);
                    },
                    None => {},
                }
            }
            j = j + 1;
        }
    }
    (false, acc, 0)
}

/// Turns the input text into its token sequence.
pub fn tokenize(input: &str) -> (toks: Vec<Token>)
    requires
        input@.len() < usize::MAX,
    ensures
        toks_view(toks@) == tokens_of(input@),
{
    let len = input.unicode_len();
    let mut toks: Vec<Token> = Vec::new();
    let mut i: usize = 0;
    let mut line: usize = 1;
    let mut col: usize = 1;
    proof {
        assert(toks_view(toks@) + lex_from(input@, 0, 1, 1) =~= lex_from(input@, 0, 1, 1));
    }
    while i < len
        invariant
            i <= len,
            len == input@.len(),
            input@.len() < usize::MAX,
            1 <= line <= i + 1,
            1 <= col <= i + 1,
            toks_view(toks@) + lex_from(input@, i as nat, line as nat, col as nat) == tokens_of(
                input@,
            ),
        decreases len - i,
    {
        let ghost pre = toks_view(toks@);
        let ghost todo = lex_from(input@, i as nat, line as nat, col as nat);
        let c = input.get_char(i);
        if c == ' ' || c == '\t' || c == '\r' {
            i = i + 1;
            col = col + 1;
        } else if c == '\n' {
            i = i + 1;
            line = line + 1;
            col = 1;
        } else if c == '[' || c == ']' || c == '{' || c == '}' || c == ',' || c == ':' {
            let kind = if c == '[' {
                TokenKind::BrackOpen
            } else if c == ']' {
                TokenKind::BrackClose
            } else if c == '{' {
                TokenKind::CurlyOpen
            } else if c == '}' {
                TokenKind::CurlyClose
            } else if c == ',' {
                TokenKind::Comma
            } else {
                TokenKind::Colon
            };
            let text = String::from_str(input.substring_char(i, i + 1));
            let tok = Token { kind, text, line, column: col };
            proof {
                assert(input@.subrange(i as int, i + 1 as int) =~= seq![input@[i as int]]);
            }
            toks.push(tok);
            proof {
                assert(toks_view(toks@) =~= pre.push(mk_tok(punct_kind(c), seq![c], line as nat, col as nat)));
                assert(pre.push(mk_tok(punct_kind(c), seq![c], line as nat, col as nat))
                    + lex_from(input@, (i + 1) as nat, line as nat, (col + 1) as nat) =~= pre
                    + todo);
            }
            i = i + 1;
            col = col + 1;
        } else if c == '"' {
            let r = scan_string_body(input, i + 1);
            if r.0 {
                let n = r.2;
                let tok = Token { kind: TokenKind::Str, text: r.1, line, column: col };
                toks.push(tok);
                proof {
                    let tm = mk_tok(TokenKind::Str, scan_string(input@, (i + 1) as nat)->Some_0.0, line as nat, col as nat);
                    assert(toks_view(toks@) =~= pre.push(tm));
                    assert(pre.push(tm) + lex_from(input@, n as nat, line as nat, (col + (n - i)) as nat) =~= pre + todo);
                }
                col = col + (n - i);
                i = n;
            } else {
                let text = String::from_str(input.substring_char(i, i + 1));
                let tok = Token { kind: TokenKind::Other, text, line, column: col };
                proof {
                    assert(input@.subrange(i as int, i + 1 as int) =~= seq![input@[i as int]]);
                }
                toks.push(tok);
                proof {
                    let tm = mk_tok(TokenKind::Other, seq![input@[i as int]], line as nat, col as nat);
                    assert(toks_view(toks@) =~= pre.push(tm));
                    assert(pre.push(tm) + lex_from(input@, len as nat, line as nat, col as nat) =~= pre + todo);
                }
                i = len;
            }
        } else {
            let cv = c as u32;
            let minus_digit = c == '-' && digit_at(input, i + 1);
            if (48 <= cv && cv <= 57) || minus_digit {
                let d: usize = if c == '-' {
                    i + 1
                } else {
                    i
                };
                let e1 = scan_digits(input, d);
                proof {
                    lemma_digits_end_bounds(input@, (d + 1) as nat);
                }
                let is_f = if e1 + 1 < len {
                    input.get_char(e1) == '.' && digit_at(input, e1 + 1)
                } else {
                    false
                };
                if is_f {
                    let e2 = scan_digits(input, e1 + 1);
                    proof {
                        lemma_digits_end_bounds(input@, (e1 + 2) as nat);
                    }
                    let text = String::from_str(input.substring_char(i, e2));
                    let tok = Token { kind: TokenKind::Float, text, line, column: col };
                    toks.push(tok);
                    proof {
                        let tm = number_token(input@, i as nat, line as nat, col as nat).0;
                        assert(toks_view(toks@) =~= pre.push(tm));
                        assert(pre.push(tm) + lex_from(input@, e2 as nat, line as nat, (col + (e2 - i)) as nat) =~= pre + todo);
                    }
                    col = col + (e2 - i);
                    i = e2;
                } else {
                    let text = String::from_str(input.substring_char(i, e1));
                    let tok = Token { kind: TokenKind::Integer, text, line, column: col };
                    toks.push(tok);
                    proof {
                        let tm = number_token(input@, i as nat, line as nat, col as nat).0;
                        assert(toks_view(toks@) =~= pre.push(tm));
                        assert(pre.push(tm) + lex_from(input@, e1 as nat, line as nat, (col + (e1 - i)) as nat) =~= pre + todo);
                    }
                    col = col + (e1 - i);
                    i = e1;
                }
            } else {
                let text = String::from_str(input.substring_char(i, i + 1));
                let tok = Token { kind: TokenKind::Other, text, line, column: col };
                proof {
                    assert(input@.subrange(i as int, i + 1 as int) =~= seq![input@[i as int]]);
                }
                toks.push(tok);
                proof {
                    let tm = mk_tok(TokenKind::Other, seq![input@[i as int]], line as nat, col as nat);
                    assert(toks_view(toks@) =~= pre.push(tm));
                    assert(pre.push(tm) + lex_from(input@, (i + 1) as nat, line as nat, (col + 1) as nat) =~= pre + todo);
                }
                i = i + 1;
                col = col + 1;
            }
        }
    }
    proof {
        assert(toks_view(toks@) + Seq::<TokenModel>::empty() =~= toks_view(toks@));
    }
    toks
}

} // verus!
