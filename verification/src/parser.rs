//! The recursive-descent parser: from a token sequence to the AST.
//!
//! The grammar is fully pinned down by the specification functions
//! `sp_expr`, `sp_array_items`, `sp_hash_items` and `sp_exprs`; each
//! executable function is proved to return exactly what the
//! corresponding specification function says, for every input.
//!
//! Arrays and hashes require at least one element: the element loop
//! unconditionally parses an expression before it looks for a closing
//! token, so `[]` and `{}` are invalid. Exhaustion of the input is a
//! normal terminator only between top-level expressions; inside a
//! compound structure it is a fatal error.

use vstd::prelude::*;

use crate::ast::{
    lemma_array_view, lemma_expressions_view, lemma_hash_view, nodes_view, pairs_view, Node,
    NodeModel, ParserError,
};
use crate::lexing::{tokenize, tokens_of};
use crate::numeric::{check_float_text, int_value_of, is_float_text, parse_integer};
use crate::token::{toks_view, Token, TokenKind, TokenModel};

verus! {

/// What parsing one expression at index `i` of the token sequence
/// yields: the node and the index after it, or the first error.
pub open spec fn sp_expr(toks: Seq<TokenModel>, i: nat) -> Result<(NodeModel, nat), ParserError>
    decreases toks.len() - i, 0int,
{
    if i >= toks.len() {
        Err(ParserError::EndOfInput)
    } else {
        let t = toks[i as int];
        match t.kind {
            TokenKind::Integer => match int_value_of(t.text) {
                Some(v) => Ok(
                    (NodeModel::Integer { value: v, line: t.line, column: t.column }, i + 1),
                ),
                None => Err(ParserError::InvalidTokenValue),
            },
            TokenKind::Float => if is_float_text(t.text) {
                Ok((NodeModel::Float { text: t.text, line: t.line, column: t.column }, i + 1))
            } else {
                Err(ParserError::InvalidTokenValue)
            },
            TokenKind::Str => Ok(
                (NodeModel::Str { value: t.text, line: t.line, column: t.column }, i + 1),
            ),
            TokenKind::BrackOpen => match sp_array_items(toks, i + 1) {
                Ok((values, j)) => Ok(
                    (NodeModel::Array { values, line: t.line, column: t.column }, j),
                ),
                Err(e) => Err(e),
            },
            TokenKind::CurlyOpen => match sp_hash_items(toks, i + 1) {
                Ok((pairs, j)) => Ok(
                    (NodeModel::Hash { pairs, line: t.line, column: t.column }, j),
                ),
                Err(e) => Err(e),
            },
            _ => Err(ParserError::InvalidToken),
        }
    }
}

/// What parsing the elements of an array yields, entered just after
/// the opening bracket: one or more expressions separated by commas
/// and closed by a bracket, and the index after the closing bracket.
pub open spec fn sp_array_items(toks: Seq<TokenModel>, i: nat) -> Result<
    (Seq<NodeModel>, nat),
    ParserError,
>
    decreases toks.len() - i, 1int,
{
    match sp_expr(toks, i) {
        Err(e) => Err(e),
        Ok((node, j)) => if i < j && j <= toks.len() {
            if j == toks.len() {
                Err(ParserError::EndOfInput)
            } else if toks[j as int].kind is Comma {
                match sp_array_items(toks, (j + 1) as nat) {
                    Ok((rest, k)) => Ok((seq![node] + rest, k)),
                    Err(e) => Err(e),
                }
            } else if toks[j as int].kind is BrackClose {
                Ok((seq![node], (j + 1) as nat))
            } else {
                Err(ParserError::InvalidToken)
            }
        } else {
            Err(ParserError::EndOfInput)
        },
    }
}

/// What parsing the pairs of a hash yields, entered just after the
/// opening brace: one or more `key : value` pairs separated by commas
/// and closed by a brace, and the index after the closing brace.
pub open spec fn sp_hash_items(toks: Seq<TokenModel>, i: nat) -> Result<
    (Seq<(NodeModel, NodeModel)>, nat),
    ParserError,
>
    decreases toks.len() - i, 1int,
{
    match sp_expr(toks, i) {
        Err(e) => Err(e),
        Ok((key, j)) => if i < j && j <= toks.len() {
            if j == toks.len() {
                Err(ParserError::EndOfInput)
            } else if !(toks[j as int].kind is Colon) {
                Err(ParserError::InvalidToken)
            } else {
                match sp_expr(toks, (j + 1) as nat) {
                    Err(e) => Err(e),
                    Ok((value, k)) => if j + 1 < k && k <= toks.len() {
                        if k == toks.len() {
                            Err(ParserError::EndOfInput)
                        } else if toks[k as int].kind is Comma {
                            match sp_hash_items(toks, (k + 1) as nat) {
                                Ok((rest, m)) => Ok((seq![(key, value)] + rest, m)),
                                Err(e) => Err(e),
                            }
                        } else if toks[k as int].kind is CurlyClose {
                            Ok((seq![(key, value)], (k + 1) as nat))
                        } else {
                            Err(ParserError::InvalidToken)
                        }
                    } else {
                        Err(ParserError::EndOfInput)
                    },
                }
            }
        } else {
            Err(ParserError::EndOfInput)
        },
    }
}

/// What parsing the top-level expression sequence from index `i`
/// yields. An exhausted input here is the normal terminator; an error
/// from inside an expression, exhaustion included, aborts the parse.
pub open spec fn sp_exprs(toks: Seq<TokenModel>, i: nat) -> Result<Seq<NodeModel>, ParserError>
    decreases toks.len() - i, 1int,
{
    if i >= toks.len() {
        Ok(Seq::empty())
    } else {
        match sp_expr(toks, i) {
            Err(e) => Err(e),
            Ok((node, j)) => if i < j && j <= toks.len() {
                match sp_exprs(toks, j) {
                    Ok(rest) => Ok(seq![node] + rest),
                    Err(e) => Err(e),
                }
            } else {
                Err(ParserError::EndOfInput)
            },
        }
    }
}

/// What parsing a whole token sequence yields: the `Expressions`
/// wrapper around the top-level nodes, or the first error.
pub open spec fn sp_parse(toks: Seq<TokenModel>) -> Result<NodeModel, ParserError> {
    match sp_exprs(toks, 0) {
        Ok(children) => Ok(NodeModel::Expressions { children }),
        Err(e) => Err(e),
    }
}

/// Parses one expression at index `i` of the token sequence, returning
/// the node and the index just after it.
pub fn parse_expression(toks: &Vec<Token>, i: usize) -> (r: Result<(Node, usize), ParserError>)
    ensures
        match r {
            Ok((node, j)) => sp_expr(toks_view(toks@), i as nat) == Ok::<
                (NodeModel, nat),
                ParserError,
            >((node.deep_view(), j as nat)) && i < j <= toks@.len(),
            Err(e) => sp_expr(toks_view(toks@), i as nat) == Err::<(NodeModel, nat), ParserError>(
                e,
            ),
        },
    decreases toks@.len() - i, 0int,
{
    if i >= toks.len() {
        return Err(ParserError::EndOfInput);
    }
    let t = &toks[i];
    match t.kind {
        TokenKind::Integer => match parse_integer(t.text.as_str()) {
            Some(v) => Ok((Node::Integer { value: v, line: t.line, column: t.column }, i + 1)),
            None => Err(ParserError::InvalidTokenValue),
        },
        TokenKind::Float => if check_float_text(t.text.as_str()) {
            Ok(
                (
                    Node::Float {
                        text: String::from_str(t.text.as_str()),
                        line: t.line,
                        column: t.column,
                    },
                    i + 1,
                ),
            )
        } else {
            Err(ParserError::InvalidTokenValue)
        },
        TokenKind::Str => Ok(
            (
                Node::Str {
                    value: String::from_str(t.text.as_str()),
                    line: t.line,
                    column: t.column,
                },
                i + 1,
            ),
        ),
        TokenKind::BrackOpen => {
            let line = t.line;
            let column = t.column;
            match parse_array_items(toks, i + 1) {
                Ok((values, j)) => {
                    proof {
                        lemma_array_view(values, line, column);
                    }
                    Ok((Node::Array { values, line, column }, j))
                },
                Err(e) => Err(e),
            }
        },
        TokenKind::CurlyOpen => {
            let line = t.line;
            let column = t.column;
            match parse_hash_items(toks, i + 1) {
                Ok((pairs, j)) => {
                    proof {
                        lemma_hash_view(pairs, line, column);
                    }
                    Ok((Node::Hash { pairs, line, column }, j))
                },
                Err(e) => Err(e),
            }
        },
        _ => Err(ParserError::InvalidToken),
    }
}

/// Parses the comma-separated elements of an array, entered just after
/// the opening bracket; consumes the closing bracket.
fn parse_array_items(toks: &Vec<Token>, i: usize) -> (r: Result<(Vec<Node>, usize), ParserError>)
    requires
        i <= toks@.len(),
    ensures
        match r {
            Ok((values, j)) => sp_array_items(toks_view(toks@), i as nat) == Ok::<
                (Seq<NodeModel>, nat),
                ParserError,
            >((nodes_view(values@), j as nat)) && i < j <= toks@.len(),
            Err(e) => sp_array_items(toks_view(toks@), i as nat) == Err::<
                (Seq<NodeModel>, nat),
                ParserError,
            >(e),
        },
    decreases toks@.len() - i, 1int,
{
    let ghost tv = toks_view(toks@);
    let mut values: Vec<Node> = Vec::new();
    let mut cur = i;
    loop
        invariant
            tv == toks_view(toks@),
            i <= cur <= toks@.len(),
            (match sp_array_items(tv, cur as nat) {
                Ok((rest, k)) => sp_array_items(tv, i as nat) == Ok::<
                    (Seq<NodeModel>, nat),
                    ParserError,
                >((nodes_view(values@) + rest, k)),
                Err(e) => sp_array_items(tv, i as nat) == Err::<
                    (Seq<NodeModel>, nat),
                    ParserError,
                >(e),
            }),
        decreases toks@.len() - cur,
    {
        let ghost prev = nodes_view(values@);
        match parse_expression(toks, cur) {
            Err(e) => {
                return Err(e);
            },
            Ok((node, j)) => {
                values.push(node);
                proof {
                    assert(nodes_view(values@) =~= prev + seq![node.deep_view()]);
                }
                if j >= toks.len() {
                    return Err(ParserError::EndOfInput);
                }
                let sep = &toks[j];
                match sep.kind {
                    TokenKind::Comma => {
                        proof {
                            match sp_array_items(tv, (j + 1) as nat) {
                                Ok((rest, k)) => {
                                    assert((prev + seq![node.deep_view()]) + rest =~= prev + (
                                    seq![node.deep_view()] + rest));
                                },
                                Err(e) => {},
                            }
                        }
                        cur = j + 1;
                    },
                    TokenKind::BrackClose => {
                        proof {
                            assert(prev + seq![node.deep_view()] =~= nodes_view(values@));
                        }
                        return Ok((values, j + 1));
                    },
                    _ => {
                        return Err(ParserError::InvalidToken);
                    },
                }
            },
        }
    }
}

/// Parses the comma-separated `key : value` pairs of a hash, entered
/// just after the opening brace; consumes the closing brace.
fn parse_hash_items(toks: &Vec<Token>, i: usize) -> (r: Result<
    (Vec<(Node, Node)>, usize),
    ParserError,
>)
    requires
        i <= toks@.len(),
    ensures
        match r {
            Ok((pairs, j)) => sp_hash_items(toks_view(toks@), i as nat) == Ok::<
                (Seq<(NodeModel, NodeModel)>, nat),
                ParserError,
            >((pairs_view(pairs@), j as nat)) && i < j <= toks@.len(),
            Err(e) => sp_hash_items(toks_view(toks@), i as nat) == Err::<
                (Seq<(NodeModel, NodeModel)>, nat),
                ParserError,
            >(e),
        },
    decreases toks@.len() - i, 1int,
{
    let ghost tv = toks_view(toks@);
    let mut pairs: Vec<(Node, Node)> = Vec::new();
    let mut cur = i;
    loop
        invariant
            tv == toks_view(toks@),
            i <= cur <= toks@.len(),
            (match sp_hash_items(tv, cur as nat) {
                Ok((rest, k)) => sp_hash_items(tv, i as nat) == Ok::<
                    (Seq<(NodeModel, NodeModel)>, nat),
                    ParserError,
                >((pairs_view(pairs@) + rest, k)),
                Err(e) => sp_hash_items(tv, i as nat) == Err::<
                    (Seq<(NodeModel, NodeModel)>, nat),
                    ParserError,
                >(e),
            }),
        decreases toks@.len() - cur,
    {
        let ghost prev = pairs_view(pairs@);
        match parse_expression(toks, cur) {
            Err(e) => {
                return Err(e);
            },
            Ok((key, j)) => {
                if j >= toks.len() {
                    return Err(ParserError::EndOfInput);
                }
                let colon_ok = match toks[j].kind {
                    TokenKind::Colon => true,
                    _ => false,
                };
                if !colon_ok {
                    return Err(ParserError::InvalidToken);
                }
                match parse_expression(toks, j + 1) {
                    Err(e) => {
                        return Err(e);
                    },
                    Ok((value, k)) => {
                        let ghost pair_view = (key.deep_view(), value.deep_view());
                        pairs.push((key, value));
                        proof {
                            assert(pairs_view(pairs@) =~= prev + seq![pair_view]);
                        }
                        if k >= toks.len() {
                            return Err(ParserError::EndOfInput);
                        }
                        let sep = &toks[k];
                        match sep.kind {
                            TokenKind::Comma => {
                                proof {
                                    match sp_hash_items(tv, (k + 1) as nat) {
                                        Ok((rest, m)) => {
                                            assert((prev + seq![pair_view]) + rest =~= prev + (
                                            seq![pair_view] + rest));
                                        },
                                        Err(e) => {},
                                    }
                                }
                                cur = k + 1;
                            },
                            TokenKind::CurlyClose => {
                                proof {
                                    assert(prev + seq![pair_view] =~= pairs_view(pairs@));
                                }
                                return Ok((pairs, k + 1));
                            },
                            _ => {
                                return Err(ParserError::InvalidToken);
                            },
                        }
                    },
                }
            },
        }
    }
}

/// Parses a whole token sequence into the top-level `Expressions`
/// node, or fails with the first error.
pub fn parse_tokens(toks: &Vec<Token>) -> (r: Result<Node, ParserError>)
    ensures
        match r {
            Ok(node) => sp_parse(toks_view(toks@)) == Ok::<NodeModel, ParserError>(
                node.deep_view(),
            ),
            Err(e) => sp_parse(toks_view(toks@)) == Err::<NodeModel, ParserError>(e),
        },
{
    let ghost tv = toks_view(toks@);
    let mut children: Vec<Node> = Vec::new();
    let mut i: usize = 0;
    while i < toks.len()
        invariant
            tv == toks_view(toks@),
            i <= toks@.len(),
            (match sp_exprs(tv, i as nat) {
                Ok(rest) => sp_exprs(tv, 0) == Ok::<Seq<NodeModel>, ParserError>(
                    nodes_view(children@) + rest,
                ),
                Err(e) => sp_exprs(tv, 0) == Err::<Seq<NodeModel>, ParserError>(e),
            }),
        decreases toks@.len() - i,
    {
        let ghost prev = nodes_view(children@);
        match parse_expression(toks, i) {
            Ok((node, j)) => {
                children.push(node);
                proof {
                    assert(nodes_view(children@) =~= prev + seq![node.deep_view()]);
                    match sp_exprs(tv, j as nat) {
                        Ok(rest) => {
                            assert((prev + seq![node.deep_view()]) + rest =~= prev + (seq![
                                node.deep_view(),
                            ] + rest));
                        },
                        Err(e) => {},
                    }
                }
                i = j;
            },
            Err(e) => {
                return Err(e);
            },
        }
    }
    proof {
        assert(nodes_view(children@) + Seq::<NodeModel>::empty() =~= nodes_view(children@));
        lemma_expressions_view(children);
    }
    Ok(Node::Expressions { children })
}

/// Parses a text buffer holding zero or more literal expressions into
/// the `Expressions` node that wraps them, or fails with the first
/// error. The length bound is forced by the machine: a text of
/// `usize::MAX` characters cannot exist in memory.
pub fn parse(input: &str) -> (r: Result<Node, ParserError>)
    requires
        input@.len() < usize::MAX,
    ensures
        match r {
            Ok(node) => sp_parse(tokens_of(input@)) == Ok::<NodeModel, ParserError>(
                node.deep_view(),
            ),
            Err(e) => sp_parse(tokens_of(input@)) == Err::<NodeModel, ParserError>(e),
        },
{
    let toks = tokenize(input);
    parse_tokens(&toks)
}

} // verus!
