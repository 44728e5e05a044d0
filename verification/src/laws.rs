//! General laws of the parser, stated over the specification functions
//! that the executable functions are proved against, and themselves
//! proved once for all inputs.

use vstd::prelude::*;

use crate::ast::{node_position, NodeModel, ParserError};
use crate::lexing::{lex_from, mk_tok, tokens_of};
use crate::numeric::{int_value_of, is_float_text, lemma_digits_end_all, seq_is_digits};
use crate::parser::{sp_expr, sp_exprs, sp_parse};
use crate::token::{TokenKind, TokenModel};

verus! {

/// A document of a single integer token whose text denotes a
/// representable value parses to an `Expressions` node with exactly
/// one `Integer` child carrying that value and the token's position.
pub proof fn lemma_single_integer(toks: Seq<TokenModel>, v: int)
    requires
        toks.len() == 1,
        toks[0].kind is Integer,
        int_value_of(toks[0].text) == Some(v),
    ensures
        (sp_parse(toks) == Ok::<NodeModel, ParserError>(
            NodeModel::Expressions {
                children: seq![
                    NodeModel::Integer { value: v, line: toks[0].line, column: toks[0].column },
                ],
            },
        )),
{
    let node = NodeModel::Integer { value: v, line: toks[0].line, column: toks[0].column };
    assert(sp_expr(toks, 0) == Ok::<(NodeModel, nat), ParserError>((node, 1nat)));
    assert(sp_exprs(toks, 1) == Ok::<Seq<NodeModel>, ParserError>(Seq::empty()));
    assert(seq![node] + Seq::<NodeModel>::empty() =~= seq![node]);
}

/// A document of a single float token whose text has the float shape
/// parses to an `Expressions` node with exactly one `Float` child
/// carrying the text verbatim and the token's position.
pub proof fn lemma_single_float(toks: Seq<TokenModel>)
    requires
        toks.len() == 1,
        toks[0].kind is Float,
        is_float_text(toks[0].text),
    ensures
        (sp_parse(toks) == Ok::<NodeModel, ParserError>(
            NodeModel::Expressions {
                children: seq![
                    NodeModel::Float {
                        text: toks[0].text,
                        line: toks[0].line,
                        column: toks[0].column,
                    },
                ],
            },
        )),
{
    let node = NodeModel::Float { text: toks[0].text, line: toks[0].line, column: toks[0].column };
    assert(sp_expr(toks, 0) == Ok::<(NodeModel, nat), ParserError>((node, 1nat)));
    assert(sp_exprs(toks, 1) == Ok::<Seq<NodeModel>, ParserError>(Seq::empty()));
    assert(seq![node] + Seq::<NodeModel>::empty() =~= seq![node]);
}

/// A document of a single string token parses to an `Expressions`
/// node with exactly one `Str` child carrying the token's text
/// verbatim and the token's position.
pub proof fn lemma_single_string(toks: Seq<TokenModel>)
    requires
        toks.len() == 1,
        toks[0].kind is Str,
    ensures
        (sp_parse(toks) == Ok::<NodeModel, ParserError>(
            NodeModel::Expressions {
                children: seq![
                    NodeModel::Str {
                        value: toks[0].text,
                        line: toks[0].line,
                        column: toks[0].column,
                    },
                ],
            },
        )),
{
    let node = NodeModel::Str { value: toks[0].text, line: toks[0].line, column: toks[0].column };
    assert(sp_expr(toks, 0) == Ok::<(NodeModel, nat), ParserError>((node, 1nat)));
    assert(sp_exprs(toks, 1) == Ok::<Seq<NodeModel>, ParserError>(Seq::empty()));
    assert(seq![node] + Seq::<NodeModel>::empty() =~= seq![node]);
}

/// From text to tree in one step: an input that is nothing but digits
/// lexes to a single integer token at line 1, column 1, and parses to
/// the integer it denotes whenever that value is representable.
pub proof fn lemma_single_integer_text(input: Seq<char>, v: int)
    requires
        input.len() >= 1,
        seq_is_digits(input),
        int_value_of(input) == Some(v),
    ensures
        (sp_parse(tokens_of(input)) == Ok::<NodeModel, ParserError>(
            NodeModel::Expressions {
                children: seq![NodeModel::Integer { value: v, line: 1, column: 1 }],
            },
        )),
{
    let t = mk_tok(TokenKind::Integer, input, 1, 1);
    assert(tokens_of(input) =~= seq![t]) by {
        lemma_digits_end_all(input, 0);
        assert(input[0] != '-');
        assert(input.subrange(0, input.len() as int) =~= input);
        assert(seq![t] + lex_from(input, input.len(), 1, (1 + input.len()) as nat) =~= seq![t]);
    }
    lemma_single_integer(seq![t], v);
}

/// The empty document is valid: empty input holds no tokens, and no
/// tokens parse to an `Expressions` node with no children.
pub proof fn lemma_empty_document(input: Seq<char>)
    requires
        input.len() == 0,
    ensures
        tokens_of(input) == Seq::<TokenModel>::empty(),
        (sp_parse(tokens_of(input)) == Ok::<NodeModel, ParserError>(
            NodeModel::Expressions { children: Seq::empty() },
        )),
{
    assert(tokens_of(input) =~= Seq::<TokenModel>::empty());
}

/// The no-empty-compound rule for arrays: an opening bracket followed
/// directly by a closing bracket is an invalid token, never an empty
/// array.
pub proof fn lemma_empty_array_rejected(toks: Seq<TokenModel>, i: nat)
    requires
        i + 1 < toks.len(),
        toks[i as int].kind is BrackOpen,
        toks[(i + 1) as int].kind is BrackClose,
    ensures
        sp_expr(toks, i) == Err::<(NodeModel, nat), ParserError>(ParserError::InvalidToken),
{
    assert(sp_expr(toks, i + 1) == Err::<(NodeModel, nat), ParserError>(
        ParserError::InvalidToken,
    ));
}

/// The no-empty-compound rule for hashes: an opening brace followed
/// directly by a closing brace is an invalid token, never an empty
/// hash.
pub proof fn lemma_empty_hash_rejected(toks: Seq<TokenModel>, i: nat)
    requires
        i + 1 < toks.len(),
        toks[i as int].kind is CurlyOpen,
        toks[(i + 1) as int].kind is CurlyClose,
    ensures
        sp_expr(toks, i) == Err::<(NodeModel, nat), ParserError>(ParserError::InvalidToken),
{
    assert(sp_expr(toks, i + 1) == Err::<(NodeModel, nat), ParserError>(
        ParserError::InvalidToken,
    ));
}

/// An integer token whose text does not denote a representable value
/// (malformed digits or a value outside the machine-integer range)
/// fails with `InvalidTokenValue`.
pub proof fn lemma_integer_value_rejected(toks: Seq<TokenModel>, i: nat)
    requires
        i < toks.len(),
        toks[i as int].kind is Integer,
        int_value_of(toks[i as int].text) is None,
    ensures
        sp_expr(toks, i) == Err::<(NodeModel, nat), ParserError>(ParserError::InvalidTokenValue),
{
}

/// Position fidelity: every node that a successful expression parse
/// yields carries the position of its own introducing token — the
/// literal token for scalars, the opening bracket or brace for
/// compounds — never the position of a child.
pub proof fn lemma_node_position(toks: Seq<TokenModel>, i: nat)
    ensures
        (match sp_expr(toks, i) {
            Ok((node, j)) => node_position(node) == Some(
                (toks[i as int].line, toks[i as int].column),
            ),
            Err(_) => true,
        }),
{
}

/// Determinism: the tree a parse yields is a function of the input
/// text alone, so parsing the same input twice yields structurally
/// identical trees.
pub proof fn lemma_parse_deterministic(input: Seq<char>, r1: NodeModel, r2: NodeModel)
    requires
        sp_parse(tokens_of(input)) == Ok::<NodeModel, ParserError>(r1),
        sp_parse(tokens_of(input)) == Ok::<NodeModel, ParserError>(r2),
    ensures
        r1 == r2,
{
}

} // verus!
