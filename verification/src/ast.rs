//! The abstract syntax tree produced by a successful parse, and the
//! error taxonomy of the parser.

use vstd::prelude::*;

verus! {

broadcast use vstd::seq::axiom_seq_index_decreases, vstd::std_specs::vec::axiom_vec_decreases_to_view;

/// An AST node. Every variant except the top-level `Expressions`
/// wrapper carries the position of its own introducing token: the
/// literal token itself for scalars, the opening bracket or brace for
/// compounds.
///
/// A float value is kept as the literal text of its token; the library
/// states nothing about floating-point arithmetic, and a consumer may
/// convert the text at the edge.
#[derive(PartialEq, Debug)]
pub enum Node {
    Integer { value: isize, line: usize, column: usize },
    Float { text: String, line: usize, column: usize },
    Str { value: String, line: usize, column: usize },
    Expressions { children: Vec<Node> },
    Array { values: Vec<Node>, line: usize, column: usize },
    Hash { pairs: Vec<(Node, Node)>, line: usize, column: usize },
}

/// The mathematical model of an AST node.
pub enum NodeModel {
    Integer { value: int, line: nat, column: nat },
    Float { text: Seq<char>, line: nat, column: nat },
    Str { value: Seq<char>, line: nat, column: nat },
    Expressions { children: Seq<NodeModel> },
    Array { values: Seq<NodeModel>, line: nat, column: nat },
    Hash { pairs: Seq<(NodeModel, NodeModel)>, line: nat, column: nat },
}

impl Node {
    /// The model of this node: the whole tree, children included.
    pub open spec fn deep_view(self) -> NodeModel
        decreases self,
    {
        match self {
            Node::Integer { value, line, column } => NodeModel::Integer {
                value: value as int,
                line: line as nat,
                column: column as nat,
            },
            Node::Float { text, line, column } => NodeModel::Float {
                text: text@,
                line: line as nat,
                column: column as nat,
            },
            Node::Str { value, line, column } => NodeModel::Str {
                value: value@,
                line: line as nat,
                column: column as nat,
            },
            Node::Expressions { children } => NodeModel::Expressions {
                children: Seq::new(
                    children@.len(),
                    |i: int|
                        if 0 <= i < children@.len() {
                            proof {
                                vstd::std_specs::vec::axiom_vec_decreases_to_view(children);
                                vstd::seq::axiom_seq_index_decreases(children@, i);
                            }
                            children@[i].deep_view()
                        } else {
                            NodeModel::Expressions { children: Seq::empty() }
                        },
                ),
            },
            Node::Array { values, line, column } => NodeModel::Array {
                values: Seq::new(
                    values@.len(),
                    |i: int|
                        if 0 <= i < values@.len() {
                            proof {
                                vstd::std_specs::vec::axiom_vec_decreases_to_view(values);
                                vstd::seq::axiom_seq_index_decreases(values@, i);
                            }
                            values@[i].deep_view()
                        } else {
                            NodeModel::Expressions { children: Seq::empty() }
                        },
                ),
                line: line as nat,
                column: column as nat,
            },
            Node::Hash { pairs, line, column } => NodeModel::Hash {
                pairs: Seq::new(
                    pairs@.len(),
                    |i: int|
                        if 0 <= i < pairs@.len() {
                            proof {
                                vstd::std_specs::vec::axiom_vec_decreases_to_view(pairs);
                                vstd::seq::axiom_seq_index_decreases(pairs@, i);
                            }
                            (pairs@[i].0.deep_view(), pairs@[i].1.deep_view())
                        } else {
                            (
                                NodeModel::Expressions { children: Seq::empty() },
                                NodeModel::Expressions { children: Seq::empty() },
                            )
                        },
                ),
                line: line as nat,
                column: column as nat,
            },
        }
    }
}

/// The model of a sequence of nodes.
pub open spec fn nodes_view(nodes: Seq<Node>) -> Seq<NodeModel> {
    Seq::new(nodes.len(), |i: int| nodes[i].deep_view())
}

/// The model of a sequence of key/value pairs.
pub open spec fn pairs_view(pairs: Seq<(Node, Node)>) -> Seq<(NodeModel, NodeModel)> {
    Seq::new(pairs.len(), |i: int| (pairs[i].0.deep_view(), pairs[i].1.deep_view()))
}

/// The model of an `Expressions` node is the model of its children.
pub proof fn lemma_expressions_view(children: Vec<Node>)
    ensures
        ((Node::Expressions { children }).deep_view() == NodeModel::Expressions {
            children: nodes_view(children@),
        }),
{
    match (Node::Expressions { children }).deep_view() {
        NodeModel::Expressions { children: cs } => {
            assert(cs =~= nodes_view(children@));
        },
        _ => {},
    }
}

/// The model of an `Array` node is the model of its values.
pub proof fn lemma_array_view(values: Vec<Node>, line: usize, column: usize)
    ensures
        ((Node::Array { values, line, column }).deep_view() == NodeModel::Array {
            values: nodes_view(values@),
            line: line as nat,
            column: column as nat,
        }),
{
    match (Node::Array { values, line, column }).deep_view() {
        NodeModel::Array { values: vs, .. } => {
            assert(vs =~= nodes_view(values@));
        },
        _ => {},
    }
}

/// The model of a `Hash` node is the model of its pairs.
pub proof fn lemma_hash_view(pairs: Vec<(Node, Node)>, line: usize, column: usize)
    ensures
        ((Node::Hash { pairs, line, column }).deep_view() == NodeModel::Hash {
            pairs: pairs_view(pairs@),
            line: line as nat,
            column: column as nat,
        }),
{
    match (Node::Hash { pairs, line, column }).deep_view() {
        NodeModel::Hash { pairs: ps, .. } => {
            assert(ps =~= pairs_view(pairs@));
        },
        _ => {},
    }
}

/// The position a node model carries: `None` for the synthetic
/// top-level `Expressions` wrapper, which has no introducing token.
pub open spec fn node_position(node: NodeModel) -> Option<(nat, nat)> {
    match node {
        NodeModel::Integer { line, column, .. } => Some((line, column)),
        NodeModel::Float { line, column, .. } => Some((line, column)),
        NodeModel::Str { line, column, .. } => Some((line, column)),
        NodeModel::Expressions { .. } => None,
        NodeModel::Array { line, column, .. } => Some((line, column)),
        NodeModel::Hash { line, column, .. } => Some((line, column)),
    }
}

/// Why a parse failed. Exactly three kinds, with no finer granularity:
/// input ran out where a token was required, a token did not fit the
/// grammar position, or a token of the right kind carried text that
/// does not convert to the target scalar type.
#[derive(Clone, Copy, PartialEq, Eq, Debug)]
pub enum ParserError {
    EndOfInput,
    InvalidTokenValue,
    InvalidToken,
}

} // verus!
