//! The abstract syntax tree that the parser builds.

use vstd::prelude::*;
use crate::errors::Span;
use crate::types::Type;

verus! {

/// A node of the syntax tree.
#[derive(Debug)]
#[allow(inconsistent_fields)]
pub enum Node {
    Literal { typ: Type, value: String },
    Call { name: String, args: Vec<Span<Node>> },
    InfixOp { op: String, left: Box<Span<Node>>, right: Box<Span<Node>> },
    PrefixOp { op: String, right: Box<Span<Node>> },
    PostfixOp { op: String, left: Box<Span<Node>> },
    IndexOp { object: Box<Span<Node>>, index: Box<Span<Node>> },
    VariableRef { name: String },
    IfStatement { condition: Box<Span<Node>>, body: Box<Span<Node>>, else_body: Box<Span<Node>> },
    WhileStatement { condition: Box<Span<Node>>, body: Box<Span<Node>> },
    Block { nodes: Vec<Span<Node>> },
    VarStatement { name: String, typ: Type, value: Box<Span<Node>> },
    ConstStatement { name: String, typ: Type, value: Box<Span<Node>> },
    AssignStatement { name: String, value: Box<Span<Node>> },
    ProcStatement {
        name: String,
        args: Vec<String>,
        arg_types: Vec<Type>,
        ret_type: Type,
        body: Box<Span<Node>>,
    },
    ReturnStatement { val: Box<Span<Node>> },
}

/// The model of a node: texts are sequences of characters, lists are
/// sequences.
#[allow(inconsistent_fields)]
pub enum SpecNode {
    Literal { typ: Type, value: Seq<char> },
    Call { name: Seq<char>, args: Seq<Span<SpecNode>> },
    InfixOp { op: Seq<char>, left: Box<Span<SpecNode>>, right: Box<Span<SpecNode>> },
    PrefixOp { op: Seq<char>, right: Box<Span<SpecNode>> },
    PostfixOp { op: Seq<char>, left: Box<Span<SpecNode>> },
    IndexOp { object: Box<Span<SpecNode>>, index: Box<Span<SpecNode>> },
    VariableRef { name: Seq<char> },
    IfStatement {
        condition: Box<Span<SpecNode>>,
        body: Box<Span<SpecNode>>,
        else_body: Box<Span<SpecNode>>,
    },
    WhileStatement { condition: Box<Span<SpecNode>>, body: Box<Span<SpecNode>> },
    Block { nodes: Seq<Span<SpecNode>> },
    VarStatement { name: Seq<char>, typ: Type, value: Box<Span<SpecNode>> },
    ConstStatement { name: Seq<char>, typ: Type, value: Box<Span<SpecNode>> },
    AssignStatement { name: Seq<char>, value: Box<Span<SpecNode>> },
    ProcStatement {
        name: Seq<char>,
        args: Seq<Seq<char>>,
        arg_types: Seq<Type>,
        ret_type: Type,
        body: Box<Span<SpecNode>>,
    },
    ReturnStatement { val: Box<Span<SpecNode>> },
}

/// The model of a node with its span.
pub open spec fn span_view(node: Span<Node>) -> Span<SpecNode>
    decreases node,
{
    Span { contents: node_view(node.contents), pos: node.pos, len: node.len }
}

/// The model of a list of nodes.
pub open spec fn nodes_view(nodes: Seq<Span<Node>>) -> Seq<Span<SpecNode>>
    decreases nodes,
{
    Seq::new(
        nodes.len(),
        |i: int|
            if 0 <= i < nodes.len() {
                span_view(nodes[i])
            } else {
                arbitrary()
            },
    )
}

/// The model of a node.
pub open spec fn node_view(node: Node) -> SpecNode
    decreases node,
{
    match node {
        Node::Literal { typ, value } => SpecNode::Literal { typ, value: value@ },
        Node::Call { name, args } => SpecNode::Call { name: name@, args: nodes_view(args@) },
        Node::InfixOp { op, left, right } => SpecNode::InfixOp {
            op: op@,
            left: Box::new(span_view(*left)),
            right: Box::new(span_view(*right)),
        },
        Node::PrefixOp { op, right } => SpecNode::PrefixOp {
            op: op@,
            right: Box::new(span_view(*right)),
        },
        Node::PostfixOp { op, left } => SpecNode::PostfixOp {
            op: op@,
            left: Box::new(span_view(*left)),
        },
        Node::IndexOp { object, index } => SpecNode::IndexOp {
            object: Box::new(span_view(*object)),
            index: Box::new(span_view(*index)),
        },
        Node::VariableRef { name } => SpecNode::VariableRef { name: name@ },
        Node::IfStatement { condition, body, else_body } => SpecNode::IfStatement {
            condition: Box::new(span_view(*condition)),
            body: Box::new(span_view(*body)),
            else_body: Box::new(span_view(*else_body)),
        },
        Node::WhileStatement { condition, body } => SpecNode::WhileStatement {
            condition: Box::new(span_view(*condition)),
            body: Box::new(span_view(*body)),
        },
        Node::Block { nodes } => SpecNode::Block { nodes: nodes_view(nodes@) },
        Node::VarStatement { name, typ, value } => SpecNode::VarStatement {
            name: name@,
            typ,
            value: Box::new(span_view(*value)),
        },
        Node::ConstStatement { name, typ, value } => SpecNode::ConstStatement {
            name: name@,
            typ,
            value: Box::new(span_view(*value)),
        },
        Node::AssignStatement { name, value } => SpecNode::AssignStatement {
            name: name@,
            value: Box::new(span_view(*value)),
        },
        Node::ProcStatement { name, args, arg_types, ret_type, body } => SpecNode::ProcStatement {
            name: name@,
            args: args.deep_view(),
            arg_types: arg_types@,
            ret_type,
            body: Box::new(span_view(*body)),
        },
        Node::ReturnStatement { val } => SpecNode::ReturnStatement {
            val: Box::new(span_view(*val)),
        },
    }
}

impl DeepView for Node {
    type V = SpecNode;

    open spec fn deep_view(&self) -> SpecNode {
        node_view(*self)
    }
}

/// The model of a list of nodes is the list of their models.
pub proof fn lemma_nodes_view(nodes: Vec<Span<Node>>)
    ensures
        nodes_view(nodes@) == nodes.deep_view(),
{
    assert(nodes_view(nodes@) =~= nodes.deep_view());
}

/// A node tagged with a source position and length.
pub fn spanned(node: Node, pos: usize, len: usize) -> (span: Span<Node>)
    ensures
        span.deep_view() == (Span { contents: node.deep_view(), pos, len }),
{
    Span { contents: node, pos, len }
}

} // verus!
