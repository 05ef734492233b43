//! The syntax-tree model the scorer walks.
//!
//! A parsed file is a sequence of top-level items; only function declarations
//! matter here.  A function body is a block of statements, and every statement
//! either carries an expression to score or contributes nothing.  Expression
//! kinds that the scorer does not recognise are collapsed by the parsing
//! front-end into `Expr::Other`, which always scores zero.

use vstd::prelude::*;

verus! {

/// The parsed representation of one source file: its top-level items in
/// declaration order.
pub struct SourceTree {
    pub items: Vec<Item>,
}

/// A top-level item.  Only function declarations are scored; every other
/// item kind is opaque to the scorer.
pub enum Item {
    Fn(FunctionItem),
    Other,
}

/// A function declaration: its identifier and its body.
pub struct FunctionItem {
    pub name: String,
    pub body: Block,
}

/// An ordered sequence of statements.  A block itself never adds base score
/// or nesting; only the constructs inside it do.
pub struct Block {
    pub stmts: Vec<Stmt>,
}

/// A statement of a block.
pub enum Stmt {
    /// An expression statement, with or without a trailing semicolon.
    Expr(Expr),
    /// A variable binding; the scored part is its initializer, when present.
    Local(Option<Expr>),
    /// Any other statement kind; contributes nothing.
    Other,
}

/// An expression, tagged by the kinds the scorer distinguishes.  Each node
/// exclusively owns its children: the tree is acyclic by construction.
pub enum Expr {
    /// An `if` with its condition, `then` block and optional `else` arm.
    /// An `else if` chain is an `If` nested inside the `else` arm.
    If { cond: Box<Expr>, then_branch: Block, else_branch: Option<Box<Expr>> },
    /// A `match`; each element is one arm's body.
    Match { arms: Vec<Expr> },
    /// A `for` loop body.
    ForLoop { body: Block },
    /// A `while` loop body.
    WhileLoop { body: Block },
    /// A method call: its receiver and its arguments.
    MethodCall { receiver: Box<Expr>, args: Vec<Expr> },
    /// A closure; the closure adds nesting but no base score of its own.
    Closure { inner: Box<Expr> },
    /// A block used as an expression.
    Block { block: Block },
    /// A `let` pattern-matching condition; delegates to its scrutinee.
    LetBinding { expr: Box<Expr> },
    /// Every unrecognised expression kind; scores zero.
    Other,
}

} // verus!
