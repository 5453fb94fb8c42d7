//! The shapes of a parsed module body that the scan for definitions reads.
//!
//! A statement or expression that the scan never looks into is `Other`. A conditional holds,
//! for each branch, the verdict of the static evaluation of its guard in place of the guard.

use vstd::prelude::*;

use crate::text::TextRange;

verus! {

/// A name as written at one place of the source.
#[derive(Clone, Debug, PartialEq, Eq, Hash, PartialOrd, Ord)]
pub struct Identifier {
    pub id: String,
    pub range: TextRange,
}

/// One name of an import statement: `name` or `name as asname`.
#[derive(Clone, Debug)]
pub struct Alias {
    pub name: Identifier,
    pub asname: Option<Identifier>,
}

/// The operator of an augmented assignment.
#[derive(Clone, Copy, Debug, PartialEq, Eq, Structural)]
pub enum Operator {
    Add,
    Sub,
    Mult,
    MatMult,
    Div,
    Mod,
    Pow,
    LShift,
    RShift,
    BitOr,
    BitXor,
    BitAnd,
    FloorDiv,
}

/// What is statically known of a guard. The `else` of a chain has the verdict `True`.
#[derive(Clone, Copy, Debug, PartialEq, Eq, Structural)]
pub enum Verdict {
    True,
    False,
    Unknown,
}

#[derive(Debug)]
#[allow(inconsistent_fields)]
pub enum Expr {
    /// A bare name.
    Name { id: String, range: TextRange },
    /// A literal text value, implicit concatenations joined.
    StringLiteral { value: String, range: TextRange },
    List { elts: Vec<Expr> },
    Tuple { elts: Vec<Expr> },
    /// `*value`
    Starred { value: Box<Expr> },
    /// `value.attr`
    Attribute { value: Box<Expr>, attr: Identifier },
    /// `value[slice]`
    Subscript { value: Box<Expr>, slice: Box<Expr> },
    /// `func(args..., keywords...)`, the keyword arguments by their values.
    Call { func: Box<Expr>, args: Vec<Expr>, keywords: Vec<Expr> },
    Other,
}

#[derive(Debug)]
#[allow(inconsistent_fields)]
pub enum Pattern {
    MatchValue,
    MatchSingleton,
    MatchSequence { patterns: Vec<Pattern> },
    /// `{key: pattern, ..., **rest}`
    MatchMapping { patterns: Vec<Pattern>, rest: Option<Identifier> },
    /// `Class(pattern, ..., key=pattern, ...)`: the positional patterns, then the keyword ones.
    MatchClass { patterns: Vec<Pattern> },
    /// `*name`
    MatchStar { name: Option<Identifier> },
    /// `pattern as name`, or a bare capture `name`.
    MatchAs { pattern: Option<Box<Pattern>>, name: Option<Identifier> },
    MatchOr { patterns: Vec<Pattern> },
}

/// One item of a `with` statement: the target after `as`, if any.
#[derive(Debug)]
pub struct WithItem {
    pub optional_vars: Option<Expr>,
}

#[derive(Debug)]
pub struct MatchCase {
    pub pattern: Pattern,
    pub body: Vec<Stmt>,
}

#[derive(Debug)]
pub struct ExceptHandler {
    pub name: Option<Identifier>,
    pub body: Vec<Stmt>,
}

/// One branch of an `if`/`elif`/`else` chain.
#[derive(Debug)]
pub struct IfBranch {
    pub verdict: Verdict,
    pub body: Vec<Stmt>,
}

#[derive(Debug)]
#[allow(inconsistent_fields)]
pub enum Stmt {
    /// `import a.b.c [as x], ...`
    Import { names: Vec<Alias> },
    /// `from <level dots><module> import name [as x], ...`
    ImportFrom { module: Option<Identifier>, level: u32, names: Vec<Alias>, range: TextRange },
    ClassDef { name: Identifier, body: Vec<Stmt> },
    FunctionDef { name: Identifier, body: Vec<Stmt> },
    Assign { targets: Vec<Expr>, value: Expr },
    AugAssign { target: Expr, op: Operator, value: Expr },
    AnnAssign { target: Expr },
    TypeAlias { name: Expr },
    For { target: Expr, body: Vec<Stmt>, orelse: Vec<Stmt> },
    While { body: Vec<Stmt>, orelse: Vec<Stmt> },
    With { items: Vec<WithItem>, body: Vec<Stmt> },
    Match { cases: Vec<MatchCase> },
    Try { body: Vec<Stmt>, handlers: Vec<ExceptHandler>, orelse: Vec<Stmt>, finalbody: Vec<Stmt> },
    If { branches: Vec<IfBranch> },
    /// An expression that stands as a statement.
    Expr { value: Expr },
    Other,
}

/// The name of the export list.
pub open spec fn dunder_all() -> Seq<char> {
    "__all__"@
}

/// Whether an expression is the bare name of the export list.
pub open spec fn is_all(e: Expr) -> bool {
    e matches Expr::Name { id, .. } && id@ == dunder_all()
}

} // verus!
