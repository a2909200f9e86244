//! The syntax of a Rust source file as the source analysis reads it: its
//! attributes, and its items, statements and expressions, each with the
//! lines it spans. Parsing is done by `syn`; what the analysis reads of the
//! tree is held here as plain values.
use vstd::prelude::*;
use syn::spanned::Spanned;
use crate::attributes::{AttrSyntax, LitSyntax, MetaItem};
use crate::macro_lines::TokenSpan;

verus! {

/// The kind of a token tree.
pub enum TokenKind {
    Group,
    Ident,
    Punct,
    Literal,
}

/// A token tree, by the lines it spans and its kind.
pub struct TokenTreeSyntax {
    pub start_line: usize,
    pub end_line: usize,
    pub kind: TokenKind,
}

/// A macro call: the last segment of its path (where it has one), the lines
/// it spans, and the token trees of its arguments.
pub struct MacroSyntax {
    pub name: Option<String>,
    pub start_line: usize,
    pub end_line: usize,
    pub args: Vec<TokenTreeSyntax>,
}

/// The kind of a type.
pub enum TypeTag {
    Array,
    FnPtr,
    Group,
    ImplTrait,
    Infer,
    Macro,
    Never,
    Paren,
    Path,
    Ptr,
    Reference,
    Slice,
    TraitObject,
    Tuple,
    Verbatim,
    Other,
}

/// An argument of a function: `self`, or a typed pattern by its type's
/// kind.
pub enum FnArgSyntax {
    Receiver,
    Typed(TypeTag),
}

/// A block: the lines from its opening to its closing brace, and its
/// statements.
pub struct BlockSyntax {
    pub start_line: usize,
    pub end_line: usize,
    pub stmts: Vec<StmtSyntax>,
}

/// A function with a body: its attributes, the lines it spans, the line of
/// its `fn` token, the number of its generic parameters, its arguments, the
/// tokens of its `where` clause, and its body.
pub struct FnSyntax {
    pub attrs: Vec<AttrSyntax>,
    pub start_line: usize,
    pub end_line: usize,
    pub fn_line: usize,
    pub generic_params: usize,
    pub args: Vec<FnArgSyntax>,
    pub where_tokens: Vec<TokenSpan>,
    pub body: BlockSyntax,
}

/// A module item: its attributes, the line of its `mod` token, its name,
/// and where its body is inline, the lines of its braces and its items.
pub struct ModSyntax {
    pub attrs: Vec<AttrSyntax>,
    pub mod_line: usize,
    pub name: String,
    pub braces: Option<(usize, usize)>,
    pub items: Vec<ItemSyntax>,
}

/// An item of a trait.
pub enum TraitItemSyntax {
    /// A method, by its attributes and lines, with the method as a function
    /// where it has a default body.
    Fn(Vec<AttrSyntax>, usize, usize, Option<FnSyntax>),
    Other,
}

/// A trait item: its attributes, the lines it spans, its items, and the
/// tokens of its `where` clause.
pub struct TraitSyntax {
    pub attrs: Vec<AttrSyntax>,
    pub start_line: usize,
    pub end_line: usize,
    pub items: Vec<TraitItemSyntax>,
    pub where_tokens: Vec<TokenSpan>,
}

/// An item of an impl block.
pub enum ImplItemSyntax {
    Fn(FnSyntax),
    /// An associated type, by the lines it spans
    Type(usize, usize),
    Other,
}

/// An impl block: its attributes, the lines it spans, the number of its
/// generic parameters, its items, and the tokens of its `where` clause.
pub struct ImplSyntax {
    pub attrs: Vec<AttrSyntax>,
    pub start_line: usize,
    pub end_line: usize,
    pub generic_params: usize,
    pub items: Vec<ImplItemSyntax>,
    pub where_tokens: Vec<TokenSpan>,
}

/// An item; those the analysis does not look into by the lines they span.
pub enum ItemSyntax {
    Const(usize, usize),
    Enum(usize, usize),
    ExternCrate(usize, usize),
    Fn(FnSyntax),
    ForeignMod(usize, usize),
    Impl(ImplSyntax),
    Macro(MacroSyntax),
    Mod(ModSyntax),
    Static(usize, usize),
    Struct(usize, usize),
    Trait(TraitSyntax),
    TraitAlias(usize, usize),
    Type(usize, usize),
    Union(usize, usize),
    Use(usize, usize),
    Verbatim(usize, usize),
    Other,
}

/// A `let` statement's initialiser: the line of its `=`, its expression,
/// and its `else` branch.
pub struct InitSyntax {
    pub eq_line: usize,
    pub expr: ExprSyntax,
    pub diverge: Option<ExprSyntax>,
}

/// A `let` statement: its attributes, the lines it spans, the lines of its
/// `let` token and its pattern, and its initialiser.
pub struct LocalSyntax {
    pub attrs: Vec<AttrSyntax>,
    pub start_line: usize,
    pub end_line: usize,
    pub let_line: usize,
    pub pat_line: usize,
    pub init: Option<InitSyntax>,
}

/// A statement.
pub enum StmtSyntax {
    Local(LocalSyntax),
    Item(ItemSyntax),
    Expr(ExprSyntax),
    /// A macro call in statement position, with its attributes
    Macro(Vec<AttrSyntax>, MacroSyntax),
}

/// An arm of a `match`: its attributes, the lines it spans, the lines of
/// its pattern, and its body.
pub struct ArmSyntax {
    pub attrs: Vec<AttrSyntax>,
    pub start_line: usize,
    pub end_line: usize,
    pub pat_start: usize,
    pub pat_end: usize,
    pub body: ExprSyntax,
}

/// An expression: the lines it spans and what it is.
pub struct ExprSyntax {
    pub start_line: usize,
    pub end_line: usize,
    pub kind: ExprKind,
}

/// A field of a struct literal: the line of its name, and its value.
pub struct FieldSyntax {
    pub member_line: usize,
    pub value: ExprSyntax,
}

/// The kinds of expression the analysis tells apart.
pub enum ExprKind {
    Macro(MacroSyntax),
    /// A struct literal, by its fields
    Struct(Vec<FieldSyntax>),
    /// An `unsafe` block: the line of `unsafe`, the line its first
    /// statement starts on, and the block
    Unsafe(usize, Option<usize>, BlockSyntax),
    Call(Vec<AttrSyntax>, Box<ExprSyntax>, Vec<ExprSyntax>),
    MethodCall(Vec<AttrSyntax>, Box<ExprSyntax>, Vec<ExprSyntax>),
    Lit(LitSyntax),
    Match(Vec<ArmSyntax>),
    Block(Vec<AttrSyntax>, BlockSyntax),
    If(Box<ExprSyntax>, BlockSyntax, Option<Box<ExprSyntax>>),
    /// A `while` loop, with its attributes and body
    While(Vec<AttrSyntax>, BlockSyntax),
    /// A `for` loop, with its attributes and body
    ForLoop(Vec<AttrSyntax>, BlockSyntax),
    /// A `loop`, with its attributes and body
    Loop(Vec<AttrSyntax>, BlockSyntax),
    Return(Vec<AttrSyntax>),
    Closure(Box<ExprSyntax>),
    /// A path, by its last segment
    Path(Option<String>),
    /// A `let` in a condition: attributes, the lines of `let`, of the
    /// pattern and of `=`, and the expression
    Let(Vec<AttrSyntax>, usize, usize, usize, Box<ExprSyntax>),
    /// A group, by the expression inside
    Group(Box<ExprSyntax>),
    /// An `.await`, by the expression awaited
    Await(Box<ExprSyntax>),
    Async(BlockSyntax),
    Try(Box<ExprSyntax>),
    TryBlock(BlockSyntax),
    Other,
}

/// A parsed source file: its inner attributes, the lines it spans, and its
/// items.
pub struct FileSyntax {
    pub attrs: Vec<AttrSyntax>,
    pub start_line: usize,
    pub end_line: usize,
    pub items: Vec<ItemSyntax>,
}

} // verus!
