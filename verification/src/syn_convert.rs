//! Reading a `syn` syntax tree into the plain values of `file_syntax`. Each
//! function here converts one kind of node: each variant of a `syn` enum
//! into the variant of the same name of the library's enum (`Other` for
//! those the analysis does not tell apart, and for variants later versions
//! of `syn` may add), keeping the lines its span covers (with
//! `span-locations`, as `syn` gives them outside a procedural macro).
//! Nothing is stated of what they return: the parse as a whole is named by
//! `file_syntax`.
use vstd::prelude::*;
use syn::spanned::Spanned;
use crate::attributes::{AttrSyntax, LitSyntax, MetaItem, MetaValue};
use crate::file_syntax::{
    ArmSyntax, BlockSyntax, ExprKind, ExprSyntax, FieldSyntax, FileSyntax, FnArgSyntax, FnSyntax, TokenKind,
    TokenTreeSyntax, TypeTag, ImplItemSyntax, ImplSyntax, InitSyntax,
    ItemSyntax, LocalSyntax, MacroSyntax, ModSyntax, StmtSyntax, TraitItemSyntax, TraitSyntax,
};
use crate::macro_lines::TokenSpan;

verus! {

/// Converts a parsed file.
#[verifier::external_body]
pub(crate) fn file_of(f: &syn::File) -> FileSyntax {
    FileSyntax {
        attrs: attrs_of(&f.attrs),
        start_line: f.span().start().line,
        end_line: f.span().end().line,
        items: f.items.iter().map(item_of).collect(),
    }
}

/// Converts a path into its segments.
#[verifier::external_body]
fn path_of(p: &syn::Path) -> Vec<String> {
    p.segments.iter().map(|s| s.ident.to_string()).collect()
}

/// Converts a meta item; a list's items where they parse as meta items.
#[verifier::external_body]
fn meta_of(m: &syn::Meta) -> MetaItem {
    match m {
        syn::Meta::Path(p) => MetaItem::Path(path_of(p)),
        syn::Meta::List(l) => MetaItem::List(path_of(&l.path), l.parse_args_with(
            syn::punctuated::Punctuated::<syn::Meta, syn::token::Comma>::parse_terminated,
        ).ok().map(|v| v.iter().map(meta_of).collect())),
        syn::Meta::NameValue(v) => MetaItem::NameValue(path_of(&v.path), value_of(&v.value)),
    }
}

/// Converts the value of a meta item: a literal, or another expression.
#[verifier::external_body]
fn value_of(e: &syn::Expr) -> MetaValue {
    match e {
        syn::Expr::Lit(l) => MetaValue::Lit(lit_of(&l.lit)),
        _ => MetaValue::Other,
    }
}

/// Converts a literal.
#[verifier::external_body]
fn lit_of(l: &syn::Lit) -> LitSyntax {
    match l {
        syn::Lit::Str(s) => LitSyntax::Str(s.value()),
        syn::Lit::ByteStr(_) => LitSyntax::ByteStr,
        syn::Lit::CStr(_) => LitSyntax::CStr,
        syn::Lit::Byte(_) => LitSyntax::Byte,
        syn::Lit::Char(_) => LitSyntax::Char,
        syn::Lit::Int(_) => LitSyntax::Int,
        syn::Lit::Float(_) => LitSyntax::Float,
        syn::Lit::Bool(b) => LitSyntax::Bool(b.value),
        _ => LitSyntax::Other,
    }
}

/// Converts a list of attributes.
#[verifier::external_body]
fn attrs_of(v: &Vec<syn::Attribute>) -> Vec<AttrSyntax> {
    v.iter().map(|a| AttrSyntax {
        meta: meta_of(&a.meta),
        start_line: a.span().start().line,
        end_line: a.span().end().line,
    }).collect()
}

/// Converts a token stream into its token trees.
#[verifier::external_body]
fn tokens_of(t: &proc_macro2::TokenStream) -> Vec<TokenTreeSyntax> {
    t.clone().into_iter().map(|x| TokenTreeSyntax {
        start_line: x.span().start().line,
        end_line: x.span().end().line,
        kind: match x {
            proc_macro2::TokenTree::Group(_) => TokenKind::Group,
            proc_macro2::TokenTree::Ident(_) => TokenKind::Ident,
            proc_macro2::TokenTree::Punct(_) => TokenKind::Punct,
            proc_macro2::TokenTree::Literal(_) => TokenKind::Literal,
        },
    }).collect()
}

/// Converts a macro call.
#[verifier::external_body]
fn macro_of(m: &syn::Macro) -> MacroSyntax {
    MacroSyntax {
        name: m.path.segments.last().map(|s| s.ident.to_string()),
        start_line: m.span().start().line,
        end_line: m.span().end().line,
        args: tokens_of(&m.tokens),
    }
}

/// The span of a `where` clause, where there is one.
#[verifier::external_body]
fn where_of(g: &syn::Generics) -> Vec<TokenSpan> {
    g.where_clause.iter().map(|w| TokenSpan {
        start_line: w.span().start().line,
        end_line: w.span().end().line,
        literal_or_punct: false,
    }).collect()
}

/// Converts a function from its attributes, signature and body, spanning
/// lines `start` to `end`.
#[verifier::external_body]
fn fn_of(attrs: &Vec<syn::Attribute>, sig: &syn::Signature, body: &syn::Block, start: usize, end: usize) -> FnSyntax {
    FnSyntax {
        attrs: attrs_of(attrs),
        start_line: start,
        end_line: end,
        fn_line: sig.fn_token.span().start().line,
        generic_params: sig.generics.params.len(),
        args: sig.inputs.iter().map(|a| match a {
            syn::FnArg::Receiver(_) => FnArgSyntax::Receiver,
            syn::FnArg::Typed(p) => FnArgSyntax::Typed(type_of(&p.ty)),
        }).collect(),
        where_tokens: where_of(&sig.generics),
        body: block_of(body),
    }
}

/// Converts an item.
#[verifier::external_body]
fn item_of(i: &syn::Item) -> ItemSyntax {
    match i {
        syn::Item::Fn(f) => ItemSyntax::Fn(fn_of(&f.attrs, &f.sig, &f.block, i.span().start().line, i.span().end().line)),
        syn::Item::Mod(_) => mod_of(i),
        syn::Item::Trait(_) => trait_of(i),
        syn::Item::Impl(_) => impl_of(i),
        syn::Item::Macro(m) => ItemSyntax::Macro(macro_of(&m.mac)),
        _ => spanned_item_of(i),
    }
}

/// Converts the type of a function argument into its kind.
#[verifier::external_body]
fn type_of(t: &syn::Type) -> TypeTag {
    match t {
        syn::Type::Array(_) => TypeTag::Array,
        syn::Type::FnPtr(_) => TypeTag::FnPtr,
        syn::Type::Group(_) => TypeTag::Group,
        syn::Type::ImplTrait(_) => TypeTag::ImplTrait,
        syn::Type::Infer(_) => TypeTag::Infer,
        syn::Type::Macro(_) => TypeTag::Macro,
        syn::Type::Never(_) => TypeTag::Never,
        syn::Type::Paren(_) => TypeTag::Paren,
        _ => type_rest_of(t),
    }
}

/// Converts the type of a function argument into its kind: the kinds
/// `type_of` leaves.
#[verifier::external_body]
fn type_rest_of(t: &syn::Type) -> TypeTag {
    match t {
        syn::Type::Path(_) => TypeTag::Path,
        syn::Type::Ptr(_) => TypeTag::Ptr,
        syn::Type::Reference(_) => TypeTag::Reference,
        syn::Type::Slice(_) => TypeTag::Slice,
        syn::Type::TraitObject(_) => TypeTag::TraitObject,
        syn::Type::Tuple(_) => TypeTag::Tuple,
        syn::Type::Verbatim(_) => TypeTag::Verbatim,
        _ => TypeTag::Other,
    }
}

/// Converts an item the analysis does not look into, by the lines it spans.
#[verifier::external_body]
fn spanned_item_of(i: &syn::Item) -> ItemSyntax {
    let (a, b) = (i.span().start().line, i.span().end().line);
    match i {
        syn::Item::Const(_) => ItemSyntax::Const(a, b),
        syn::Item::Enum(_) => ItemSyntax::Enum(a, b),
        syn::Item::ExternCrate(_) => ItemSyntax::ExternCrate(a, b),
        syn::Item::ForeignMod(_) => ItemSyntax::ForeignMod(a, b),
        syn::Item::Static(_) => ItemSyntax::Static(a, b),
        syn::Item::Struct(_) => ItemSyntax::Struct(a, b),
        _ => spanned_rest_of(i),
    }
}

/// Converts an item the analysis does not look into: the kinds
/// `spanned_item_of` leaves.
#[verifier::external_body]
fn spanned_rest_of(i: &syn::Item) -> ItemSyntax {
    let (a, b) = (i.span().start().line, i.span().end().line);
    match i {
        syn::Item::TraitAlias(_) => ItemSyntax::TraitAlias(a, b),
        syn::Item::Type(_) => ItemSyntax::Type(a, b),
        syn::Item::Union(_) => ItemSyntax::Union(a, b),
        syn::Item::Use(_) => ItemSyntax::Use(a, b),
        syn::Item::Verbatim(_) => ItemSyntax::Verbatim(a, b),
        _ => ItemSyntax::Other,
    }
}

/// Converts a module.
#[verifier::external_body]
fn mod_of(i: &syn::Item) -> ItemSyntax {
    match i {
        syn::Item::Mod(m) => ItemSyntax::Mod(ModSyntax {
            attrs: attrs_of(&m.attrs),
            mod_line: m.mod_token.span().start().line,
            name: m.ident.to_string(),
            braces: m.content.as_ref().map(|(b, _)| (b.span.join().start().line, b.span.join().end().line)),
            items: m.content.iter().flat_map(|(_, v)| v.iter().map(item_of)).collect(),
        }),
        _ => ItemSyntax::Other,
    }
}

/// Converts a trait.
#[verifier::external_body]
fn trait_of(i: &syn::Item) -> ItemSyntax {
    match i {
        syn::Item::Trait(t) => ItemSyntax::Trait(TraitSyntax {
            attrs: attrs_of(&t.attrs),
            start_line: i.span().start().line,
            end_line: i.span().end().line,
            items: t.items.iter().map(trait_item_of).collect(),
            where_tokens: where_of(&t.generics),
        }),
        _ => ItemSyntax::Other,
    }
}
/// Converts an impl block.
#[verifier::external_body]
fn impl_of(i: &syn::Item) -> ItemSyntax {
    match i {
        syn::Item::Impl(b) => ItemSyntax::Impl(ImplSyntax {
            attrs: attrs_of(&b.attrs),
            start_line: i.span().start().line,
            end_line: i.span().end().line,
            generic_params: b.generics.params.len(),
            items: b.items.iter().map(impl_item_of).collect(),
            where_tokens: where_of(&b.generics),
        }),
        _ => ItemSyntax::Other,
    }
}

/// Converts an item of a trait.
#[verifier::external_body]
fn trait_item_of(t: &syn::TraitItem) -> TraitItemSyntax {
    match t {
        syn::TraitItem::Fn(f) => TraitItemSyntax::Fn(
            attrs_of(&f.attrs),
            t.span().start().line,
            t.span().end().line,
            f.default.as_ref().map(|b| fn_of(&f.attrs, &f.sig, b, t.span().start().line, t.span().end().line)),
        ),
        _ => TraitItemSyntax::Other,
    }
}

/// Converts an item of an impl block.
#[verifier::external_body]
fn impl_item_of(t: &syn::ImplItem) -> ImplItemSyntax {
    match t {
        syn::ImplItem::Fn(f) => ImplItemSyntax::Fn(
            fn_of(&f.attrs, &f.sig, &f.block, t.span().start().line, t.span().end().line),
        ),
        syn::ImplItem::Type(_) => ImplItemSyntax::Type(t.span().start().line, t.span().end().line),
        _ => ImplItemSyntax::Other,
    }
}

/// Converts a block.
#[verifier::external_body]
fn block_of(b: &syn::Block) -> BlockSyntax {
    BlockSyntax {
        start_line: b.brace_token.span.join().start().line,
        end_line: b.brace_token.span.join().end().line,
        stmts: b.stmts.iter().map(stmt_of).collect(),
    }
}

/// Converts a statement.
#[verifier::external_body]
fn stmt_of(s: &syn::Stmt) -> StmtSyntax {
    match s {
        syn::Stmt::Local(l) => StmtSyntax::Local(local_of(l)),
        syn::Stmt::Item(i) => StmtSyntax::Item(item_of(i)),
        syn::Stmt::Expr(e, _) => StmtSyntax::Expr(expr_of(e)),
        syn::Stmt::Macro(m) => StmtSyntax::Macro(attrs_of(&m.attrs), macro_of(&m.mac)),
    }
}

/// Converts a `let` statement.
#[verifier::external_body]
fn local_of(l: &syn::Local) -> LocalSyntax {
    LocalSyntax {
        attrs: attrs_of(&l.attrs),
        start_line: l.span().start().line,
        end_line: l.span().end().line,
        let_line: l.let_token.span().start().line,
        pat_line: l.pat.span().start().line,
        init: l.init.as_ref().map(|i| InitSyntax {
            eq_line: i.eq_token.span().start().line,
            expr: expr_of(&i.expr),
            diverge: i.diverge.as_ref().map(|(_, d)| expr_of(d)),
        }),
    }
}

/// Converts a field of a struct literal.
#[verifier::external_body]
fn field_of(f: &syn::FieldValue) -> FieldSyntax {
    FieldSyntax { member_line: f.member.span().start().line, value: expr_of(&f.expr) }
}

/// Converts an arm of a `match`.
#[verifier::external_body]
fn arm_of(a: &syn::Arm) -> ArmSyntax {
    ArmSyntax {
        attrs: attrs_of(&a.attrs),
        start_line: a.span().start().line,
        end_line: a.span().end().line,
        pat_start: a.pat.span().start().line,
        pat_end: a.pat.span().end().line,
        body: expr_of(&a.body),
    }
}

/// Converts an expression.
#[verifier::external_body]
fn expr_of(e: &syn::Expr) -> ExprSyntax {
    ExprSyntax { start_line: e.span().start().line, end_line: e.span().end().line, kind: kind_of(e) }
}

/// Converts an expression's kind: macro calls, struct literals, `unsafe`
/// blocks and calls.
#[verifier::external_body]
fn kind_of(e: &syn::Expr) -> ExprKind {
    match e {
        syn::Expr::Macro(m) => ExprKind::Macro(macro_of(&m.mac)),
        syn::Expr::Struct(_) => ExprKind::Struct(fields_of(e)),
        syn::Expr::Unsafe(u) => ExprKind::Unsafe(
            u.unsafe_token.span().start().line,
            u.block.stmts.first().map(|s| s.span().start().line),
            block_of(&u.block),
        ),
        syn::Expr::Call(c) => ExprKind::Call(attrs_of(&c.attrs), Box::new(expr_of(&c.func)), c.args.iter().map(expr_of).collect()),
        _ => branch_kind_of(e),
    }
}

/// Converts the fields of a struct literal.
#[verifier::external_body]
fn fields_of(e: &syn::Expr) -> Vec<FieldSyntax> {
    match e {
        syn::Expr::Struct(s) => s.fields.iter().map(field_of).collect(),
        _ => Vec::new(),
    }
}
/// Converts an expression's kind: method calls, `match`, blocks, `if` and
/// loops.
#[verifier::external_body]
fn branch_kind_of(e: &syn::Expr) -> ExprKind {
    match e {
        syn::Expr::MethodCall(m) => ExprKind::MethodCall(
            attrs_of(&m.attrs),
            Box::new(expr_of(&m.receiver)),
            m.args.iter().map(expr_of).collect(),
        ),
        syn::Expr::Match(m) => ExprKind::Match(m.arms.iter().map(arm_of).collect()),
        syn::Expr::Block(b) => ExprKind::Block(attrs_of(&b.attrs), block_of(&b.block)),
        syn::Expr::If(i) => ExprKind::If(
            Box::new(expr_of(&i.cond)),
            block_of(&i.then_branch),
            i.else_branch.as_ref().map(|(_, x)| Box::new(expr_of(x))),
        ),
        _ => loop_kind_of(e),
    }
}

/// Converts an expression's kind: loops, `return`, closures and paths.
#[verifier::external_body]
fn loop_kind_of(e: &syn::Expr) -> ExprKind {
    match e {
        syn::Expr::While(w) => ExprKind::While(attrs_of(&w.attrs), block_of(&w.body)),
        syn::Expr::ForLoop(f) => ExprKind::ForLoop(attrs_of(&f.attrs), block_of(&f.body)),
        syn::Expr::Loop(l) => ExprKind::Loop(attrs_of(&l.attrs), block_of(&l.body)),
        syn::Expr::Return(r) => ExprKind::Return(attrs_of(&r.attrs)),
        syn::Expr::Closure(c) => ExprKind::Closure(Box::new(expr_of(&c.body))),
        syn::Expr::Path(p) => ExprKind::Path(p.path.segments.last().map(|s| s.ident.to_string())),
        _ => other_kind_of(e),
    }
}

/// Converts an expression's kind: `let`, groups, `.await`, `async`
/// blocks and `?`.
#[verifier::external_body]
fn other_kind_of(e: &syn::Expr) -> ExprKind {
    match e {
        syn::Expr::Let(_) => let_kind_of(e),
        syn::Expr::Lit(l) => ExprKind::Lit(lit_of(&l.lit)),
        syn::Expr::Group(g) => ExprKind::Group(Box::new(expr_of(&g.expr))),
        syn::Expr::Await(a) => ExprKind::Await(Box::new(expr_of(&a.base))),
        syn::Expr::Async(a) => ExprKind::Async(block_of(&a.block)),
        syn::Expr::Try(t) => ExprKind::Try(Box::new(expr_of(&t.expr))),
        syn::Expr::TryBlock(t) => ExprKind::TryBlock(block_of(&t.block)),
        _ => ExprKind::Other,
    }
}

/// Converts a `let` expression.
#[verifier::external_body]
fn let_kind_of(e: &syn::Expr) -> ExprKind {
    match e {
        syn::Expr::Let(l) => ExprKind::Let(
            attrs_of(&l.attrs),
            l.let_token.span().start().line,
            l.pat.span().start().line,
            l.eq_token.span().start().line,
            Box::new(expr_of(&l.expr)),
        ),
        _ => ExprKind::Other,
    }
}
} // verus!
