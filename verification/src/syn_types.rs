//! The `syn` and `proc-macro2` types that the conversion of a syntax tree
//! takes, declared so that they may stand in signatures; their values are
//! opaque.
use vstd::prelude::*;

verus! {

#[verifier::external_type_specification]
#[verifier::external_body]
pub struct ExSynFile(syn::File);

#[verifier::external_type_specification]
#[verifier::external_body]
pub struct ExSynAttribute(syn::Attribute);

#[verifier::external_type_specification]
#[verifier::external_body]
pub struct ExSynMeta(syn::Meta);

#[verifier::external_type_specification]
#[verifier::external_body]
pub struct ExSynPath(syn::Path);

#[verifier::external_type_specification]
#[verifier::external_body]
pub struct ExSynItem(syn::Item);

#[verifier::external_type_specification]
#[verifier::external_body]
pub struct ExSynTraitItem(syn::TraitItem);

#[verifier::external_type_specification]
#[verifier::external_body]
pub struct ExSynImplItem(syn::ImplItem);

#[verifier::external_type_specification]
#[verifier::external_body]
pub struct ExSynSignature(syn::Signature);

#[verifier::external_type_specification]
#[verifier::external_body]
pub struct ExSynGenerics(syn::Generics);

#[verifier::external_type_specification]
#[verifier::external_body]
pub struct ExSynBlock(syn::Block);

#[verifier::external_type_specification]
#[verifier::external_body]
pub struct ExSynStmt(syn::Stmt);

#[verifier::external_type_specification]
#[verifier::external_body]
pub struct ExSynLocal(syn::Local);

#[verifier::external_type_specification]
#[verifier::external_body]
pub struct ExSynExpr(syn::Expr);

#[verifier::external_type_specification]
#[verifier::external_body]
pub struct ExSynArm(syn::Arm);

#[verifier::external_type_specification]
#[verifier::external_body]
pub struct ExSynMacro(syn::Macro);

#[verifier::external_type_specification]
#[verifier::external_body]
pub struct ExTokenStream(proc_macro2::TokenStream);

#[verifier::external_type_specification]
#[verifier::external_body]
pub struct ExSynLit(syn::Lit);

#[verifier::external_type_specification]
#[verifier::external_body]
pub struct ExSynType(syn::Type);

#[verifier::external_type_specification]
#[verifier::external_body]
pub struct ExSynFieldValue(syn::FieldValue);

} // verus!
