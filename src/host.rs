//! What the library asks of the Rust parser in `syn`. The answers depend on
//! how the text is lexed (inside a compiler or not), so nothing is promised of
//! them: the parser states what holds whatever they are.
use vstd::prelude::*;

verus! {

/// Relies on `syn::Block::parse_within`, run by `syn::parse::Parser::parse_str`:
/// `None` when the text does not parse as statements, else one entry per
/// statement, in order: its source text, and whether it is a
/// `syn::Stmt::Expr` holding a `syn::Expr::Return`.
#[verifier::external_body]
pub(crate) fn host_stmts(text: &str) -> (r: Option<Vec<(String, bool)>>) {
    let stmts = syn::parse::Parser::parse_str(syn::Block::parse_within, text).ok()?;
    let mut out = Vec::new();
    for s in &stmts {
        let is_return = match s {
            syn::Stmt::Expr(syn::Expr::Return(_), _) => true,
            _ => false,
        };
        out.push((quote::ToTokens::to_token_stream(s).to_string(), is_return));
    }
    Some(out)
}

/// Relies on `syn::parse_str::<syn::Expr>`: whether the whole text parses as
/// one expression.
#[verifier::external_body]
pub(crate) fn host_expr(text: &str) -> (r: bool) {
    syn::parse_str::<syn::Expr>(text).is_ok()
}

} // verus!
