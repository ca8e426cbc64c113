use vstd::prelude::*;
use crate::imports::{UseTreeNode, UseTreeList};

verus! {

#[verifier::external_type_specification]
#[verifier::external_body]
pub struct ExUseTree(syn::UseTree);

#[verifier::external_type_specification]
#[verifier::external_body]
pub struct ExExprPath(syn::ExprPath);

#[verifier::external_type_specification]
#[verifier::external_body]
pub struct ExError(syn::Error);

/// A top-level item of a source file, as plain values.
pub enum SourceItem {
    /// An import statement: its text and its tree of paths.
    Use { text: String, tree: UseTreeNode },
    /// A function: its name and its text.
    Fn { name: String, text: String },
    /// Any other item: its text.
    Other { text: String },
}

/// Whether `syn::parse_file` accepts the text as a whole source file.
pub uninterp spec fn parses_as_file(text: Seq<char>) -> bool;

/// The top-level items that `syn::parse_file` finds in the text, in source order.
pub uninterp spec fn items_of(text: Seq<char>) -> Seq<SourceItem>;

/// Whether `syn::parse_str::<syn::ItemFn>` accepts the text as one function item.
pub uninterp spec fn parses_as_fn(text: Seq<char>) -> bool;

/// The leading segment of each path expression of a function's text, in the order
/// that `syn::visit` walks them.
pub uninterp spec fn heads_of(text: Seq<char>) -> Seq<Seq<char>>;

/// Relies on `syn::parse_file`, which fails on malformed text, and on
/// `quote::ToTokens` for each item's text.
#[verifier::external_body]
pub(crate) fn parse_items(text: &str) -> (r: Result<Vec<SourceItem>, syn::Error>)
    ensures
        r is Ok == parses_as_file(text@),
        r matches Ok(items) ==> items@ == items_of(text@),
{
    let file = syn::parse_file(text)?;
    Ok(file.items.iter().map(|item| {
        let text = quote::ToTokens::to_token_stream(item).to_string();
        match item {
            syn::Item::Use(u) => SourceItem::Use { text, tree: convert_tree(&u.tree) },
            syn::Item::Fn(f) => SourceItem::Fn { name: f.sig.ident.to_string(), text },
            _ => SourceItem::Other { text },
        }
    }).collect())
}

/// Relies on the variants of `syn::UseTree`, converted node for node.
#[verifier::external_body]
fn convert_tree(t: &syn::UseTree) -> (r: UseTreeNode) {
    match t {
        syn::UseTree::Path(p) => UseTreeNode::Path(p.ident.to_string(), Box::new(convert_tree(&p.tree))),
        syn::UseTree::Name(n) => UseTreeNode::Name(n.ident.to_string()),
        syn::UseTree::Rename(r) => UseTreeNode::Rename(r.ident.to_string(), r.rename.to_string()),
        syn::UseTree::Glob(_) => UseTreeNode::Glob,
        syn::UseTree::Group(g) => UseTreeNode::Group(Box::new(g.items.iter().rev().fold(
            UseTreeList::Nil,
            |rest, t| UseTreeList::Cons(Box::new(convert_tree(t)), Box::new(rest)),
        ))),
    }
}

/// Collects the leading segment of each path expression that `syn::visit` walks to.
pub struct PathHeads {
    pub heads: Vec<String>,
}

impl<'ast> syn::visit::Visit<'ast> for PathHeads {
    /// Relies on `syn::visit::visit_expr_path` to go on into the path's own expressions.
    #[verifier::external_body]
    fn visit_expr_path(&mut self, node: &'ast syn::ExprPath) {
        if let Some(seg) = node.path.segments.first() {
            self.heads.push(seg.ident.to_string());
        }
        syn::visit::visit_expr_path(self, node);
    }
}

/// Relies on `syn::parse_str::<syn::ItemFn>`, which parses the text of one function
/// item, and on `syn::visit::visit_item_fn`, which walks every expression of it.
#[verifier::external_body]
pub(crate) fn function_heads(text: &str) -> (r: Result<Vec<String>, syn::Error>)
    ensures
        r is Ok == parses_as_fn(text@),
        r matches Ok(heads) ==> heads.deep_view() == heads_of(text@),
{
    let item: syn::ItemFn = syn::parse_str(text)?;
    let mut v = PathHeads { heads: Vec::new() };
    syn::visit::visit_item_fn(&mut v, &item);
    Ok(v.heads)
}

} // verus!
