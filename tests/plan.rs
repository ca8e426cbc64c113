use modsplit::{
    introduced_names, lookup, sanitize_filename, split_unit, usage_set, FunctionUnit, ImportStmt,
    Unit, UseTreeList, UseTreeNode,
};

fn s(x: &str) -> String {
    x.to_string()
}

fn import(text: &str, names: &[&str]) -> ImportStmt {
    ImportStmt { text: s(text), names: names.iter().map(|n| s(n)).collect() }
}

fn function(name: &str, text: &str, heads: &[&str]) -> FunctionUnit {
    FunctionUnit { name: s(name), text: s(text), heads: heads.iter().map(|h| s(h)).collect() }
}

fn path(seg: &str, rest: UseTreeNode) -> UseTreeNode {
    UseTreeNode::Path(s(seg), Box::new(rest))
}

fn group(items: Vec<UseTreeNode>) -> UseTreeNode {
    let mut list = UseTreeList::Nil;
    for t in items.into_iter().rev() {
        list = UseTreeList::Cons(Box::new(t), Box::new(list));
    }
    UseTreeNode::Group(Box::new(list))
}

#[test]
fn sanitize_keeps_letters_digits_underscores() {
    assert_eq!(sanitize_filename("group_1"), "group_1");
    assert_eq!(sanitize_filename("a-b.c d::e_9"), "abcde_9");
    assert_eq!(sanitize_filename("é1"), "é1");
    assert_eq!(sanitize_filename(""), "");
    assert_eq!(sanitize_filename("-+."), "");
}

#[test]
fn explicit_names_are_preferred() {
    // use a::{b, c as d, e::*};
    let t = path(
        "a",
        group(vec![
            UseTreeNode::Name(s("b")),
            UseTreeNode::Rename(s("c"), s("d")),
            path("e", UseTreeNode::Glob),
        ]),
    );
    assert_eq!(introduced_names(&t), vec![s("b"), s("d")]);
}

#[test]
fn glob_falls_back_to_root() {
    let t = path("net", path("sub", UseTreeNode::Glob));
    assert_eq!(introduced_names(&t), vec![s("net")]);
}

#[test]
fn self_binds_its_parent_segment() {
    // use net::{self, Client};
    let t = path("net", group(vec![UseTreeNode::Name(s("self")), UseTreeNode::Name(s("Client"))]));
    assert_eq!(introduced_names(&t), vec![s("net"), s("Client")]);
}

#[test]
fn lookup_takes_last_import() {
    let imports = vec![import("use a::http;", &["http"]), import("use b::http;", &["http"])];
    assert_eq!(lookup(&imports, &s("http")), Some(1));
    assert_eq!(lookup(&imports, &s("ftp")), None);
}

#[test]
fn usage_set_drops_unknown_and_repeated_heads() {
    let imports = vec![import("use a::*;", &["a"]), import("use b::C;", &["C"])];
    let heads = vec![s("x"), s("C"), s("a"), s("C"), s("y"), s("a")];
    assert_eq!(usage_set(&imports, &heads), vec![s("C"), s("a")]);
}

#[test]
fn split_unit_builds_exact_texts() {
    let u = Unit {
        imports: vec![import("use net::*;", &["net"]), import("use fs::*;", &["fs"])],
        functions: vec![function("a", "fn a(){}", &["net"]), function("b", "fn b(){}", &["q"])],
        entry: Some(s("fn main(){}")),
        others: vec![s("struct S;")],
    };
    let out = split_unit(&u);
    assert_eq!(out.modules.len(), 2);
    assert_eq!(out.modules[0].file_name, "group_1_mod.rs");
    assert_eq!(out.modules[0].body, "use crate::*;\n\nuse net::*;\n\nfn a(){}\n\n");
    assert_eq!(out.modules[1].file_name, "general_mod.rs");
    assert_eq!(out.modules[1].body, "use crate::*;\n\n\nfn b(){}\n\n");
    assert_eq!(
        out.entry_file,
        "use net::*;\n\nuse fs::*;\n\nstruct S;\n\n\
         pub mod group_1_mod;\n\npub mod general_mod;\n\n\
         pub use group_1_mod::*;\n\npub use general_mod::*;\n\n\
         fn main(){}\n\n"
    );
}

#[test]
fn split_unit_without_entry_function() {
    let u = Unit {
        imports: vec![],
        functions: vec![function("a", "fn a(){}", &[])],
        entry: None,
        others: vec![],
    };
    let out = split_unit(&u);
    assert!(out.modules.is_empty());
    assert_eq!(out.entry_file, "fn a(){}\n\n");
}

#[test]
fn keys_count_past_nine() {
    let names: Vec<String> = (0..11).map(|i| format!("m{}", i)).collect();
    let imports: Vec<ImportStmt> =
        names.iter().map(|n| import(&format!("use {}::*;", n), &[n.as_str()])).collect();
    let functions: Vec<FunctionUnit> = names
        .iter()
        .enumerate()
        .map(|(i, n)| function(&format!("f{}", i), &format!("fn f{}(){{}}", i), &[n.as_str()]))
        .collect();
    let out = split_unit(&Unit { imports, functions, entry: None, others: vec![] });
    assert_eq!(out.modules.len(), 11);
    assert_eq!(out.modules[9].file_name, "group_10_mod.rs");
    assert_eq!(out.modules[10].declaration, "pub mod group_11_mod;");
}

#[test]
fn general_group_does_not_take_a_number() {
    let u = Unit {
        imports: vec![import("use n::*;", &["n"])],
        functions: vec![
            function("a", "fn a(){}", &[]),
            function("b", "fn b(){}", &["n"]),
        ],
        entry: None,
        others: vec![],
    };
    let out = split_unit(&u);
    assert_eq!(out.modules[0].file_name, "general_mod.rs");
    assert_eq!(out.modules[1].file_name, "group_1_mod.rs");
}
