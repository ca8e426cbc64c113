use modsplit::{split_source, SplitError, SplitOutput};

fn split(text: &str) -> SplitOutput {
    split_source(text).unwrap()
}

fn file_names(out: &SplitOutput) -> Vec<String> {
    out.modules.iter().map(|m| m.file_name.clone()).collect()
}

#[test]
fn network_function_and_plain_function_give_two_modules() {
    let out = split(
        "use net::*;\nfn a() { net::connect(); }\nfn b() { let x = 1; }\nfn main() { a(); b(); }\n",
    );
    assert_eq!(file_names(&out), vec!["group_1_mod.rs".to_string(), "general_mod.rs".to_string()]);
    assert!(out.modules[0].body.contains("fn a ()"));
    assert!(!out.modules[0].body.contains("fn b ()"));
    assert!(out.modules[0].body.contains("use net :: * ;"));
    assert!(out.modules[1].body.contains("fn b ()"));
    assert!(!out.modules[1].body.contains("fn a ()"));
    assert!(!out.modules[1].body.contains("use net"));
    assert!(out.entry_file.contains("pub mod group_1_mod;\n\npub mod general_mod;\n\n"));
    assert!(out.entry_file.contains("pub use group_1_mod::*;\n\npub use general_mod::*;\n\n"));
    assert!(!out.entry_file.contains("fn a ()"));
    assert!(!out.entry_file.contains("fn b ()"));
    assert!(out.entry_file.ends_with("fn main () { a () ; b () ; }\n\n"));
}

#[test]
fn only_entry_function_gives_no_module() {
    let out = split("use std::fmt;\nstruct S;\nfn main() {}\n");
    assert!(out.modules.is_empty());
    assert_eq!(out.entry_file, "use std :: fmt ;\n\nstruct S ;\n\nfn main () { }\n\n");
}

#[test]
fn both_imports_of_one_name_are_kept() {
    let out = split("use a::http;\nuse b::http;\nfn f() { http::get(); }\nfn main() {}\n");
    assert!(out.entry_file.starts_with("use a :: http ;\n\nuse b :: http ;\n\n"));
    assert_eq!(out.modules.len(), 1);
    assert_eq!(
        out.modules[0].body,
        "use crate::*;\n\nuse b :: http ;\n\nfn f () { http :: get () ; }\n\n"
    );
}

#[test]
fn no_referenced_import_keeps_functions_inline() {
    let out = split("use net::Client;\nfn a() { helper(); }\nfn helper() {}\nfn main() { a(); }\n");
    assert!(out.modules.is_empty());
    assert_eq!(
        out.entry_file,
        "use net :: Client ;\n\nfn a () { helper () ; }\n\nfn helper () { }\n\nfn main () { a () ; }\n\n"
    );
}

#[test]
fn no_functions_at_all_gives_no_module() {
    let out = split("const K: u8 = 1;\n");
    assert!(out.modules.is_empty());
    assert_eq!(out.entry_file, "const K : u8 = 1 ;\n\n");
}

#[test]
fn entry_function_comes_last() {
    let out = split("fn main() { x::go(); }\nuse x::go;\nfn f() { go(); }\nstruct T;\n");
    assert_eq!(file_names(&out), vec!["group_1_mod.rs".to_string()]);
    assert_eq!(
        out.entry_file,
        "use x :: go ;\n\nstruct T ;\n\npub mod group_1_mod;\n\npub use group_1_mod::*;\n\nfn main () { x :: go () ; }\n\n"
    );
}

#[test]
fn same_usage_set_shares_a_group() {
    let out = split(
        "use a::*;\nuse b::*;\n\
         fn f() { a::x(); b::y(); }\nfn g() { b::y(); a::x(); a::z(); }\nfn h() { b::y(); }\n\
         fn main() {}\n",
    );
    assert_eq!(file_names(&out), vec!["group_1_mod.rs".to_string(), "group_2_mod.rs".to_string()]);
    assert!(out.modules[0].body.contains("fn f ()"));
    assert!(out.modules[0].body.contains("fn g ()"));
    assert!(out.modules[1].body.contains("fn h ()"));
    assert_eq!(
        out.modules[0].body,
        "use crate::*;\n\nuse a :: * ;\nuse b :: * ;\n\nfn f () { a :: x () ; b :: y () ; }\n\nfn g () { b :: y () ; a :: x () ; a :: z () ; }\n\n"
    );
    assert_eq!(out.modules[1].declaration, "pub mod group_2_mod;");
    assert_eq!(out.modules[1].reexport, "pub use group_2_mod::*;");
}

#[test]
fn nested_paths_are_found() {
    let out = split(
        "use io::*;\nfn f(v: u8) { if v > 0 { for _ in 0..v { let c = || io::flush(); c(); } } }\nfn main() {}\n",
    );
    assert_eq!(file_names(&out), vec!["group_1_mod.rs".to_string()]);
}

#[test]
fn later_function_of_same_name_replaces_earlier() {
    let out = split("use n::*;\nfn f() { }\nfn g() { }\nfn f() { n::x(); }\nfn main() {}\n");
    assert_eq!(file_names(&out), vec!["group_1_mod.rs".to_string(), "general_mod.rs".to_string()]);
    assert!(out.modules[0].body.contains("fn f () { n :: x () ; }"));
    assert!(out.modules[1].body.contains("fn g ()"));
    assert!(!out.modules[1].body.contains("fn f ()"));
}

#[test]
fn split_is_deterministic() {
    let text = "use a::*;\nuse b::c;\nfn f() { a::x(); }\nfn g() { c(); }\nfn h() {}\nfn main() {}\n";
    let one = split(text);
    let two = split(text);
    assert_eq!(one.entry_file, two.entry_file);
    assert_eq!(one.modules.len(), two.modules.len());
    for (x, y) in one.modules.iter().zip(two.modules.iter()) {
        assert_eq!(x.file_name, y.file_name);
        assert_eq!(x.declaration, y.declaration);
        assert_eq!(x.reexport, y.reexport);
        assert_eq!(x.body, y.body);
    }
}

#[test]
fn malformed_text_is_refused() {
    assert!(matches!(split_source("fn ("), Err(SplitError::Unparsable)));
    assert!(matches!(split_source("use ;"), Err(SplitError::Unparsable)));
}

#[test]
fn every_function_is_placed_once() {
    let out = split(
        "use a::*;\nfn f1() { a::x(); }\nfn f2() {}\nfn f3() { a::y(); }\nfn f4() {}\nfn main() {}\n",
    );
    let mut all = out.entry_file.clone();
    for m in &out.modules {
        all.push_str(&m.body);
    }
    for name in ["fn f1 ()", "fn f2 ()", "fn f3 ()", "fn f4 ()", "fn main ()"] {
        assert_eq!(all.matches(name).count(), 1, "{}", name);
    }
}
