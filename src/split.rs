use vstd::prelude::*;
use crate::imports::{introduced, introduced_names};
use crate::plan::{modules, entry_text, split_unit, ModuleArtifact, SplitOutput};
use crate::syntax::{
    parses_as_file, parses_as_fn, items_of, heads_of, parse_items, function_heads, SourceItem,
};
use crate::text::str_eq;
use crate::unit::{ImportStmt, ImportView, FunctionUnit, FunctionView, Unit, UnitView, place};

verus! {

/// Why a source text could not be split.
#[derive(Debug)]
pub enum SplitError {
    /// The text is not a well-formed source file.
    Unparsable,
    /// The named function's text does not parse again on its own.
    FunctionUnparsable(String),
}

/// The name of the program's entry function.
pub open spec fn entry_name() -> Seq<char> {
    "main"@
}

pub open spec fn empty_unit() -> UnitView {
    UnitView { imports: Seq::empty(), functions: Seq::empty(), entry: None, others: Seq::empty() }
}

/// `u` with one more item sorted into its bucket.
pub open spec fn with_item(u: UnitView, item: SourceItem) -> UnitView {
    match item {
        SourceItem::Use { text, tree } => UnitView {
            imports: u.imports.push(ImportView { text: text@, names: introduced(tree) }),
            functions: u.functions,
            entry: u.entry,
            others: u.others,
        },
        SourceItem::Fn { name, text } => if name@ == entry_name() {
            UnitView { imports: u.imports, functions: u.functions, entry: Some(text@), others: u.others }
        } else {
            UnitView {
                imports: u.imports,
                functions: place(
                    u.functions,
                    FunctionView { name: name@, text: text@, heads: heads_of(text@) },
                ),
                entry: u.entry,
                others: u.others,
            }
        },
        SourceItem::Other { text } => UnitView {
            imports: u.imports,
            functions: u.functions,
            entry: u.entry,
            others: u.others.push(text@),
        },
    }
}

/// The unit that a sequence of items sorts into.
pub open spec fn ingested(items: Seq<SourceItem>) -> UnitView
    decreases items.len(),
{
    if items.len() == 0 {
        empty_unit()
    } else {
        with_item(ingested(items.drop_last()), items.last())
    }
}

/// The unit of a source text.
pub open spec fn unit_of(text: Seq<char>) -> UnitView {
    ingested(items_of(text))
}

/// A function other than the entry function, named `name`, whose text does not parse alone.
pub open spec fn fails_alone(item: SourceItem, name: Seq<char>) -> bool {
    match item {
        SourceItem::Fn { name: n, text } => n@ == name && name != entry_name() && !parses_as_fn(text@),
        _ => false,
    }
}

/// Some function of `items` other than the entry function does not parse alone.
pub open spec fn some_fails(items: Seq<SourceItem>) -> bool {
    exists|i: int, n: Seq<char>| 0 <= i < items.len() && #[trigger] fails_alone(items[i], n)
}

/// Sorts items into imports, functions, the entry function and other items.
fn ingest(items: &Vec<SourceItem>) -> (r: Result<Unit, SplitError>)
    ensures
        match r {
            Ok(u) => u.wf() && u@ == ingested(items@) && !some_fails(items@),
            Err(e) => e matches SplitError::FunctionUnparsable(n) && exists|i: int|
                0 <= i < items.len() && #[trigger] fails_alone(items@[i], n@),
        },
{
    let mut unit = Unit::new();
    proof {
        assert(items@.take(0).len() == 0);
        assert(unit@.imports =~= empty_unit().imports);
        assert(unit@.functions =~= empty_unit().functions);
        assert(unit@.others =~= empty_unit().others);
        assert(unit@ == ingested(items@.take(0)));
    }
    let mut i: usize = 0;
    while i < items.len()
        invariant
            i <= items.len(),
            unit.wf(),
            unit@ == ingested(items@.take(i as int)),
            forall|k: int, n: Seq<char>| 0 <= k < i ==> !#[trigger] fails_alone(items@[k], n),
        decreases items.len() - i,
    {
        let ghost before = unit@;
        proof {
            assert(items@.take(i + 1).drop_last() =~= items@.take(i as int));
        }
        match &items[i] {
            SourceItem::Use { text, tree } => {
                let names = introduced_names(tree);
                unit.imports.push(ImportStmt { text: text.clone(), names });
                proof {
                    assert(unit@.imports =~= before.imports.push(
                        ImportView { text: text@, names: introduced(*tree) },
                    ));
                }
            },
            SourceItem::Fn { name, text } => {
                proof {
                    reveal_strlit("main");
                }
                if str_eq(name.as_str(), "main") {
                    unit.entry = Some(text.clone());
                } else {
                    let heads = match function_heads(text.as_str()) {
                        Ok(h) => h,
                        Err(_) => {
                            let n = name.clone();
                            proof {
                                assert(name@ != entry_name());
                                assert(fails_alone(items@[i as int], n@));
                            }
                            let r = Err(SplitError::FunctionUnparsable(n));
                            proof {
                                assert(r matches Err(SplitError::FunctionUnparsable(m)) && m@ == n@);
                            }
                            return r;
                        },
                    };
                    unit.add_function(FunctionUnit { name: name.clone(), text: text.clone(), heads });
                }
            },
            SourceItem::Other { text } => {
                unit.others.push(text.clone());
                proof {
                    assert(unit@.others =~= before.others.push(text@));
                }
            },
        }
        proof {
            assert(unit@ == with_item(before, items@[i as int]));
            assert forall|k: int, n: Seq<char>| 0 <= k < i + 1 implies !#[trigger] fails_alone(
                items@[k],
                n,
            ) by {
                if k == i {
                    if fails_alone(items@[k], n) {
                        assert(false);
                    }
                }
            }
        }
        i = i + 1;
    }
    proof {
        assert(items@.take(i as int) =~= items@);
    }
    Ok(unit)
}

/// Splits a source file's text into module files grouped by the imports their
/// functions use, and a reassembled entry file.
pub fn split_source(text: &str) -> (r: Result<SplitOutput, SplitError>)
    ensures
        (r matches Err(SplitError::Unparsable)) == !parses_as_file(text@),
        parses_as_file(text@) && !some_fails(items_of(text@)) ==> r is Ok,
        r matches Err(SplitError::FunctionUnparsable(n)) ==> exists|i: int|
            0 <= i < items_of(text@).len() && #[trigger] fails_alone(items_of(text@)[i], n@),
        r matches Ok(out) ==> out.modules@.map_values(|m: ModuleArtifact| m@) == modules(
            unit_of(text@),
        ) && out.entry_file@ == entry_text(unit_of(text@)),
{
    let items = match parse_items(text) {
        Ok(items) => items,
        Err(_) => {
            return Err(SplitError::Unparsable);
        },
    };
    let unit = match ingest(&items) {
        Ok(u) => u,
        Err(e) => {
            return Err(e);
        },
    };
    Ok(split_unit(&unit))
}

} // verus!
