use vstd::prelude::*;

verus! {

/// An import statement: its text and the names it makes visible.
pub struct ImportStmt {
    pub text: String,
    pub names: Vec<String>,
}

/// A named top-level function other than the entry function.
pub struct FunctionUnit {
    pub name: String,
    pub text: String,
    /// The leading segment of every path expression in the body, in walk order.
    pub heads: Vec<String>,
}

/// One compilation unit, sorted into its four buckets.
pub struct Unit {
    pub imports: Vec<ImportStmt>,
    pub functions: Vec<FunctionUnit>,
    pub entry: Option<String>,
    pub others: Vec<String>,
}

pub struct ImportView {
    pub text: Seq<char>,
    pub names: Seq<Seq<char>>,
}

pub struct FunctionView {
    pub name: Seq<char>,
    pub text: Seq<char>,
    pub heads: Seq<Seq<char>>,
}

pub struct UnitView {
    pub imports: Seq<ImportView>,
    pub functions: Seq<FunctionView>,
    pub entry: Option<Seq<char>>,
    pub others: Seq<Seq<char>>,
}

impl View for ImportStmt {
    type V = ImportView;

    open spec fn view(&self) -> ImportView {
        ImportView { text: self.text@, names: self.names.deep_view() }
    }
}

impl View for FunctionUnit {
    type V = FunctionView;

    open spec fn view(&self) -> FunctionView {
        FunctionView { name: self.name@, text: self.text@, heads: self.heads.deep_view() }
    }
}

impl View for Unit {
    type V = UnitView;

    open spec fn view(&self) -> UnitView {
        UnitView {
            imports: self.imports@.map_values(|i: ImportStmt| i@),
            functions: self.functions@.map_values(|f: FunctionUnit| f@),
            entry: match self.entry {
                Some(e) => Some(e@),
                None => None,
            },
            others: self.others.deep_view(),
        }
    }
}

/// Function names are unique within a unit.
pub open spec fn names_unique(fs: Seq<FunctionView>) -> bool {
    forall|a: int, b: int|
        0 <= a < b < fs.len() ==> #[trigger] fs[a].name != #[trigger] fs[b].name
}

/// The position of the first function named `name`, if any.
pub open spec fn name_index(fs: Seq<FunctionView>, name: Seq<char>) -> Option<int>
    decreases fs.len(),
{
    if fs.len() == 0 {
        None
    } else {
        match name_index(fs.drop_last(), name) {
            Some(k) => Some(k),
            None => if fs.last().name == name {
                Some(fs.len() - 1)
            } else {
                None
            },
        }
    }
}

/// `fs` with `f` recorded: in place of the function of the same name, or at the end.
pub open spec fn place(fs: Seq<FunctionView>, f: FunctionView) -> Seq<FunctionView> {
    match name_index(fs, f.name) {
        Some(k) => fs.update(k, f),
        None => fs.push(f),
    }
}

proof fn lemma_name_index_prefix(fs: Seq<FunctionView>, j: int, name: Seq<char>)
    requires
        0 <= j <= fs.len(),
        name_index(fs.take(j), name) is Some,
    ensures
        name_index(fs, name) == name_index(fs.take(j), name),
    decreases fs.len(),
{
    if j == fs.len() {
        assert(fs.take(j) =~= fs);
    } else {
        assert(fs.drop_last().take(j) =~= fs.take(j));
        lemma_name_index_prefix(fs.drop_last(), j, name);
    }
}

impl Unit {
    pub open spec fn wf(&self) -> bool {
        names_unique(self@.functions)
    }

    /// An empty unit.
    pub fn new() -> (r: Unit)
        ensures
            r.wf(),
            r@.imports.len() == 0,
            r@.functions.len() == 0,
            r@.entry is None,
            r@.others.len() == 0,
    {
        Unit { imports: Vec::new(), functions: Vec::new(), entry: None, others: Vec::new() }
    }

    /// Records a function; one of the same name recorded earlier is replaced in place.
    pub fn add_function(&mut self, f: FunctionUnit)
        requires
            old(self).wf(),
        ensures
            final(self).wf(),
            final(self)@.imports == old(self)@.imports,
            final(self)@.entry == old(self)@.entry,
            final(self)@.others == old(self)@.others,
            final(self)@.functions == place(old(self)@.functions, f@),
    {
        let ghost fs = self@.functions;
        let n = self.functions.len();
        let mut i: usize = 0;
        while i < n
            invariant
                n == self.functions.len(),
                i <= n,
                self@ == old(self)@,
                fs == old(self)@.functions,
                names_unique(fs),
                name_index(fs.take(i as int), f@.name) is None,
                forall|k: int| 0 <= k < i ==> #[trigger] fs[k].name != f@.name,
            decreases n - i,
        {
            proof {
                assert(fs.take(i + 1).drop_last() =~= fs.take(i as int));
            }
            if self.functions[i].name == f.name {
                let ghost fv = f@;
                self.functions.set(i, f);
                proof {
                    assert(fs[i as int].name == fv.name);
                    lemma_name_index_prefix(fs, i + 1, fv.name);
                    assert(self@.functions =~= fs.update(i as int, fv));
                    assert forall|a: int, b: int|
                        0 <= a < b < self@.functions.len() implies #[trigger] self@.functions[a].name
                        != #[trigger] self@.functions[b].name by {
                        if a != i && b != i {
                            assert(fs[a].name != fs[b].name);
                        } else if a == i {
                            assert(fs[i as int].name != fs[b].name);
                        } else {
                            assert(fs[a].name != fs[i as int].name);
                        }
                    }
                }
                return;
            }
            i = i + 1;
        }
        let ghost fv = f@;
        self.functions.push(f);
        proof {
            assert(fs.take(n as int) =~= fs);
            assert(self@.functions =~= fs.push(fv));
        }
    }
}

} // verus!
