use vstd::prelude::*;
use crate::table::{resolve, uses, lookup, usage_set, same_set};
use crate::text::{joined, push_joined, sanitize_filename, ident_char, decimal, push_decimal};
use crate::unit::{ImportStmt, Unit, UnitView};

verus! {

/// The indices below `n` that satisfy `p`, ascending.
pub open spec fn indices_where(n: int, p: spec_fn(int) -> bool) -> Seq<int>
    decreases n,
{
    if n <= 0 {
        Seq::empty()
    } else {
        let s = indices_where(n - 1, p);
        if p(n - 1) {
            s.push(n - 1)
        } else {
            s
        }
    }
}

pub proof fn lemma_indices_where(n: int, p: spec_fn(int) -> bool)
    requires
        n >= 0,
    ensures
        indices_where(n, p).len() <= n,
        forall|i: int| #[trigger] indices_where(n, p).contains(i) <==> 0 <= i < n && p(i),
        forall|k: int|
            0 <= k < indices_where(n, p).len() ==> 0 <= #[trigger] indices_where(n, p)[k] < n
                && p(indices_where(n, p)[k]),
        forall|a: int, b: int|
            0 <= a < b < indices_where(n, p).len() ==> #[trigger] indices_where(n, p)[a]
                < #[trigger] indices_where(n, p)[b],
    decreases n,
{
    if n > 0 {
        lemma_indices_where(n - 1, p);
        let s = indices_where(n - 1, p);
        if p(n - 1) {
            assert forall|i: int| #[trigger] s.push(n - 1).contains(i) <==> 0 <= i < n && p(i) by {
                if i == n - 1 {
                    assert(s.push(n - 1)[s.len() as int] == i);
                } else if s.push(n - 1).contains(i) {
                    let k = choose|k: int| 0 <= k < s.len() + 1 && #[trigger] s.push(n - 1)[k] == i;
                    assert(k < s.len());
                    assert(s.contains(i));
                } else if 0 <= i < n - 1 && p(i) {
                    assert(s.contains(i));
                    let k = choose|k: int| 0 <= k < s.len() && #[trigger] s[k] == i;
                    assert(s.push(n - 1)[k] == i);
                }
            }
        }
    }
}

/// The usage set of every function of `u`, in order.
pub open spec fn usages(u: UnitView) -> Seq<Set<Seq<char>>> {
    u.functions.map_values(|f: crate::unit::FunctionView| uses(u.imports, f.heads))
}

/// No earlier function has the same usage set as function `f`.
pub open spec fn is_first(us: Seq<Set<Seq<char>>>, f: int) -> bool {
    forall|j: int| 0 <= j < f ==> us[j] != us[f]
}

/// For each group, in order of appearance, the first function that has its usage set.
pub open spec fn first_pred(us: Seq<Set<Seq<char>>>) -> spec_fn(int) -> bool {
    |f: int| is_first(us, f)
}

pub open spec fn firsts(us: Seq<Set<Seq<char>>>) -> Seq<int> {
    indices_where(us.len() as int, first_pred(us))
}

/// Some function references an import, so groups get files of their own.
pub open spec fn extracted(us: Seq<Set<Seq<char>>>) -> bool {
    exists|f: int| 0 <= f < us.len() && us[f] != Set::<Seq<char>>::empty()
}

/// How many of the groups before group `g` have a non-empty usage set.
pub open spec fn keyed_before(us: Seq<Set<Seq<char>>>, g: int) -> nat
    decreases g,
{
    if g <= 0 {
        0
    } else if us[firsts(us)[g - 1]] != Set::<Seq<char>>::empty() {
        keyed_before(us, g - 1) + 1
    } else {
        keyed_before(us, g - 1)
    }
}

/// The key of group `g`: `general` for the empty usage set, else a sequential number.
pub open spec fn group_key(us: Seq<Set<Seq<char>>>, g: int) -> Seq<char> {
    if us[firsts(us)[g]] == Set::<Seq<char>>::empty() {
        "general"@
    } else {
        "group_"@ + decimal(keyed_before(us, g) + 1)
    }
}

pub open spec fn module_name(us: Seq<Set<Seq<char>>>, g: int) -> Seq<char> {
    group_key(us, g).filter(|c: char| ident_char(c)) + "_mod"@
}

/// The import statements that some name of `set` resolves to, in source order.
pub open spec fn relevant(u: UnitView, set: Set<Seq<char>>) -> Seq<int> {
    indices_where(u.imports.len() as int, relevant_pred(u, set))
}

pub open spec fn relevant_pred(u: UnitView, set: Set<Seq<char>>) -> spec_fn(int) -> bool {
    |i: int| exists|x: Seq<char>| set.contains(x) && resolve(u.imports, x) == Some(i)
}

/// The functions whose usage set is `set`, in source order.
pub open spec fn members(us: Seq<Set<Seq<char>>>, set: Set<Seq<char>>) -> Seq<int> {
    indices_where(us.len() as int, member_pred(us, set))
}

pub open spec fn member_pred(us: Seq<Set<Seq<char>>>, set: Set<Seq<char>>) -> spec_fn(int) -> bool {
    |f: int| us[f] == set
}

pub open spec fn module_body(u: UnitView, g: int) -> Seq<char> {
    let us = usages(u);
    let set = us[firsts(us)[g]];
    "use crate::*;\n\n"@ + joined(relevant(u, set).map_values(|i: int| u.imports[i].text), "\n"@)
        + "\n"@ + joined(members(us, set).map_values(|f: int| u.functions[f].text), "\n\n"@)
}

/// A generated module file.
pub struct ModuleArtifact {
    pub file_name: String,
    pub declaration: String,
    pub reexport: String,
    pub body: String,
}

pub struct ModuleView {
    pub file_name: Seq<char>,
    pub declaration: Seq<char>,
    pub reexport: Seq<char>,
    pub body: Seq<char>,
}

impl View for ModuleArtifact {
    type V = ModuleView;

    open spec fn view(&self) -> ModuleView {
        ModuleView {
            file_name: self.file_name@,
            declaration: self.declaration@,
            reexport: self.reexport@,
            body: self.body@,
        }
    }
}

pub open spec fn module_view(u: UnitView, g: int) -> ModuleView {
    let m = module_name(usages(u), g);
    ModuleView {
        file_name: m + ".rs"@,
        declaration: "pub mod "@ + m + ";"@,
        reexport: "pub use "@ + m + "::*;"@,
        body: module_body(u, g),
    }
}

/// The module files of `u`, one per group, unless no function references an import.
pub open spec fn modules(u: UnitView) -> Seq<ModuleView> {
    let us = usages(u);
    if extracted(us) {
        Seq::new(firsts(us).len(), |g: int| module_view(u, g))
    } else {
        Seq::empty()
    }
}

/// The functions that stay in the entry file.
pub open spec fn inline_functions(u: UnitView) -> Seq<int> {
    if extracted(usages(u)) {
        Seq::empty()
    } else {
        indices_where(u.functions.len() as int, any_index())
    }
}

pub open spec fn any_index() -> spec_fn(int) -> bool {
    |f: int| true
}

/// The entry file's parts, each followed by a blank line, in their fixed order.
pub open spec fn entry_parts(u: UnitView) -> Seq<Seq<char>> {
    let ms = modules(u);
    u.imports.map_values(|i: crate::unit::ImportView| i.text) + u.others + ms.map_values(
        |m: ModuleView| m.declaration,
    ) + ms.map_values(|m: ModuleView| m.reexport) + inline_functions(u).map_values(
        |f: int| u.functions[f].text,
    ) + match u.entry {
        Some(e) => seq![e],
        None => Seq::empty(),
    }
}

pub open spec fn entry_text(u: UnitView) -> Seq<char> {
    joined(entry_parts(u), "\n\n"@)
}


fn classify_all(u: &Unit) -> (r: Vec<Vec<String>>)
    ensures
        lists_hold(r@, usages(u@)),
{
    let mut r: Vec<Vec<String>> = Vec::new();
    let mut f: usize = 0;
    while f < u.functions.len()
        invariant
            f <= u.functions.len(),
            r.len() == f,
            forall|k: int| 0 <= k < f ==> (#[trigger] r@[k]).deep_view().to_set() == usages(u@)[k],
        decreases u.functions.len() - f,
    {
        let s = usage_set(&u.imports, &u.functions[f].heads);
        r.push(s);
        f = f + 1;
    }
    r
}

pub open spec fn as_ints(v: Seq<usize>) -> Seq<int> {
    v.map_values(|x: usize| x as int)
}

/// Each list of `usets` holds the set of the same position of `us`.
pub open spec fn lists_hold(usets: Seq<Vec<String>>, us: Seq<Set<Seq<char>>>) -> bool {
    &&& usets.len() == us.len()
    &&& forall|f: int| 0 <= f < usets.len() ==> (#[trigger] usets[f]).deep_view().to_set() == us[f]
}

/// Some position listed in `reps` has the usage set of function `j`.
pub open spec fn represented(us: Seq<Set<Seq<char>>>, reps: Seq<usize>, j: int) -> bool {
    exists|g: int| 0 <= g < reps.len() && us[reps[g] as int] == us[j]
}

/// The position in `reps` of a function whose usage set equals that of function `f`.
fn find_group(Ghost(us): Ghost<Seq<Set<Seq<char>>>>, usets: &Vec<Vec<String>>, reps: &Vec<usize>, f: usize) -> (r:
    Option<usize>)
    requires
        lists_hold(usets@, us),
        f < usets.len(),
        forall|k: int| 0 <= k < reps.len() ==> #[trigger] reps@[k] < usets.len(),
    ensures
        match r {
            Some(g) => g < reps.len() && us[reps@[g as int] as int] == us[f as int],
            None => forall|k: int| 0 <= k < reps.len() ==> us[#[trigger] reps@[k] as int] != us[f as int],
        },
{
    let mut g: usize = 0;
    while g < reps.len()
        invariant
            lists_hold(usets@, us),
            f < usets.len(),
            forall|k: int| 0 <= k < reps.len() ==> #[trigger] reps@[k] < usets.len(),
            g <= reps.len(),
            forall|k: int| 0 <= k < g ==> us[#[trigger] reps@[k] as int] != us[f as int],
        decreases reps.len() - g,
    {
        if same_set(&usets[reps[g]], &usets[f]) {
            return Some(g);
        }
        g = g + 1;
    }
    None
}

proof fn lemma_first_step(us: Seq<Set<Seq<char>>>, reps: Seq<usize>, f: int, found: Option<usize>)
    requires
        0 <= f < us.len(),
        forall|j: int| 0 <= j < f ==> #[trigger] represented(us, reps, j),
        match found {
            Some(g) => g < reps.len() && us[reps[g as int] as int] == us[f],
            None => forall|k: int| 0 <= k < reps.len() ==> us[#[trigger] reps[k] as int] != us[f],
        },
        forall|k: int| 0 <= k < reps.len() ==> #[trigger] reps[k] < f,
    ensures
        is_first(us, f) == (found is None),
{
    match found {
        Some(g) => {
            assert(!is_first(us, f));
        },
        None => {
            assert forall|j: int| 0 <= j < f implies us[j] != us[f] by {
                assert(represented(us, reps, j));
                let k = choose|k: int| 0 <= k < reps.len() && us[reps[k] as int] == us[j];
                assert(us[reps[k] as int] != us[f]);
            }
        },
    }
}

fn find_firsts(Ghost(us): Ghost<Seq<Set<Seq<char>>>>, usets: &Vec<Vec<String>>) -> (r: Vec<usize>)
    requires
        lists_hold(usets@, us),
    ensures
        as_ints(r@) == firsts(us),
{
    let n = usets.len();
    let mut r: Vec<usize> = Vec::new();
    let mut f: usize = 0;
    while f < n
        invariant
            n == usets.len() == us.len(),
            lists_hold(usets@, us),
            f <= n,
            as_ints(r@) == indices_where(f as int, first_pred(us)),
            forall|j: int| 0 <= j < f ==> #[trigger] represented(us, r@, j),
        decreases n - f,
    {
        proof {
            lemma_indices_where(f as int, first_pred(us));
            assert forall|k: int| 0 <= k < r.len() implies #[trigger] r@[k] < f by {
                assert(as_ints(r@)[k] == r@[k] as int);
            }
        }
        let found = find_group(Ghost(us), usets, &r, f);
        proof {
            lemma_first_step(us, r@, f as int, found);
        }
        let ghost before = r@;
        if found.is_none() {
            r.push(f);
            proof {
                assert(as_ints(r@) =~= as_ints(before).push(f as int));
            }
        }
        proof {
            assert forall|j: int| 0 <= j < f + 1 implies #[trigger] represented(us, r@, j) by {
                if j < f {
                    assert(represented(us, before, j));
                    let k = choose|k: int| 0 <= k < before.len() && us[before[k] as int] == us[j];
                    assert(r@[k] == before[k]);
                } else if found.is_none() {
                    assert(r@[before.len() as int] == f);
                } else {
                    let g = found.unwrap();
                    assert(us[r@[g as int] as int] == us[j]);
                }
            }
        }
        f = f + 1;
    }
    r
}

/// Whether some name of `names` resolves to import statement `i`.
fn resolves_to(u: &Unit, names: &Vec<String>, i: usize) -> (r: bool)
    ensures
        r == relevant_pred(u@, names.deep_view().to_set())(i as int),
{
    let ghost set = names.deep_view().to_set();
    let mut k: usize = 0;
    while k < names.len()
        invariant
            set == names.deep_view().to_set(),
            k <= names.len(),
            forall|j: int|
                0 <= j < k ==> resolve(u@.imports, #[trigger] names.deep_view()[j]) != Some(i as int),
        decreases names.len() - k,
    {
        let hit = lookup(&u.imports, &names[k]);
        proof {
            assert(u@.imports == u.imports@.map_values(|s: ImportStmt| s@));
        }
        if hit == Some(i) {
            proof {
                assert(set.contains(names.deep_view()[k as int]));
            }
            return true;
        }
        k = k + 1;
    }
    proof {
        assert forall|x: Seq<char>| set.contains(x) implies resolve(u@.imports, x) != Some(i as int) by {
            let j = choose|j: int| 0 <= j < names.len() && names.deep_view()[j] == x;
        }
    }
    false
}

/// The texts of the import statements that the names of `names` resolve to.
fn relevant_texts(u: &Unit, names: &Vec<String>) -> (r: Vec<String>)
    ensures
        r.deep_view() == relevant(u@, names.deep_view().to_set()).map_values(
            |i: int| u@.imports[i].text,
        ),
{
    let ghost p = relevant_pred(u@, names.deep_view().to_set());
    let mut r: Vec<String> = Vec::new();
    let mut i: usize = 0;
    while i < u.imports.len()
        invariant
            p == relevant_pred(u@, names.deep_view().to_set()),
            i <= u.imports.len(),
            r.deep_view() == indices_where(i as int, p).map_values(|k: int| u@.imports[k].text),
        decreases u.imports.len() - i,
    {
        let ghost before = r.deep_view();
        if resolves_to(u, names, i) {
            r.push(u.imports[i].text.clone());
            proof {
                assert(r.deep_view() =~= before.push(u@.imports[i as int].text));
                assert(indices_where(i + 1, p).map_values(|k: int| u@.imports[k].text) =~= before.push(
                    u@.imports[i as int].text,
                ));
            }
        }
        i = i + 1;
    }
    r
}

/// The texts of the functions whose usage set is that of function `rep`.
fn member_texts(u: &Unit, usets: &Vec<Vec<String>>, rep: usize) -> (r: Vec<String>)
    requires
        lists_hold(usets@, usages(u@)),
        rep < usets.len(),
    ensures
        r.deep_view() == members(usages(u@), usages(u@)[rep as int]).map_values(
            |f: int| u@.functions[f].text,
        ),
{
    let ghost us = usages(u@);
    let ghost p = member_pred(us, us[rep as int]);
    let mut r: Vec<String> = Vec::new();
    let mut f: usize = 0;
    while f < usets.len()
        invariant
            us == usages(u@),
            p == member_pred(us, us[rep as int]),
            lists_hold(usets@, us),
            rep < usets.len(),
            usets.len() == u.functions.len(),
            f <= usets.len(),
            r.deep_view() == indices_where(f as int, p).map_values(|k: int| u@.functions[k].text),
        decreases usets.len() - f,
    {
        let ghost before = r.deep_view();
        if same_set(&usets[f], &usets[rep]) {
            r.push(u.functions[f].text.clone());
            proof {
                assert(r.deep_view() =~= before.push(u@.functions[f as int].text));
                assert(indices_where(f + 1, p).map_values(|k: int| u@.functions[k].text) =~= before.push(
                    u@.functions[f as int].text,
                ));
            }
        }
        f = f + 1;
    }
    r
}

pub proof fn lemma_keyed_before_bound(us: Seq<Set<Seq<char>>>, g: int)
    requires
        0 <= g <= firsts(us).len(),
    ensures
        keyed_before(us, g) <= g,
    decreases g,
{
    if g > 0 {
        lemma_keyed_before_bound(us, g - 1);
    }
}

proof fn lemma_empty_list(v: Seq<Seq<char>>)
    ensures
        (v.len() == 0) == (v.to_set() == Set::<Seq<char>>::empty()),
{
    if v.len() == 0 {
        assert(v.to_set() =~= Set::<Seq<char>>::empty());
    } else {
        assert(v.to_set().contains(v[0]));
    }
}

/// The module file of group `g`, whose first function is `rep`; `count` groups
/// before it have a non-empty usage set.
fn build_module(u: &Unit, usets: &Vec<Vec<String>>, Ghost(g): Ghost<int>, rep: usize, count: usize) -> (r:
    ModuleArtifact)
    requires
        lists_hold(usets@, usages(u@)),
        0 <= g < firsts(usages(u@)).len(),
        firsts(usages(u@))[g] == rep as int,
        count == keyed_before(usages(u@), g),
    ensures
        r@ == module_view(u@, g),
{
    let ghost us = usages(u@);
    proof {
        lemma_indices_where(us.len() as int, first_pred(us));
        lemma_keyed_before_bound(us, g);
        lemma_empty_list(usets@[rep as int].deep_view());
        assert(count < usets.len());
    }
    let mut key = String::new();
    if usets[rep].len() == 0 {
        key.append("general");
    } else {
        key.append("group_");
        push_decimal(&mut key, count + 1);
    }
    let mut name = sanitize_filename(key.as_str());
    name.append("_mod");
    let mut file_name = name.clone();
    file_name.append(".rs");
    let mut declaration = String::new();
    declaration.append("pub mod ");
    declaration.append(name.as_str());
    declaration.append(";");
    let mut reexport = String::new();
    reexport.append("pub use ");
    reexport.append(name.as_str());
    reexport.append("::*;");
    let mut body = String::new();
    body.append("use crate::*;\n\n");
    push_joined(&mut body, &relevant_texts(u, &usets[rep]), "\n");
    body.append("\n");
    push_joined(&mut body, &member_texts(u, usets, rep), "\n\n");
    ModuleArtifact { file_name, declaration, reexport, body }
}

/// What splitting a unit produces: the module files and the reassembled entry file.
pub struct SplitOutput {
    pub modules: Vec<ModuleArtifact>,
    pub entry_file: String,
}

fn any_nonempty(Ghost(us): Ghost<Seq<Set<Seq<char>>>>, usets: &Vec<Vec<String>>) -> (r: bool)
    requires
        lists_hold(usets@, us),
    ensures
        r == extracted(us),
{
    let mut f: usize = 0;
    while f < usets.len()
        invariant
            lists_hold(usets@, us),
            f <= usets.len(),
            forall|k: int| 0 <= k < f ==> us[k] == Set::<Seq<char>>::empty(),
        decreases usets.len() - f,
    {
        proof {
            lemma_empty_list(usets@[f as int].deep_view());
        }
        if usets[f].len() > 0 {
            return true;
        }
        f = f + 1;
    }
    false
}

fn push_all(dst: &mut Vec<String>, src: &Vec<String>)
    ensures
        final(dst).deep_view() == old(dst).deep_view() + src.deep_view(),
{
    let ghost start = dst.deep_view();
    let mut i: usize = 0;
    while i < src.len()
        invariant
            i <= src.len(),
            dst.deep_view() == start + src.deep_view().take(i as int),
        decreases src.len() - i,
    {
        let ghost before = dst.deep_view();
        dst.push(src[i].clone());
        proof {
            assert(dst.deep_view() =~= before.push(src[i as int]@));
            assert(src.deep_view().take(i + 1) =~= src.deep_view().take(i as int).push(src[i as int]@));
            assert(dst.deep_view() =~= start + src.deep_view().take(i + 1));
        }
        i = i + 1;
    }
    proof {
        assert(src.deep_view().take(i as int) =~= src.deep_view());
    }
}

/// Splits a unit into one module file per group and a reassembled entry file.
pub fn split_unit(u: &Unit) -> (r: SplitOutput)
    ensures
        r.modules@.map_values(|m: ModuleArtifact| m@) == modules(u@),
        r.entry_file@ == entry_text(u@),
{
    let ghost us = usages(u@);
    let usets = classify_all(u);
    let reps = find_firsts(Ghost(us), &usets);
    let extract = any_nonempty(Ghost(us), &usets);
    proof {
        lemma_indices_where(us.len() as int, first_pred(us));
    }
    let mut mods: Vec<ModuleArtifact> = Vec::new();
    if extract {
        let mut count: usize = 0;
        let mut g: usize = 0;
        while g < reps.len()
            invariant
                us == usages(u@),
                lists_hold(usets@, us),
                as_ints(reps@) == firsts(us),
                extracted(us),
                g <= reps.len(),
                count == keyed_before(us, g as int),
                mods@.map_values(|m: ModuleArtifact| m@) == modules(u@).take(g as int),
            decreases reps.len() - g,
        {
            proof {
                lemma_indices_where(us.len() as int, first_pred(us));
                assert(as_ints(reps@)[g as int] == reps@[g as int] as int);
            }
            let m = build_module(u, &usets, Ghost(g as int), reps[g], count);
            proof {
                lemma_empty_list(usets@[reps@[g as int] as int].deep_view());
                lemma_keyed_before_bound(us, g as int);
            }
            if usets[reps[g]].len() > 0 {
                count = count + 1;
            }
            let ghost before = mods@.map_values(|m: ModuleArtifact| m@);
            let ghost mv = m@;
            mods.push(m);
            proof {
                assert(mods@.map_values(|m: ModuleArtifact| m@) =~= before.push(mv));
                assert(modules(u@).take(g + 1) =~= modules(u@).take(g as int).push(modules(u@)[g as int]));
                assert(mods@.map_values(|m: ModuleArtifact| m@) =~= modules(u@).take(g + 1));
            }
            g = g + 1;
        }
        proof {
            assert(modules(u@).take(g as int) =~= modules(u@));
        }
    } else {
        proof {
            assert(mods@.map_values(|m: ModuleArtifact| m@) =~= modules(u@));
        }
    }
    let mut parts: Vec<String> = Vec::new();
    let mut i: usize = 0;
    while i < u.imports.len()
        invariant
            i <= u.imports.len(),
            parts.deep_view() == u@.imports.take(i as int).map_values(
                |s: crate::unit::ImportView| s.text,
            ),
        decreases u.imports.len() - i,
    {
        let ghost before = parts.deep_view();
        parts.push(u.imports[i].text.clone());
        proof {
            assert(parts.deep_view() =~= before.push(u@.imports[i as int].text));
            assert(u@.imports.take(i + 1).map_values(|s: crate::unit::ImportView| s.text)
                =~= u@.imports.take(i as int).map_values(|s: crate::unit::ImportView| s.text).push(u@.imports[i as int].text));
            assert(parts.deep_view() =~= u@.imports.take(i + 1).map_values(
                |s: crate::unit::ImportView| s.text,
            ));
        }
        i = i + 1;
    }
    proof {
        assert(u@.imports.take(i as int) =~= u@.imports);
    }
    push_all(&mut parts, &u.others);
    let ghost ms = modules(u@);
    let ghost head = parts.deep_view();
    let mut k: usize = 0;
    while k < mods.len()
        invariant
            ms == modules(u@),
            mods@.map_values(|m: ModuleArtifact| m@) == ms,
            k <= mods.len(),
            parts.deep_view() == head + ms.take(k as int).map_values(|m: ModuleView| m.declaration),
        decreases mods.len() - k,
    {
        let ghost before = parts.deep_view();
        parts.push(mods[k].declaration.clone());
        proof {
            assert(mods@.map_values(|m: ModuleArtifact| m@)[k as int] == mods@[k as int]@);
            assert(parts.deep_view() =~= before.push(ms[k as int].declaration));
            assert(ms.take(k + 1).map_values(|m: ModuleView| m.declaration) =~= ms.take(k as int).map_values(|m: ModuleView| m.declaration).push(ms[k as int].declaration));
            assert(parts.deep_view() =~= head + ms.take(k + 1).map_values(|m: ModuleView| m.declaration));
        }
        k = k + 1;
    }
    proof {
        assert(ms.take(k as int) =~= ms);
    }
    let ghost head = parts.deep_view();
    let mut k: usize = 0;
    while k < mods.len()
        invariant
            ms == modules(u@),
            mods@.map_values(|m: ModuleArtifact| m@) == ms,
            k <= mods.len(),
            parts.deep_view() == head + ms.take(k as int).map_values(|m: ModuleView| m.reexport),
        decreases mods.len() - k,
    {
        let ghost before = parts.deep_view();
        parts.push(mods[k].reexport.clone());
        proof {
            assert(mods@.map_values(|m: ModuleArtifact| m@)[k as int] == mods@[k as int]@);
            assert(parts.deep_view() =~= before.push(ms[k as int].reexport));
            assert(ms.take(k + 1).map_values(|m: ModuleView| m.reexport) =~= ms.take(k as int).map_values(|m: ModuleView| m.reexport).push(ms[k as int].reexport));
            assert(parts.deep_view() =~= head + ms.take(k + 1).map_values(|m: ModuleView| m.reexport));
        }
        k = k + 1;
    }
    proof {
        assert(ms.take(k as int) =~= ms);
    }
    let ghost head = parts.deep_view();
    if !extract {
        let mut f: usize = 0;
        while f < u.functions.len()
            invariant
                f <= u.functions.len(),
                parts.deep_view() == head + indices_where(f as int, any_index()).map_values(
                    |j: int| u@.functions[j].text,
                ),
            decreases u.functions.len() - f,
        {
            let ghost before = parts.deep_view();
            parts.push(u.functions[f].text.clone());
            proof {
                assert(parts.deep_view() =~= before.push(u@.functions[f as int].text));
                assert(indices_where(f + 1, any_index()).map_values(|j: int| u@.functions[j].text)
                    =~= indices_where(f as int, any_index()).map_values(|j: int| u@.functions[j].text).push(u@.functions[f as int].text));
                assert(parts.deep_view() =~= head + indices_where(f + 1, any_index()).map_values(
                    |j: int| u@.functions[j].text,
                ));
            }
            f = f + 1;
        }
    }
    match &u.entry {
        Some(e) => parts.push(e.clone()),
        None => {},
    }
    proof {
        assert(parts.deep_view() =~= entry_parts(u@));
    }
    let mut entry_file = String::new();
    push_joined(&mut entry_file, &parts, "\n\n");
    SplitOutput { modules: mods, entry_file }
}

} // verus!
