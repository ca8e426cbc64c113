use vstd::prelude::*;
use crate::unit::{ImportStmt, ImportView};

verus! {

/// The import statement that the table maps `name` to: the last one that introduces it.
pub open spec fn resolve(imports: Seq<ImportView>, name: Seq<char>) -> Option<int>
    decreases imports.len(),
{
    if imports.len() == 0 {
        None
    } else if imports.last().names.contains(name) {
        Some(imports.len() - 1)
    } else {
        resolve(imports.drop_last(), name)
    }
}

/// The usage set of a body whose path expressions lead with `heads`.
pub open spec fn uses(imports: Seq<ImportView>, heads: Seq<Seq<char>>) -> Set<Seq<char>> {
    heads.to_set().filter(|h: Seq<char>| resolve(imports, h) is Some)
}

/// Whether `v` holds a string equal to `s`.
pub fn contains_str(v: &Vec<String>, s: &String) -> (r: bool)
    ensures
        r == v.deep_view().contains(s@),
{
    let mut i: usize = 0;
    while i < v.len()
        invariant
            i <= v.len(),
            forall|k: int| 0 <= k < i ==> v.deep_view()[k] != s@,
        decreases v.len() - i,
    {
        if v[i] == *s {
            proof {
                assert(v.deep_view()[i as int] == s@);
            }
            return true;
        }
        i = i + 1;
    }
    false
}

/// The index of the import statement that `name` resolves to, if any.
pub fn lookup(imports: &Vec<ImportStmt>, name: &String) -> (r: Option<usize>)
    ensures
        match r {
            Some(i) => resolve(imports@.map_values(|s: ImportStmt| s@), name@) == Some(i as int),
            None => resolve(imports@.map_values(|s: ImportStmt| s@), name@) is None,
        },
{
    let ghost all = imports@.map_values(|s: ImportStmt| s@);
    let mut found: Option<usize> = None;
    let mut i: usize = 0;
    while i < imports.len()
        invariant
            i <= imports.len(),
            all == imports@.map_values(|s: ImportStmt| s@),
            match found {
                Some(k) => resolve(all.take(i as int), name@) == Some(k as int),
                None => resolve(all.take(i as int), name@) is None,
            },
        decreases imports.len() - i,
    {
        if contains_str(&imports[i].names, name) {
            found = Some(i);
        }
        proof {
            assert(all.take(i + 1).drop_last() =~= all.take(i as int));
            assert(all.take(i + 1).last() == imports[i as int]@);
        }
        i = i + 1;
    }
    proof {
        assert(all.take(i as int) =~= all);
    }
    found
}

/// The usage set of a function body: each leading segment that the table resolves,
/// once, in order of first reference.
pub fn usage_set(imports: &Vec<ImportStmt>, heads: &Vec<String>) -> (r: Vec<String>)
    ensures
        r.deep_view().no_duplicates(),
        r.deep_view().to_set() == uses(imports@.map_values(|s: ImportStmt| s@), heads.deep_view()),
{
    let ghost all = imports@.map_values(|s: ImportStmt| s@);
    let mut out: Vec<String> = Vec::new();
    let mut i: usize = 0;
    while i < heads.len()
        invariant
            i <= heads.len(),
            all == imports@.map_values(|s: ImportStmt| s@),
            out.deep_view().no_duplicates(),
            out.deep_view().to_set() == uses(all, heads.deep_view().take(i as int)),
        decreases heads.len() - i,
    {
        let ghost before = out.deep_view();
        let h = &heads[i];
        let known = lookup(imports, h).is_some();
        let seen = contains_str(&out, h);
        if known && !seen {
            out.push(h.clone());
            proof {
                assert(out.deep_view() =~= before.push(h@));
                before.lemma_push_to_set_commute(h@);
            }
        }
        proof {
            let hs = heads.deep_view();
            assert(hs.take(i + 1) =~= hs.take(i as int).push(h@));
            hs.take(i as int).lemma_push_to_set_commute(h@);
            assert(known == (resolve(all, h@) is Some));
            assert(out.deep_view().to_set() =~= uses(all, hs.take(i + 1)));
        }
        i = i + 1;
    }
    proof {
        assert(heads.deep_view().take(i as int) =~= heads.deep_view());
    }
    out
}

/// Whether two duplicate-free name lists hold the same set of names.
pub fn same_set(a: &Vec<String>, b: &Vec<String>) -> (r: bool)
    ensures
        r == (a.deep_view().to_set() == b.deep_view().to_set()),
{
    let mut i: usize = 0;
    while i < a.len()
        invariant
            i <= a.len(),
            forall|k: int| 0 <= k < i ==> b.deep_view().contains(#[trigger] a.deep_view()[k]),
        decreases a.len() - i,
    {
        if !contains_str(b, &a[i]) {
            proof {
                assert(a.deep_view().to_set().contains(a.deep_view()[i as int]));
                assert(!b.deep_view().to_set().contains(a.deep_view()[i as int]));
            }
            return false;
        }
        i = i + 1;
    }
    let mut j: usize = 0;
    while j < b.len()
        invariant
            j <= b.len(),
            forall|k: int| 0 <= k < a.len() ==> b.deep_view().contains(#[trigger] a.deep_view()[k]),
            forall|k: int| 0 <= k < j ==> a.deep_view().contains(#[trigger] b.deep_view()[k]),
        decreases b.len() - j,
    {
        if !contains_str(a, &b[j]) {
            proof {
                assert(b.deep_view().to_set().contains(b.deep_view()[j as int]));
                assert(!a.deep_view().to_set().contains(b.deep_view()[j as int]));
            }
            return false;
        }
        j = j + 1;
    }
    proof {
        assert(a.deep_view().to_set() =~= b.deep_view().to_set());
    }
    true
}

} // verus!
