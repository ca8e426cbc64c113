use vstd::prelude::*;
use crate::plan::{
    lemma_indices_where, usages, is_first, first_pred, firsts, extracted, members,
    modules, inline_functions, any_index, entry_parts, entry_text, group_key, keyed_before,
};
use crate::table::resolve;
use crate::split::unit_of;
use crate::text::{joined, decimal, digit_char};
use crate::unit::{Unit, UnitView, ImportView};

verus! {

proof fn lemma_has_first(us: Seq<Set<Seq<char>>>, f: int)
    requires
        0 <= f < us.len(),
    ensures
        exists|j: int| 0 <= j <= f && is_first(us, j) && #[trigger] us[j] == us[f],
    decreases f,
{
    if !is_first(us, f) {
        let j = choose|j: int| 0 <= j < f && us[j] == us[f];
        lemma_has_first(us, j);
        let k = choose|k: int| 0 <= k <= j && is_first(us, k) && #[trigger] us[k] == us[j];
        assert(0 <= k <= f && is_first(us, k) && us[k] == us[f]);
    } else {
        assert(0 <= f <= f && is_first(us, f) && us[f] == us[f]);
    }
}

proof fn lemma_strictly_increasing_no_dups(s: Seq<int>)
    requires
        forall|a: int, b: int| 0 <= a < b < s.len() ==> #[trigger] s[a] < #[trigger] s[b],
    ensures
        s.no_duplicates(),
{
    assert forall|a: int, b: int| 0 <= a < s.len() && 0 <= b < s.len() && a != b implies s[a]
        != s[b] by {
        if a < b {
            assert(s[a] < s[b]);
        } else {
            assert(s[b] < s[a]);
        }
    }
}

/// Every function other than the entry function is placed exactly once: when the
/// unit is split, in the member list of exactly one module, once, and not inline;
/// otherwise inline in the entry file, once, with no module at all.
pub proof fn lemma_each_function_placed_once(u: UnitView, f: int)
    requires
        0 <= f < u.functions.len(),
    ensures
        extracted(usages(u)) ==> {
            &&& modules(u).len() == firsts(usages(u)).len()
            &&& exists|g: int|
                0 <= g < firsts(usages(u)).len() && #[trigger] members(
                    usages(u),
                    usages(u)[firsts(usages(u))[g]],
                ).contains(f)
            &&& forall|g1: int, g2: int|
                0 <= g1 < firsts(usages(u)).len() && 0 <= g2 < firsts(usages(u)).len()
                    && #[trigger] members(usages(u), usages(u)[firsts(usages(u))[g1]]).contains(f)
                    && #[trigger] members(usages(u), usages(u)[firsts(usages(u))[g2]]).contains(f)
                    ==> g1 == g2
            &&& forall|g: int|
                0 <= g < firsts(usages(u)).len() ==> (#[trigger] members(
                    usages(u),
                    usages(u)[firsts(usages(u))[g]],
                )).no_duplicates()
            &&& !inline_functions(u).contains(f)
        },
        !extracted(usages(u)) ==> {
            &&& modules(u).len() == 0
            &&& inline_functions(u).contains(f)
            &&& inline_functions(u).no_duplicates()
        },
{
    let us = usages(u);
    let fs = firsts(us);
    let n = us.len() as int;
    lemma_indices_where(n, first_pred(us));
    if extracted(us) {
        lemma_has_first(us, f);
        let j = choose|j: int| 0 <= j <= f && is_first(us, j) && #[trigger] us[j] == us[f];
        assert(first_pred(us)(j));
        assert(fs.contains(j));
        let g = choose|g: int| 0 <= g < fs.len() && fs[g] == j;
        lemma_indices_where(n, crate::plan::member_pred(us, us[fs[g]]));
        assert(members(us, us[fs[g]]).contains(f));
        assert forall|g1: int, g2: int|
            0 <= g1 < fs.len() && 0 <= g2 < fs.len() && #[trigger] members(us, us[fs[g1]]).contains(f)
                && #[trigger] members(us, us[fs[g2]]).contains(f) implies g1 == g2 by {
            lemma_indices_where(n, crate::plan::member_pred(us, us[fs[g1]]));
            lemma_indices_where(n, crate::plan::member_pred(us, us[fs[g2]]));
            if g1 < g2 {
                assert(fs[g1] < fs[g2]);
                assert(first_pred(us)(fs[g2]));
            } else if g2 < g1 {
                assert(fs[g2] < fs[g1]);
                assert(first_pred(us)(fs[g1]));
            }
        }
        assert forall|g: int| 0 <= g < fs.len() implies (#[trigger] members(us, us[fs[g]])).no_duplicates() by {
            lemma_indices_where(n, crate::plan::member_pred(us, us[fs[g]]));
            lemma_strictly_increasing_no_dups(members(us, us[fs[g]]));
        }
    } else {
        lemma_indices_where(u.functions.len() as int, any_index());
        lemma_strictly_increasing_no_dups(inline_functions(u));
        assert(any_index()(f));
    }
}

/// When no function references any import, no module is produced and every
/// function stays in the entry file.
pub proof fn lemma_no_structure_no_modules(u: UnitView)
    requires
        forall|f: int| 0 <= f < u.functions.len() ==> #[trigger] usages(u)[f] == Set::<Seq<char>>::empty(),
    ensures
        modules(u).len() == 0,
        forall|f: int| 0 <= f < u.functions.len() ==> #[trigger] inline_functions(u).contains(f),
{
    lemma_indices_where(u.functions.len() as int, any_index());
    assert forall|f: int| 0 <= f < u.functions.len() implies #[trigger] inline_functions(u).contains(f) by {
        assert(any_index()(f));
    }
}

pub proof fn lemma_joined_append(a: Seq<Seq<char>>, b: Seq<Seq<char>>, sep: Seq<char>)
    ensures
        joined(a + b, sep) == joined(a, sep) + joined(b, sep),
    decreases b.len(),
{
    if b.len() == 0 {
        assert(a + b =~= a);
        assert(joined(b, sep) =~= Seq::<char>::empty());
        assert(joined(a, sep) + joined(b, sep) =~= joined(a, sep));
    } else {
        lemma_joined_append(a, b.drop_last(), sep);
        assert((a + b).drop_last() =~= a + b.drop_last());
        assert((a + b).last() == b.last());
        assert(joined(a + b, sep) =~= joined(a, sep) + joined(b, sep));
    }
}

/// The entry function, when the unit has one, is the entry file's last part and
/// makes up exactly one part of it.
pub proof fn lemma_entry_last(u: UnitView)
    requires
        u.entry is Some,
    ensures
        entry_parts(u).last() == u.entry->Some_0,
        entry_parts(u).len() == u.imports.len() + u.others.len() + 2 * modules(u).len()
            + inline_functions(u).len() + 1,
        entry_text(u) == joined(entry_parts(u).drop_last(), "\n\n"@) + u.entry->Some_0 + "\n\n"@,
{
}

/// The entry file opens with every import statement of the unit, verbatim and in
/// source order, duplicates included.
pub proof fn lemma_imports_retained(u: UnitView)
    ensures
        entry_parts(u).take(u.imports.len() as int) == u.imports.map_values(|i: ImportView| i.text),
        ({
            let head = joined(u.imports.map_values(|i: ImportView| i.text), "\n\n"@);
            head.len() <= entry_text(u).len() && entry_text(u).take(head.len() as int) == head
        }),
{
    let texts = u.imports.map_values(|i: ImportView| i.text);
    let parts = entry_parts(u);
    let tail = parts.subrange(texts.len() as int, parts.len() as int);
    assert(parts.take(texts.len() as int) =~= texts);
    assert(parts =~= texts + tail);
    lemma_joined_append(texts, tail, "\n\n"@);
    assert(entry_text(u) == joined(texts, "\n\n"@) + joined(tail, "\n\n"@));
    assert(entry_text(u).take(joined(texts, "\n\n"@).len() as int) =~= joined(texts, "\n\n"@));
}

/// A name resolves to the last import statement that introduces it, even where an
/// earlier one introduces it too.
pub proof fn lemma_last_import_wins(imports: Seq<ImportView>, name: Seq<char>, i: int)
    requires
        0 <= i < imports.len(),
        imports[i].names.contains(name),
        forall|k: int| i < k < imports.len() ==> !(#[trigger] imports[k].names.contains(name)),
    ensures
        resolve(imports, name) == Some(i),
    decreases imports.len(),
{
    if i < imports.len() - 1 {
        assert(!imports[imports.len() - 1].names.contains(name));
        let rest = imports.drop_last();
        assert forall|k: int| i < k < rest.len() implies !(#[trigger] rest[k].names.contains(name)) by {
            assert(rest[k] == imports[k]);
        }
        lemma_last_import_wins(rest, name, i);
    }
}

/// Splitting depends on the text alone: the same text gives the same module files
/// and the same entry file, and so does a unit that holds the same contents.
pub proof fn lemma_deterministic(a: Seq<char>, b: Seq<char>, x: &Unit, y: &Unit)
    requires
        a == b,
        x@ == y@,
    ensures
        modules(unit_of(a)) == modules(unit_of(b)),
        entry_text(unit_of(a)) == entry_text(unit_of(b)),
        modules(x@) == modules(y@),
        entry_text(x@) == entry_text(y@),
{
}

proof fn lemma_decimal_injective(a: nat, b: nat)
    requires
        decimal(a) == decimal(b),
    ensures
        a == b,
    decreases a,
{
    let da = decimal(a);
    let db = decimal(b);
    if a < 10 && b < 10 {
        assert(da[0] == digit_char(a));
        assert(db[0] == digit_char(b));
        assert((('0' as u32) + a) as char == (('0' as u32) + b) as char);
    } else if a >= 10 && b >= 10 {
        assert(da.last() == digit_char(a % 10));
        assert(db.last() == digit_char(b % 10));
        assert(da.drop_last() =~= decimal(a / 10));
        assert(db.drop_last() =~= decimal(b / 10));
        lemma_decimal_injective(a / 10, b / 10);
    } else {
        lemma_decimal_len(a);
        lemma_decimal_len(b);
    }
}

proof fn lemma_decimal_len(n: nat)
    ensures
        decimal(n).len() >= 1,
        n >= 10 ==> decimal(n).len() >= 2,
    decreases n,
{
    if n >= 10 {
        lemma_decimal_len(n / 10);
    }
}

proof fn lemma_keyed_before_grows(us: Seq<Set<Seq<char>>>, g1: int, g2: int)
    requires
        0 <= g1 < g2 <= firsts(us).len(),
        us[firsts(us)[g1]] != Set::<Seq<char>>::empty(),
    ensures
        keyed_before(us, g1) < keyed_before(us, g2),
    decreases g2 - g1,
{
    if g2 > g1 + 1 {
        lemma_keyed_before_grows(us, g1, g2 - 1);
    }
}

/// Distinct groups get distinct keys, so no two module files share a key.
pub proof fn lemma_group_keys_distinct(u: UnitView, g1: int, g2: int)
    requires
        0 <= g1 < g2 < firsts(usages(u)).len(),
    ensures
        group_key(usages(u), g1) != group_key(usages(u), g2),
{
    let us = usages(u);
    let fs = firsts(us);
    lemma_indices_where(us.len() as int, first_pred(us));
    let e = Set::<Seq<char>>::empty();
    assert(fs[g1] < fs[g2]);
    assert(first_pred(us)(fs[g2]));
    assert(us[fs[g1]] != us[fs[g2]]);
    reveal_strlit("general");
    reveal_strlit("group_");
    if us[fs[g1]] != e && us[fs[g2]] != e {
        lemma_keyed_before_grows(us, g1, g2);
        let k1 = keyed_before(us, g1) + 1;
        let k2 = keyed_before(us, g2) + 1;
        if group_key(us, g1) == group_key(us, g2) {
            assert(group_key(us, g1).subrange(6, group_key(us, g1).len() as int) =~= decimal(k1));
            assert(group_key(us, g2).subrange(6, group_key(us, g2).len() as int) =~= decimal(k2));
            lemma_decimal_injective(k1, k2);
        }
    } else if us[fs[g1]] == e {
        assert(group_key(us, g1)[2] == 'n');
        assert(group_key(us, g2)[2] == 'o');
    } else {
        assert(group_key(us, g2)[2] == 'n');
        assert(group_key(us, g1)[2] == 'o');
    }
}

} // verus!
