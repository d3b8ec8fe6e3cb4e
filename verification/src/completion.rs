//! The completion index: the sorted, duplicate-free list of namespace names,
//! namespace prefixes and qualified symbols of a set of namespaces.

use vstd::prelude::*;
use crate::namespace::NamespaceModule;
use crate::text::{
    holds, join_path, join_separator, lemma_lex_irreflexive, lemma_lex_total,
    lemma_lex_transitive, lex_less, qualified, string_less, with_separator,
};

verus! {

/// Whether the list ascends strictly in code-point order, so that nothing
/// occurs in it twice.
pub open spec fn strictly_sorted(entries: Seq<String>) -> bool {
    forall|i: int, j: int|
        #![trigger entries[i], entries[j]]
        0 <= i < j < entries.len() ==> lex_less(entries[i]@, entries[j]@)
}

/// Whether the index of `namespaces` lists `entry`.
pub open spec fn indexed(namespaces: Seq<NamespaceModule>, entry: Seq<char>) -> bool {
    exists|i: int|
        #![trigger namespaces[i]]
        0 <= i < namespaces.len() && namespaces[i].announced_at_root(entry)
}

/// Whether `entry` is the bare name of one of the namespaces.
pub open spec fn is_root_name(namespaces: Seq<NamespaceModule>, entry: Seq<char>) -> bool {
    exists|i: int|
        #![trigger namespaces[i]]
        0 <= i < namespaces.len() && entry == namespaces[i].name@
}

/// Whether `entry` has its place in the prefix hierarchy of the index: it is
/// a top-level name; or it is `p::` and `p` is listed; or it is `p::s` with
/// something for `s`, and `p::` is listed.
pub open spec fn well_rooted(namespaces: Seq<NamespaceModule>, entry: Seq<char>) -> bool {
    ||| is_root_name(namespaces, entry)
    ||| exists|p: Seq<char>| entry == with_separator(p) && #[trigger] indexed(namespaces, p)
    ||| exists|p: Seq<char>, s: Seq<char>|
        entry == #[trigger] qualified(p, s) && s.len() > 0 && indexed(
            namespaces,
            with_separator(p),
        )
}

/// A list that ascends strictly holds no entry twice.
pub proof fn lemma_sorted_is_distinct(entries: Seq<String>, i: int, j: int)
    requires
        strictly_sorted(entries),
        0 <= i < j < entries.len(),
    ensures
        entries[i]@ != entries[j]@,
{
    lemma_lex_irreflexive(entries[i]@);
}

/// Puts `entry` at its place in a sorted list, unless the list holds it already.
pub fn insert_entry(entries: &mut Vec<String>, entry: String)
    requires
        strictly_sorted(old(entries)@),
    ensures
        strictly_sorted(final(entries)@),
        forall|e: Seq<char>|
            #![trigger holds(final(entries)@, e)]
            holds(final(entries)@, e) <==> (holds(old(entries)@, e) || e == entry@),
{
    let ghost before = entries@;
    let mut i: usize = 0;
    while i < entries.len() && string_less(entries[i].as_str(), entry.as_str())
        invariant
            i <= entries.len(),
            entries@ == before,
            forall|j: int| 0 <= j < i ==> lex_less(#[trigger] before[j]@, entry@),
        decreases entries.len() - i,
    {
        i += 1;
    }
    if i < entries.len() && entries[i] == entry {
        proof {
            assert(before[i as int]@ == entry@);
        }
        return ;
    }
    proof {
        if i < before.len() {
            if !lex_less(entry@, before[i as int]@) {
                lemma_lex_total(before[i as int]@, entry@);
            }
            assert forall|j: int| i < j < before.len() implies lex_less(
                entry@,
                #[trigger] before[j]@,
            ) by {
                lemma_lex_transitive(entry@, before[i as int]@, before[j]@);
            }
        }
    }
    entries.insert(i, entry);
    proof {
        let after = entries@;
        assert forall|a: int, b: int| 0 <= a < b < after.len() implies lex_less(
            #[trigger] after[a]@,
            #[trigger] after[b]@,
        ) by {
            if a < i && b > i {
                assert(after[a] == before[a]);
                assert(after[b] == before[b - 1]);
            } else if a < i && b < i {
                assert(after[a] == before[a]);
                assert(after[b] == before[b]);
            } else if a > i {
                assert(after[a] == before[a - 1]);
                assert(after[b] == before[b - 1]);
            }
        }
        assert forall|e: Seq<char>| holds(after, e) <==> (holds(before, e) || e == entry@) by {
            if holds(after, e) {
                let k = choose|k: int| 0 <= k < after.len() && (#[trigger] after[k])@ == e;
                if k < i {
                    assert(before[k]@ == e);
                } else if k > i {
                    assert(before[k - 1]@ == e);
                }
            }
            if holds(before, e) {
                let k = choose|k: int| 0 <= k < before.len() && (#[trigger] before[k])@ == e;
                if k < i {
                    assert(after[k]@ == e);
                } else {
                    assert(after[k + 1]@ == e);
                }
            }
            if e == entry@ {
                assert(after[i as int]@ == e);
            }
        }
    }
}

/// Adds to `entries` every entry that `module`, reached by `prefix`, gives
/// rise to: its callables, its sub-namespaces, and their contents.
pub fn collect_module_entries(prefix: &str, module: &NamespaceModule, entries: &mut Vec<String>)
    requires
        strictly_sorted(old(entries)@),
    ensures
        strictly_sorted(final(entries)@),
        forall|e: Seq<char>|
            #![trigger holds(final(entries)@, e)]
            holds(final(entries)@, e) <==> (holds(old(entries)@, e) || module.announces(
                prefix@,
                e,
            )),
    decreases module,
{
    let ghost before = entries@;
    let mut i: usize = 0;
    while i < module.symbols.len()
        invariant
            i <= module.symbols.len(),
            strictly_sorted(entries@),
            forall|e: Seq<char>|
                #![trigger holds(entries@, e)]
                holds(entries@, e) <==> (holds(before, e) || module.names_symbol(
                    i as int,
                    prefix@,
                    e,
                )),
        decreases module.symbols.len() - i,
    {
        let ghost earlier = entries@;
        let entry = join_path(prefix, module.symbols[i].as_str());
        let ghost text = entry@;
        insert_entry(entries, entry);
        proof {
            assert forall|e: Seq<char>|
                holds(entries@, e) <==> (holds(before, e) || module.names_symbol(
                    i as int + 1,
                    prefix@,
                    e,
                )) by {
                assert(holds(entries@, e) <==> (holds(earlier, e) || e == text));
                assert(holds(earlier, e) <==> (holds(before, e) || module.names_symbol(
                    i as int,
                    prefix@,
                    e,
                )));
                assert(text == qualified(prefix@, module.symbols@[i as int]@));
                if e == qualified(prefix@, module.symbols@[i as int]@) {
                    assert(module.names_symbol(i as int + 1, prefix@, e));
                }
                if module.names_symbol(i as int + 1, prefix@, e) {
                    let k = choose|k: int|
                        #![trigger module.symbols@[k]]
                        0 <= k < i as int + 1 && k < module.symbols@.len() && e == qualified(
                            prefix@,
                            module.symbols@[k]@,
                        );
                    if k < i {
                        assert(module.names_symbol(i as int, prefix@, e));
                    }
                }
                if module.names_symbol(i as int, prefix@, e) {
                    let k = choose|k: int|
                        #![trigger module.symbols@[k]]
                        0 <= k < i as int && k < module.symbols@.len() && e == qualified(
                            prefix@,
                            module.symbols@[k]@,
                        );
                    assert(module.names_symbol(i as int + 1, prefix@, e));
                }
            }
        }
        i += 1;
    }
    let ghost all_symbols = module.symbols@.len() as int;
    let mut j: usize = 0;
    while j < module.children.len()
        invariant
            j <= module.children.len(),
            all_symbols == module.symbols@.len(),
            strictly_sorted(entries@),
            forall|e: Seq<char>|
                #![trigger holds(entries@, e)]
                holds(entries@, e) <==> (holds(before, e) || module.names_symbol(
                    all_symbols,
                    prefix@,
                    e,
                ) || module.names_below(j as int, prefix@, e)),
        decreases module.children.len() - j,
    {
        let ghost earlier = entries@;
        let child = &module.children[j];
        let nested = join_path(prefix, child.name.as_str());
        let marker = join_separator(nested.as_str());
        insert_entry(entries, nested.clone());
        insert_entry(entries, marker);
        collect_module_entries(nested.as_str(), child, entries);
        proof {
            assert(child == module.children@[j as int]);
            assert forall|e: Seq<char>|
                holds(entries@, e) <==> (holds(before, e) || module.names_symbol(
                    all_symbols,
                    prefix@,
                    e,
                ) || module.names_below(j as int + 1, prefix@, e)) by {
                let fresh = child.announced_under(prefix@, e);
                assert(holds(entries@, e) <==> (holds(earlier, e) || fresh));
                if fresh {
                    assert(module.names_below(j as int + 1, prefix@, e));
                }
                if module.names_below(j as int, prefix@, e) {
                    let k = choose|k: int|
                        #![trigger module.children@[k]]
                        0 <= k < j as int && k < module.children@.len()
                            && module.children@[k].announced_under(prefix@, e);
                    assert(module.names_below(j as int + 1, prefix@, e));
                }
                if module.names_below(j as int + 1, prefix@, e) {
                    let k = choose|k: int|
                        #![trigger module.children@[k]]
                        0 <= k < j as int + 1 && k < module.children@.len()
                            && module.children@[k].announced_under(prefix@, e);
                    if k < j {
                        assert(module.names_below(j as int, prefix@, e));
                    }
                }
            }
        }
        j += 1;
    }
    proof {
        assert forall|e: Seq<char>|
            holds(entries@, e) <==> (holds(before, e) || module.announces(prefix@, e)) by {
            module.lemma_announces_split(prefix@, e);
        }
    }
}

/// The completion index of `namespaces`: for each of them its bare name, its
/// name with the separator, and the entries of its contents; sorted by code
/// point, each entry once. The index is a set: two namespaces of one name
/// share their entries, and a callable named like a sub-namespace beside it
/// shares the entry `path::name` with it.
pub fn completion_index(namespaces: &Vec<NamespaceModule>) -> (entries: Vec<String>)
    ensures
        strictly_sorted(entries@),
        forall|e: Seq<char>|
            #![trigger holds(entries@, e)]
            holds(entries@, e) <==> indexed(namespaces@, e),
{
    let mut entries: Vec<String> = Vec::new();
    let mut i: usize = 0;
    while i < namespaces.len()
        invariant
            i <= namespaces.len(),
            strictly_sorted(entries@),
            forall|e: Seq<char>|
                #![trigger holds(entries@, e)]
                holds(entries@, e) <==> indexed(namespaces@.take(i as int), e),
        decreases namespaces.len() - i,
    {
        let ghost earlier = entries@;
        let root = &namespaces[i];
        insert_entry(&mut entries, root.name.clone());
        insert_entry(&mut entries, join_separator(root.name.as_str()));
        collect_module_entries(root.name.as_str(), root, &mut entries);
        proof {
            let shorter = namespaces@.take(i as int);
            let longer = namespaces@.take(i as int + 1);
            assert forall|e: Seq<char>| holds(entries@, e) <==> indexed(longer, e) by {
                assert(holds(entries@, e) <==> (holds(earlier, e) || root.announced_at_root(e)));
                if root.announced_at_root(e) {
                    assert(longer[i as int] == *root);
                }
                if indexed(shorter, e) {
                    let k = choose|k: int|
                        #![trigger shorter[k]]
                        0 <= k < shorter.len() && shorter[k].announced_at_root(e);
                    assert(longer[k] == shorter[k]);
                }
                if indexed(longer, e) {
                    let k = choose|k: int|
                        #![trigger longer[k]]
                        0 <= k < longer.len() && longer[k].announced_at_root(e);
                    if k < i {
                        assert(shorter[k] == longer[k]);
                    }
                }
            }
        }
        i += 1;
    }
    proof {
        assert(namespaces@.take(namespaces@.len() as int) =~= namespaces@);
    }
    entries
}

/// An entry of a node has its place in the hierarchy, if the node's path is
/// listed with and without the separator and all entries of the node are
/// listed.
proof fn lemma_announces_rooted(
    namespaces: Seq<NamespaceModule>,
    node: NamespaceModule,
    path: Seq<char>,
    entry: Seq<char>,
)
    requires
        node.announces(path, entry),
        indexed(namespaces, path),
        indexed(namespaces, with_separator(path)),
        forall|x: Seq<char>| #[trigger] node.announces(path, x) ==> indexed(namespaces, x),
    ensures
        well_rooted(namespaces, entry),
    decreases node,
{
    if exists|i: int|
        #![trigger node.symbols@[i]]
        0 <= i < node.symbols@.len() && entry == qualified(path, node.symbols@[i]@) {
        let i = choose|i: int|
            #![trigger node.symbols@[i]]
            0 <= i < node.symbols@.len() && entry == qualified(path, node.symbols@[i]@);
        lemma_qualified_rooted(namespaces, path, node.symbols@[i]@);
    } else {
        let i = choose|i: int|
            #![trigger node.children@[i]]
            0 <= i < node.children@.len() && {
                let child = node.children@[i];
                let below = qualified(path, child.name@);
                ||| entry == below
                ||| entry == with_separator(below)
                ||| child.announces(below, entry)
            };
        let child = node.children@[i];
        let below = qualified(path, child.name@);
        assert(node.announces(path, below));
        assert(node.announces(path, with_separator(below)));
        if entry == below {
            lemma_qualified_rooted(namespaces, path, child.name@);
        } else if entry == with_separator(below) {
            assert(indexed(namespaces, below));
        } else {
            assert forall|x: Seq<char>| #[trigger] child.announces(below, x) implies indexed(
                namespaces,
                x,
            ) by {
                assert(node.announces(path, x));
            }
            lemma_announces_rooted(namespaces, child, below, entry);
        }
    }
}

/// `path::name` has its place where `path` is listed with and without the
/// separator: below `path::` where there is a name, and as `path::` itself
/// where the name is empty.
proof fn lemma_qualified_rooted(namespaces: Seq<NamespaceModule>, path: Seq<char>, name: Seq<char>)
    requires
        indexed(namespaces, path),
        indexed(namespaces, with_separator(path)),
    ensures
        well_rooted(namespaces, qualified(path, name)),
{
    let entry = qualified(path, name);
    if name.len() > 0 {
        assert(entry == qualified(path, name) && name.len() > 0);
    } else {
        assert(entry =~= with_separator(path));
    }
}

/// The index forms a prefix hierarchy: every entry is a top-level name, or
/// `p::` with `p` listed, or `p::s`, with something for `s`, with `p::`
/// listed.
pub proof fn lemma_index_hierarchy(namespaces: Seq<NamespaceModule>, entry: Seq<char>)
    requires
        indexed(namespaces, entry),
    ensures
        well_rooted(namespaces, entry),
{
    let i = choose|i: int|
        #![trigger namespaces[i]]
        0 <= i < namespaces.len() && namespaces[i].announced_at_root(entry);
    let root = namespaces[i];
    assert(root.announced_at_root(root.name@));
    assert(root.announced_at_root(with_separator(root.name@)));
    if entry == root.name@ {
        assert(is_root_name(namespaces, entry));
    } else if entry == with_separator(root.name@) {
        assert(indexed(namespaces, root.name@));
    } else {
        assert forall|x: Seq<char>| #[trigger] root.announces(root.name@, x) implies indexed(
            namespaces,
            x,
        ) by {
            assert(root.announced_at_root(x));
        }
        lemma_announces_rooted(namespaces, root, root.name@, entry);
    }
}

/// Every namespace contributes its bare name and its name with the separator.
pub proof fn lemma_index_names(namespaces: Seq<NamespaceModule>, i: int)
    requires
        0 <= i < namespaces.len(),
    ensures
        indexed(namespaces, namespaces[i].name@),
        indexed(namespaces, with_separator(namespaces[i].name@)),
{
    assert(namespaces[i].announced_at_root(namespaces[i].name@));
    assert(namespaces[i].announced_at_root(with_separator(namespaces[i].name@)));
}

/// What a list reads as: the view of each of its strings, in order.
pub open spec fn readings(entries: Seq<String>) -> Seq<Seq<char>> {
    Seq::new(entries.len(), |i: int| entries[i]@)
}

/// A sorted list is determined by what it holds: two lists that ascend
/// strictly and hold the same entries read the same, place by place.
pub proof fn lemma_sorted_lists_agree(a: Seq<String>, b: Seq<String>)
    requires
        strictly_sorted(a),
        strictly_sorted(b),
        forall|e: Seq<char>| holds(a, e) <==> holds(b, e),
    ensures
        readings(a) == readings(b),
    decreases a.len(),
{
    if a.len() == 0 {
        if b.len() > 0 {
            assert(holds(b, b[0]@));
        }
        assert(readings(a) =~= readings(b));
    } else {
        assert(holds(a, a[0]@));
        let k = choose|k: int| 0 <= k < b.len() && (#[trigger] b[k])@ == a[0]@;
        assert(holds(b, b[0]@));
        let m = choose|m: int| 0 <= m < a.len() && (#[trigger] a[m])@ == b[0]@;
        if k > 0 {
            assert(lex_less(b[0]@, b[k]@));
            if m > 0 {
                assert(lex_less(a[0]@, a[m]@));
                lemma_lex_transitive(a[0]@, b[0]@, a[0]@);
            }
            lemma_lex_irreflexive(a[0]@);
        }
        assert(a[0]@ == b[0]@);
        let rest_a = a.skip(1);
        let rest_b = b.skip(1);
        assert forall|i: int, j: int|
            #![trigger rest_a[i], rest_a[j]]
            0 <= i < j < rest_a.len() implies lex_less(rest_a[i]@, rest_a[j]@) by {
            assert(rest_a[i] == a[i + 1] && rest_a[j] == a[j + 1]);
        }
        assert forall|i: int, j: int|
            #![trigger rest_b[i], rest_b[j]]
            0 <= i < j < rest_b.len() implies lex_less(rest_b[i]@, rest_b[j]@) by {
            assert(rest_b[i] == b[i + 1] && rest_b[j] == b[j + 1]);
        }
        assert forall|e: Seq<char>| holds(rest_a, e) <==> holds(rest_b, e) by {
            if holds(rest_a, e) {
                let i = choose|i: int| 0 <= i < rest_a.len() && (#[trigger] rest_a[i])@ == e;
                assert(a[i + 1]@ == e);
                lemma_sorted_is_distinct(a, 0, i + 1);
                assert(holds(a, e));
                let j = choose|j: int| 0 <= j < b.len() && (#[trigger] b[j])@ == e;
                assert(rest_b[j - 1]@ == e);
            }
            if holds(rest_b, e) {
                let i = choose|i: int| 0 <= i < rest_b.len() && (#[trigger] rest_b[i])@ == e;
                assert(b[i + 1]@ == e);
                lemma_sorted_is_distinct(b, 0, i + 1);
                assert(holds(b, e));
                let j = choose|j: int| 0 <= j < a.len() && (#[trigger] a[j])@ == e;
                assert(rest_a[j - 1]@ == e);
            }
        }
        lemma_sorted_lists_agree(rest_a, rest_b);
        assert(readings(a) =~= seq![a[0]@] + readings(rest_a));
        assert(readings(b) =~= seq![b[0]@] + readings(rest_b));
    }
}

/// The index does not depend on the order in which the namespaces are given,
/// nor on how often one of them is given.
pub proof fn lemma_index_ignores_order(
    a: Seq<NamespaceModule>,
    b: Seq<NamespaceModule>,
    entry: Seq<char>,
)
    requires
        forall|i: int| 0 <= i < a.len() ==> b.contains(#[trigger] a[i]),
        forall|j: int| 0 <= j < b.len() ==> a.contains(#[trigger] b[j]),
    ensures
        indexed(a, entry) <==> indexed(b, entry),
{
    if indexed(a, entry) {
        let i = choose|i: int|
            #![trigger a[i]]
            0 <= i < a.len() && a[i].announced_at_root(entry);
        let j = choose|j: int| 0 <= j < b.len() && b[j] == a[i];
        assert(b[j].announced_at_root(entry));
    }
    if indexed(b, entry) {
        let j = choose|j: int|
            #![trigger b[j]]
            0 <= j < b.len() && b[j].announced_at_root(entry);
        let i = choose|i: int| 0 <= i < a.len() && a[i] == b[j];
        assert(a[i].announced_at_root(entry));
    }
}

} // verus!
