//! What the side panels show next to the search results: how many files carry
//! each sound type, and how many lie directly in each folder.

use vstd::hash_map::StringHashMap;
use vstd::prelude::*;

use crate::ieee::{no_less_than, raise};
use crate::query::{
    clause_values, clauses, exclude_sound_types, facet_query_ignores_its_own_selection,
    sound_types_text, without, SearchFilters, ValueView,
};
use crate::tags::{
    is_label, nonempty, ordered_list_is_unique, ordered_position, packed, strictly_ordered,
    unpacked, unpacking_undoes_packing,
};
use crate::text::{pieces, precedes, precedes_irreflexive, split, texts, Separator};

verus! {

/// A name and how often it occurs.
#[derive(Debug)]
pub struct NamedCount {
    pub name: String,
    pub count: i64,
}

/// A folder of the library and how many matching files lie directly in it.
#[derive(Debug)]
pub struct FolderEntry {
    pub root_path: String,
    pub folder_path: String,
    pub count: i64,
}

// ---------------------------------------------------------------------------
// Sound types
// ---------------------------------------------------------------------------

/// The labels of all the packed texts, in order.
pub open spec fn all_labels(rows: Seq<Seq<char>>) -> Seq<Seq<char>>
    decreases rows.len(),
{
    if rows.len() == 0 {
        Seq::empty()
    } else {
        all_labels(rows.drop_last()) + unpacked(rows.last())
    }
}

/// How often `name` occurs among `labels`.
pub open spec fn occurrences(labels: Seq<Seq<char>>, name: Seq<char>) -> nat
    decreases labels.len(),
{
    if labels.len() == 0 {
        0
    } else {
        occurrences(labels.drop_last(), name) + if labels.last() == name {
            1nat
        } else {
            0nat
        }
    }
}

/// The names of a list of counts.
pub open spec fn count_names(counts: Seq<NamedCount>) -> Seq<Seq<char>> {
    counts.map_values(|c: NamedCount| c.name@)
}

/// Whether `counts` is the ordered list of the names among `labels`, each once
/// and with the number of its occurrences.
pub open spec fn is_count_of(counts: Seq<NamedCount>, labels: Seq<Seq<char>>) -> bool {
    &&& strictly_ordered(count_names(counts))
    &&& forall|i: int|
        0 <= i < counts.len() ==> (#[trigger] counts[i]).count == occurrences(
            labels,
            counts[i].name@,
        )
    &&& forall|n: Seq<char>| #[trigger]
        count_names(counts).contains(n) <==> occurrences(labels, n) > 0
}

/// `totals[i]` is how often `names[i]` occurs among `labels`, and every label
/// has its name in the ordered list.
spec fn tallies(names: Seq<Seq<char>>, totals: Seq<i64>, labels: Seq<Seq<char>>) -> bool {
    &&& strictly_ordered(names)
    &&& names.len() == totals.len()
    &&& forall|i: int|
        0 <= i < names.len() ==> #[trigger] totals[i] == occurrences(labels, names[i])
    &&& forall|n: Seq<char>| #[trigger] names.contains(n) <==> occurrences(labels, n) > 0
}

/// One more label never lowers a count.
proof fn occurrences_grow(labels: Seq<Seq<char>>, more: Seq<Seq<char>>, name: Seq<char>)
    ensures
        occurrences(labels, name) <= occurrences(labels + more, name),
    decreases more.len(),
{
    if more.len() == 0 {
        assert(labels + more =~= labels);
    } else {
        occurrences_grow(labels, more.drop_last(), name);
        assert((labels + more).drop_last() =~= labels + more.drop_last());
    }
}

/// Counts one more label.
fn tally(names: &mut Vec<String>, totals: &mut Vec<i64>, label: String, labels: Ghost<Seq<Seq<char>>>)
    requires
        tallies(texts(old(names)@), old(totals)@, labels@),
        occurrences(labels@, label@) < i64::MAX,
    ensures
        tallies(texts(final(names)@), final(totals)@, labels@.push(label@)),
{
    let (at, present) = ordered_position(names, label.as_str());
    let ghost ns = texts(names@);
    let ghost ts = totals@;
    let ghost n = label@;
    let ghost after = labels@.push(n);
    assert(after.drop_last() =~= labels@);
    assert forall|m: Seq<char>| #[trigger] occurrences(after, m) == occurrences(labels@, m) + (
    if m == n {
        1nat
    } else {
        0nat
    }) by {}
    if present {
        assert(totals@[at as int] == occurrences(labels@, ns[at as int]));
        let more: i64 = totals[at] + 1;
        totals.set(at, more);
        proof {
            assert(ns.contains(n));
            assert forall|i: int| 0 <= i < ns.len() implies #[trigger] totals@[i] == occurrences(
                after,
                ns[i],
            ) by {
                if i != at && ns[i] == n {
                    precedes_irreflexive(n);
                }
                assert(ts[i] == occurrences(labels@, ns[i]));
            }
        }
    } else {
        names.insert(at, label);
        totals.insert(at, 1);
        proof {
            let ms = texts(names@);
            assert(ms =~= ns.insert(at as int, n));
            if ns.contains(n) {
                let k = ns.index_of(n);
                precedes_irreflexive(n);
                assert(false);
            }
            assert forall|i: int, j: int| 0 <= i < j < ms.len() implies precedes(
                #[trigger] ms[i],
                #[trigger] ms[j],
            ) by {
                if i < at && j > at {
                    assert(ms[i] == ns[i] && ms[j] == ns[j - 1]);
                } else if i < at && j < at {
                    assert(ms[i] == ns[i] && ms[j] == ns[j]);
                } else if i > at {
                    assert(ms[i] == ns[i - 1] && ms[j] == ns[j - 1]);
                } else if j == at {
                    assert(ms[i] == ns[i]);
                } else {
                    assert(ms[j] == ns[j - 1]);
                }
            }
            assert forall|i: int| 0 <= i < ms.len() implies #[trigger] totals@[i] == occurrences(
                after,
                ms[i],
            ) by {
                if i < at {
                    assert(ts[i] == occurrences(labels@, ns[i]));
                    assert(ns.contains(ns[i]));
                } else if i > at {
                    assert(ts[i - 1] == occurrences(labels@, ns[i - 1]));
                    assert(ns.contains(ns[i - 1]));
                }
            }
            assert forall|m: Seq<char>| #[trigger] ms.contains(m) <==> occurrences(after, m) > 0 by {
                if ms.contains(m) {
                    let k = ms.index_of(m);
                    if k < at {
                        assert(ns[k] == m);
                        assert(ns.contains(m));
                    } else if k > at {
                        assert(ns[k - 1] == m);
                        assert(ns.contains(m));
                    }
                }
                if ns.contains(m) {
                    let k = ns.index_of(m);
                    if k < at {
                        assert(ms[k] == m);
                    } else {
                        assert(ms[k + 1] == m);
                    }
                }
                assert(ms[at as int] == n);
            }
        }
    }
}

/// How many times each sound type occurs in the packed labels of the matching
/// files, ordered by name.
pub fn list_sound_types(rows: &Vec<String>) -> (r: Vec<NamedCount>)
    requires
        forall|n: Seq<char>| #[trigger] occurrences(all_labels(texts(rows@)), n) <= i64::MAX,
    ensures
        is_count_of(r@, all_labels(texts(rows@))),
        forall|i: int|
            0 <= i < r@.len() ==> (#[trigger] r@[i]).count >= 1 && r@[i].name@.len() > 0,
{
    let ghost all = texts(rows@);
    let mut names: Vec<String> = Vec::new();
    let mut totals: Vec<i64> = Vec::new();
    let mut i: usize = 0;
    assert(all_labels(all.take(0)) =~= Seq::empty());
    while i < rows.len()
        invariant
            all == texts(rows@),
            i <= rows@.len(),
            forall|n: Seq<char>| #[trigger] occurrences(all_labels(all), n) <= i64::MAX,
            tallies(texts(names@), totals@, all_labels(all.take(i as int))),
        decreases rows@.len() - i,
    {
        let ps: Vec<String> = split(rows[i].as_str(), Separator::Comma);
        let ghost cut = texts(ps@);
        let ghost before = all_labels(all.take(i as int));
        assert(all.take(i + 1).drop_last() =~= all.take(i as int));
        assert(all.take(i + 1).last() == rows@[i as int]@);
        let ghost behind = all_labels(all.take(i + 1));
        assert(behind == before + nonempty(cut));
        proof {
            labels_of_prefix(all, i + 1);
        }
        let mut k: usize = 0;
        assert(before + nonempty(cut.take(0)) =~= before);
        while k < ps.len()
            invariant
                all == texts(rows@),
                i < rows@.len(),
                cut == texts(ps@),
                k <= ps@.len(),
                behind == before + nonempty(cut),
                behind == all_labels(all.take(i + 1)),
                forall|n: Seq<char>|
                    occurrences(behind, n) <= #[trigger] occurrences(all_labels(all), n),
                forall|n: Seq<char>| #[trigger] occurrences(all_labels(all), n) <= i64::MAX,
                tallies(texts(names@), totals@, before + nonempty(cut.take(k as int))),
            decreases ps@.len() - k,
        {
            let ghost sofar = before + nonempty(cut.take(k as int));
            assert(cut.take(k + 1).drop_last() =~= cut.take(k as int));
            assert(cut.take(k + 1).last() == ps@[k as int]@);
            if !ps[k].as_str().is_empty() {
                let label = ps[k].as_str().to_owned();
                let ghost next = sofar.push(label@);
                assert(next =~= before + nonempty(cut.take(k + 1)));
                proof {
                    nonempty_of_prefix(cut, k + 1);
                    let rest = choose|rest: Seq<Seq<char>>|
                        nonempty(cut) == #[trigger] (nonempty(cut.take(k + 1)) + rest);
                    assert(behind =~= next + rest);
                    occurrences_grow(next, rest, label@);
                    assert(occurrences(all_labels(all), label@) <= i64::MAX);
                    assert(next.drop_last() =~= sofar);
                }
                tally(&mut names, &mut totals, label, Ghost(sofar));
            }
            k += 1;
        }
        assert(cut.take(cut.len() as int) =~= cut);
        i += 1;
    }
    assert(all.take(all.len() as int) =~= all);
    let ghost labels = all_labels(all);
    let ghost ns = texts(names@);
    let ghost ts = totals@;
    let mut out: Vec<NamedCount> = Vec::new();
    let mut j: usize = 0;
    while j < names.len()
        invariant
            ns == texts(names@),
            ts == totals@,
            ns.len() == ts.len(),
            j <= names@.len(),
            out@.len() == j,
            forall|m: int|
                0 <= m < j ==> (#[trigger] out@[m]).name@ == ns[m] && out@[m].count == ts[m],
        decreases names@.len() - j,
    {
        out.push(NamedCount { name: names[j].as_str().to_owned(), count: totals[j] });
        j += 1;
    }
    proof {
        assert(count_names(out@) =~= ns);
        assert forall|m: int| 0 <= m < out@.len() implies (#[trigger] out@[m]).count
            == occurrences(labels, out@[m].name@) by {
            assert(ts[m] == occurrences(labels, ns[m]));
        }
        counted_names_are_real(out@, all);
    }
    out
}

/// A name that occurs is one of the labels.
proof fn occurring_name_is_a_label(labels: Seq<Seq<char>>, name: Seq<char>)
    requires
        occurrences(labels, name) > 0,
    ensures
        labels.contains(name),
    decreases labels.len(),
{
    let rest = labels.drop_last();
    if labels.last() == name {
        assert(labels[labels.len() - 1] == name);
    } else {
        occurring_name_is_a_label(rest, name);
        let k = rest.index_of(name);
        assert(labels[k] == name);
    }
}

/// Dropping the empty pieces leaves none that is empty.
proof fn nonempty_has_no_empty(ps: Seq<Seq<char>>)
    ensures
        forall|k: int| 0 <= k < nonempty(ps).len() ==> (#[trigger] nonempty(ps)[k]).len() > 0,
    decreases ps.len(),
{
    if ps.len() > 0 {
        let before = nonempty(ps.drop_last());
        nonempty_has_no_empty(ps.drop_last());
        assert forall|k: int| 0 <= k < nonempty(ps).len() implies (#[trigger] nonempty(ps)[k]).len()
            > 0 by {
            if k < before.len() {
                assert(nonempty(ps)[k] == before[k]);
            }
        }
    }
}

/// No label of a packed text is empty.
proof fn labels_are_not_empty(rows: Seq<Seq<char>>)
    ensures
        forall|k: int| 0 <= k < all_labels(rows).len() ==> (#[trigger] all_labels(rows)[k]).len() > 0,
    decreases rows.len(),
{
    if rows.len() > 0 {
        let before = all_labels(rows.drop_last());
        labels_are_not_empty(rows.drop_last());
        nonempty_has_no_empty(pieces(rows.last(), Separator::Comma));
        assert forall|k: int| 0 <= k < all_labels(rows).len() implies (
        #[trigger] all_labels(rows)[k]).len() > 0 by {
            if k < before.len() {
                assert(all_labels(rows)[k] == before[k]);
            } else {
                assert(all_labels(rows)[k] == unpacked(rows.last())[k - before.len()]);
            }
        }
    }
}

/// What is counted occurs, and has a name.
proof fn counted_names_are_real(counts: Seq<NamedCount>, rows: Seq<Seq<char>>)
    requires
        is_count_of(counts, all_labels(rows)),
    ensures
        forall|i: int|
            0 <= i < counts.len() ==> (#[trigger] counts[i]).count >= 1 && counts[i].name@.len() > 0,
{
    let labels = all_labels(rows);
    labels_are_not_empty(rows);
    assert forall|i: int| 0 <= i < counts.len() implies (#[trigger] counts[i]).count >= 1
        && counts[i].name@.len() > 0 by {
        let name = counts[i].name@;
        assert(count_names(counts)[i] == name);
        assert(count_names(counts).contains(name));
        occurring_name_is_a_label(labels, name);
        assert(labels[labels.index_of(name)] == name);
    }
}

/// Whether two lists of counts hold the same names and the same numbers.
pub open spec fn same_counts(a: Seq<NamedCount>, b: Seq<NamedCount>) -> bool {
    &&& count_names(a) == count_names(b)
    &&& a.len() == b.len()
    &&& forall|i: int| 0 <= i < a.len() ==> (#[trigger] a[i]).count == b[i].count
}

/// The labels settle what is counted: there is only one list.
pub proof fn counts_are_unique(a: Seq<NamedCount>, b: Seq<NamedCount>, labels: Seq<Seq<char>>)
    requires
        is_count_of(a, labels),
        is_count_of(b, labels),
    ensures
        same_counts(a, b),
{
    let x = count_names(a);
    let y = count_names(b);
    assert forall|n: Seq<char>| x.contains(n) <==> y.contains(n) by {}
    ordered_list_is_unique(x, y);
    assert(x.len() == a.len() && y.len() == b.len());
    assert forall|i: int| 0 <= i < a.len() implies (#[trigger] a[i]).count == b[i].count by {
        assert(x[i] == a[i].name@);
        assert(y[i] == b[i].name@);
    }
}

/// Choosing sound types never changes how the sound types are counted: with
/// filters that differ in nothing else, and a database that answers the same
/// question in the same way, the counts are the same.
pub proof fn chosen_sound_types_do_not_change_their_counts<S>(
    f: SearchFilters<S>,
    g: SearchFilters<S>,
    database: spec_fn(Seq<char>, Seq<ValueView<S>>) -> Seq<Seq<char>>,
    a: Seq<NamedCount>,
    b: Seq<NamedCount>,
)
    requires
        without(f, exclude_sound_types()) == without(g, exclude_sound_types()),
        is_count_of(
            a,
            all_labels(
                database(
                    sound_types_text(f),
                    clause_values(clauses(f, exclude_sound_types())),
                ),
            ),
        ),
        is_count_of(
            b,
            all_labels(
                database(
                    sound_types_text(g),
                    clause_values(clauses(g, exclude_sound_types())),
                ),
            ),
        ),
    ensures
        same_counts(a, b),
{
    facet_query_ignores_its_own_selection(f, g);
    counts_are_unique(
        a,
        b,
        all_labels(
            database(sound_types_text(f), clause_values(clauses(f, exclude_sound_types()))),
        ),
    );
}

/// The labels of the first rows come first among the labels of all rows.
proof fn labels_of_prefix(rows: Seq<Seq<char>>, n: int)
    requires
        0 <= n <= rows.len(),
    ensures
        forall|name: Seq<char>|
            occurrences(all_labels(rows.take(n)), name) <= #[trigger] occurrences(
                all_labels(rows),
                name,
            ),
    decreases rows.len() - n,
{
    if n < rows.len() {
        labels_of_prefix(rows, n + 1);
        let a = all_labels(rows.take(n));
        let b = all_labels(rows.take(n + 1));
        assert(rows.take(n + 1).drop_last() =~= rows.take(n));
        assert forall|name: Seq<char>|
            occurrences(a, name) <= #[trigger] occurrences(all_labels(rows), name) by {
            occurrences_grow(a, unpacked(rows[n]), name);
            assert(b == a + unpacked(rows[n]));
        }
    } else {
        assert(rows.take(n) =~= rows);
    }
}

/// The pieces kept of a prefix come first among the pieces kept of the whole.
proof fn nonempty_of_prefix(ps: Seq<Seq<char>>, n: int)
    requires
        0 <= n <= ps.len(),
    ensures
        exists|rest: Seq<Seq<char>>| nonempty(ps) == #[trigger] (nonempty(ps.take(n)) + rest),
    decreases ps.len(),
{
    if n == ps.len() {
        assert(ps.take(n) =~= ps);
        assert(nonempty(ps) =~= nonempty(ps.take(n)) + Seq::<Seq<char>>::empty());
    } else {
        let shorter = ps.drop_last();
        nonempty_of_prefix(shorter, n);
        assert(shorter.take(n) =~= ps.take(n));
        let rest = choose|rest: Seq<Seq<char>>|
            nonempty(shorter) == #[trigger] (nonempty(ps.take(n)) + rest);
        if ps.last().len() > 0 {
            assert(nonempty(ps) =~= nonempty(ps.take(n)) + rest.push(ps.last()));
        }
    }
}

/// The labels of all the lists, in order.
pub open spec fn flattened(lists: Seq<Seq<Seq<char>>>) -> Seq<Seq<char>>
    decreases lists.len(),
{
    if lists.len() == 0 {
        Seq::empty()
    } else {
        flattened(lists.drop_last()) + lists.last()
    }
}

/// The lists, each packed into one text.
pub open spec fn all_packed(lists: Seq<Seq<Seq<char>>>) -> Seq<Seq<char>> {
    lists.map_values(|labels: Seq<Seq<char>>| packed(labels)->0)
}

/// Whether the labels of a file can be packed.
pub open spec fn can_be_packed(labels: Seq<Seq<char>>) -> bool {
    labels.len() > 0 && forall|i: int| 0 <= i < labels.len() ==> is_label(#[trigger] labels[i])
}

/// Packing loses nothing that is counted: what is counted of the packed texts
/// is how often each label was given.
pub proof fn packed_labels_are_counted(lists: Seq<Seq<Seq<char>>>)
    requires
        forall|i: int| 0 <= i < lists.len() ==> can_be_packed(#[trigger] lists[i]),
    ensures
        all_labels(all_packed(lists)) == flattened(lists),
    decreases lists.len(),
{
    if lists.len() > 0 {
        let rest = lists.drop_last();
        assert forall|i: int| 0 <= i < rest.len() implies can_be_packed(#[trigger] rest[i]) by {
            assert(can_be_packed(lists[i]));
        }
        packed_labels_are_counted(rest);
        assert(can_be_packed(lists[lists.len() - 1]));
        unpacking_undoes_packing(lists.last());
        assert(all_packed(lists).drop_last() =~= all_packed(rest));
    }
}

// ---------------------------------------------------------------------------
// Folders
// ---------------------------------------------------------------------------

/// The count that the rows give for a folder: that of the last row about it,
/// and zero when none is.
pub open spec fn folder_count(
    rows: Seq<(String, String, i64)>,
    root: Seq<char>,
    folder: Seq<char>,
) -> i64
    decreases rows.len(),
{
    if rows.len() == 0 {
        0
    } else if rows.last().0@ == root && rows.last().1@ == folder {
        rows.last().2
    } else {
        folder_count(rows.drop_last(), root, folder)
    }
}

/// What two levels of tables say of a folder.
spec fn looked_up(
    roots: Map<Seq<char>, usize>,
    tables: Seq<StringHashMap<i64>>,
    root: Seq<char>,
    folder: Seq<char>,
) -> i64 {
    if roots.contains_key(root) && tables[roots[root] as int]@.contains_key(folder) {
        tables[roots[root] as int]@[folder]
    } else {
        0
    }
}

/// Every root has a table of its own.
spec fn one_table_each(roots: Map<Seq<char>, usize>, tables: nat) -> bool {
    &&& forall|r: Seq<char>| #[trigger] roots.contains_key(r) ==> roots[r] < tables
    &&& forall|r: Seq<char>, s: Seq<char>|
        #![trigger roots.contains_key(r), roots.contains_key(s)]
        roots.contains_key(r) && roots.contains_key(s) && roots[r] == roots[s] ==> r == s
}

/// Every folder of the library, in the given order, with the number of
/// matching files that lie directly in it.
pub fn list_folder_tree(
    folders: Vec<(String, String)>,
    counts: Vec<(String, String, i64)>,
) -> (r: Vec<FolderEntry>)
    ensures
        r@.len() == folders@.len(),
        forall|i: int|
            0 <= i < r@.len() ==> {
                &&& (#[trigger] r@[i]).root_path@ == folders@[i].0@
                &&& r@[i].folder_path@ == folders@[i].1@
                &&& r@[i].count == folder_count(counts@, folders@[i].0@, folders@[i].1@)
            },
{
    let mut roots: StringHashMap<usize> = StringHashMap::new();
    let mut tables: Vec<StringHashMap<i64>> = Vec::new();
    let mut k: usize = 0;
    while k < counts.len()
        invariant
            k <= counts@.len(),
            one_table_each(roots@, tables@.len()),
            forall|root: Seq<char>, folder: Seq<char>| #[trigger]
                looked_up(roots@, tables@, root, folder) == folder_count(
                    counts@.take(k as int),
                    root,
                    folder,
                ),
        decreases counts@.len() - k,
    {
        let row = &counts[k];
        let ghost rs0 = roots@;
        let ghost ts0 = tables@;
        assert(counts@.take(k + 1).drop_last() =~= counts@.take(k as int));
        assert(counts@.take(k + 1).last() == *row);
        let at: usize = match roots.get(row.0.as_str()) {
            Some(n) => *n,
            None => {
                let n: usize = tables.len();
                roots.insert(row.0.as_str().to_owned(), n);
                tables.push(StringHashMap::new());
                n
            },
        };
        let ghost rs = roots@;
        let ghost ts = tables@;
        assert(one_table_each(rs, ts.len()));
        assert(rs.contains_key(row.0@) && rs[row.0@] == at);
        assert forall|root: Seq<char>, folder: Seq<char>| #[trigger]
            looked_up(rs, ts, root, folder) == looked_up(rs0, ts0, root, folder) by {
            if rs0.contains_key(root) {
                assert(rs.contains_key(root) && rs[root] == rs0[root]);
                assert(ts[rs[root] as int] == ts0[rs[root] as int]);
            }
        }
        tables[at].insert(row.1.as_str().to_owned(), row.2);
        assert forall|root: Seq<char>, folder: Seq<char>| #[trigger]
            looked_up(roots@, tables@, root, folder) == folder_count(
                counts@.take(k + 1),
                root,
                folder,
            ) by {
            assert(looked_up(rs, ts, root, folder) == looked_up(rs0, ts0, root, folder));
            if rs.contains_key(root) && root != row.0@ {
                assert(rs[root] != at);
                assert(tables@[rs[root] as int] == ts[rs[root] as int]);
            }
        }
        k += 1;
    }
    assert(counts@.take(counts@.len() as int) =~= counts@);
    let mut out: Vec<FolderEntry> = Vec::new();
    let mut i: usize = 0;
    while i < folders.len()
        invariant
            i <= folders@.len(),
            out@.len() == i,
            one_table_each(roots@, tables@.len()),
            forall|root: Seq<char>, folder: Seq<char>| #[trigger]
                looked_up(roots@, tables@, root, folder) == folder_count(counts@, root, folder),
            forall|j: int|
                0 <= j < i ==> {
                    &&& (#[trigger] out@[j]).root_path@ == folders@[j].0@
                    &&& out@[j].folder_path@ == folders@[j].1@
                    &&& out@[j].count == folder_count(counts@, folders@[j].0@, folders@[j].1@)
                },
        decreases folders@.len() - i,
    {
        let folder = &folders[i];
        assert(looked_up(roots@, tables@, folder.0@, folder.1@) == folder_count(
            counts@,
            folder.0@,
            folder.1@,
        ));
        let count: i64 = match roots.get(folder.0.as_str()) {
            Some(n) => match tables[*n].get(folder.1.as_str()) {
                Some(c) => *c,
                None => 0,
            },
            None => 0,
        };
        out.push(
            FolderEntry {
                root_path: folder.0.as_str().to_owned(),
                folder_path: folder.1.as_str().to_owned(),
                count,
            },
        );
        i += 1;
    }
    out
}

// ---------------------------------------------------------------------------
// Durations
// ---------------------------------------------------------------------------

/// The shortest and the longest duration in seconds, by the bits of double
/// precision numbers, between which the duration filter moves.
#[derive(Clone, Copy, Debug, PartialEq, Eq, Structural)]
pub struct DurationBounds {
    pub min: u64,
    pub max: u64,
}

/// 1 in double precision.
pub const DOUBLE_1: u64 = 0x3ff0_0000_0000_0000;

/// 60 in double precision.
pub const DOUBLE_60: u64 = 0x404e_0000_0000_0000;

/// A number that is given, or else `default`, but no less than `floor`.
pub open spec fn at_least(n: Option<u64>, default: u64, floor: u64) -> u64 {
    match n {
        Some(b) => no_less_than(b, floor),
        None => no_less_than(default, floor),
    }
}

/// A number that is given, or else `default`, but no less than `floor`.
fn raise_or(n: Option<u64>, default: u64, floor: u64) -> (r: u64)
    ensures
        r == at_least(n, default, floor),
{
    match n {
        Some(b) => raise(b, floor),
        None => raise(default, floor),
    }
}

/// The bounds of the duration filter, from the shortest and the longest
/// duration in the index: from no less than zero to no less than one second,
/// and to a minute when nothing is known.
pub fn get_duration_bounds(shortest: Option<u64>, longest: Option<u64>) -> (r: DurationBounds)
    ensures
        r.min == at_least(shortest, 0, 0),
        r.max == at_least(longest, DOUBLE_60, DOUBLE_1),
{
    DurationBounds {
        min: raise_or(shortest, 0, 0),
        max: raise_or(longest, DOUBLE_60, DOUBLE_1),
    }
}

} // verus!
