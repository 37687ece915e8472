//! Placeholders and bound values: every query has exactly one value for each of
//! its `?`.

use vstd::prelude::*;

use crate::query::{
    and_query, categories_clause, categories_text, clause_texts, clause_values, clauses,
    conditions_text, exclude_categories, exclude_folder, exclude_nothing, exclude_sound_types,
    favorites_clause, folder_clause, folder_counts_text, join_text, max_clause, min_clause,
    needs_join, order_text, repeated, root_clause, search_select, search_text, search_values,
    some_texts, sound_types_clause, sound_types_text, text_clause, unless, where_query, Clause,
    FacetExclude, SearchFilters,
};
use crate::text::{joined, opt_text};

verus! {

/// How many of the first `n` characters are placeholders.
pub open spec fn marks_in(s: Seq<char>, n: nat) -> nat
    decreases n,
{
    if n == 0 {
        0
    } else {
        marks_in(s, (n - 1) as nat) + if s[n - 1] == '?' {
            1nat
        } else {
            0nat
        }
    }
}

/// How many placeholders a text has.
pub open spec fn marks(s: Seq<char>) -> nat {
    marks_in(s, s.len())
}

/// How many placeholders the parts have together.
pub open spec fn total_marks(parts: Seq<Seq<char>>) -> nat
    decreases parts.len(),
{
    if parts.len() == 0 {
        0
    } else {
        total_marks(parts.drop_last()) + marks(parts.last())
    }
}

/// The placeholders at the front of a text do not depend on what follows.
proof fn marks_of_front(a: Seq<char>, b: Seq<char>, n: nat)
    requires
        n <= a.len(),
    ensures
        marks_in(a + b, n) == marks_in(a, n),
    decreases n,
{
    if n > 0 {
        marks_of_front(a, b, (n - 1) as nat);
        assert((a + b)[n - 1] == a[n - 1]);
    }
}

/// The placeholders of two texts put together.
proof fn marks_of_two(a: Seq<char>, b: Seq<char>)
    ensures
        marks(a + b) == marks(a) + marks(b),
    decreases b.len(),
{
    if b.len() == 0 {
        assert(a + b =~= a);
    } else {
        let rest = b.drop_last();
        marks_of_two(a, rest);
        let whole = a + b;
        assert(whole =~= (a + rest) + seq![b.last()]);
        marks_of_front(a + rest, seq![b.last()], (a + rest).len());
        assert(b =~= rest + seq![b.last()]);
        marks_of_front(rest, seq![b.last()], rest.len());
    }
}

/// The placeholders of joined parts, when the separator has none.
proof fn marks_of_joined(parts: Seq<Seq<char>>, sep: Seq<char>)
    requires
        marks(sep) == 0,
    ensures
        marks(joined(parts, sep)) == total_marks(parts),
    decreases parts.len(),
{
    if parts.len() == 1 {
        assert(parts.drop_last() =~= Seq::empty());
        assert(total_marks(parts.drop_last()) == 0);
    } else if parts.len() > 1 {
        marks_of_joined(parts.drop_last(), sep);
        let front = joined(parts.drop_last(), sep);
        marks_of_two(front, sep);
        marks_of_two(front + sep, parts.last());
    }
}

/// The placeholders of a text that is repeated.
proof fn marks_of_repeated(item: Seq<char>, count: nat, sep: Seq<char>)
    requires
        marks(item) == 1,
        marks(sep) == 0,
    ensures
        marks(repeated(item, count, sep)) == count,
{
    let parts = Seq::new(count, |i: int| item);
    marks_of_joined(parts, sep);
    marks_of_equal_parts(parts, item);
}

/// Parts with one placeholder each.
proof fn marks_of_equal_parts(parts: Seq<Seq<char>>, item: Seq<char>)
    requires
        marks(item) == 1,
        forall|i: int| 0 <= i < parts.len() ==> #[trigger] parts[i] == item,
    ensures
        total_marks(parts) == parts.len(),
    decreases parts.len(),
{
    if parts.len() > 0 {
        assert(parts.last() == parts[parts.len() - 1]);
        assert forall|i: int| 0 <= i < parts.drop_last().len() implies #[trigger] parts.drop_last()[i]
            == item by {
            assert(parts[i] == item);
        }
        marks_of_equal_parts(parts.drop_last(), item);
    }
}

/// Whether a condition has a value for each of its placeholders.
pub open spec fn is_balanced<S>(c: Clause<S>) -> bool {
    marks(c.sql) == c.values.len()
}

/// Whether each of the conditions has a value for each of its placeholders.
pub open spec fn all_balanced<S>(cs: Seq<Clause<S>>) -> bool {
    forall|i: int| 0 <= i < cs.len() ==> is_balanced(#[trigger] cs[i])
}

/// The placeholders of the fixed conditions.
proof fn marks_of_fixed_conditions()
    ensures
        marks("files_fts MATCH ?"@) == 1,
        marks("f.root_path = ?"@) == 1,
        marks("(f.folder_path = ? OR f.folder_path LIKE ?)"@) == 2,
        marks("f.duration_secs >= ?"@) == 1,
        marks("f.duration_secs <= ?"@) == 1,
        marks("f.favorite = 1"@) == 0,
{
    reveal_with_fuel(marks_in, 45);
    reveal_strlit("files_fts MATCH ?");
    reveal_strlit("f.root_path = ?");
    reveal_strlit("(f.folder_path = ? OR f.folder_path LIKE ?)");
    reveal_strlit("f.duration_secs >= ?");
    reveal_strlit("f.duration_secs <= ?");
    reveal_strlit("f.favorite = 1");
}

/// The placeholders of what the other conditions are made of.
proof fn marks_of_condition_parts()
    ensures
        marks("f.parent_folder IN ("@) == 0,
        marks("f.dsp_tags LIKE ?"@) == 1,
        marks("?"@) == 1,
        marks(","@) == 0,
        marks("("@) == 0,
        marks(")"@) == 0,
        marks(" OR "@) == 0,
{
    reveal_with_fuel(marks_in, 25);
    reveal_strlit("f.parent_folder IN (");
    reveal_strlit("f.dsp_tags LIKE ?");
    reveal_strlit("?");
    reveal_strlit(",");
    reveal_strlit("(");
    reveal_strlit(")");
    reveal_strlit(" OR ");
}

/// The conditions on lists of names have a value for each placeholder.
proof fn list_clauses_are_balanced<S>(f: SearchFilters<S>)
    ensures
        all_balanced(categories_clause(f)),
        all_balanced(sound_types_clause(f)),
{
    marks_of_condition_parts();
    if let Some(names) = some_texts(f.categories) {
        let middle = repeated("?"@, names.len(), ","@);
        marks_of_repeated("?"@, names.len(), ","@);
        marks_of_two("f.parent_folder IN ("@, middle);
        marks_of_two("f.parent_folder IN ("@ + middle, ")"@);
        assert(is_balanced(categories_clause(f)[0]));
    }
    if let Some(labels) = some_texts(f.sound_types) {
        let middle = repeated("f.dsp_tags LIKE ?"@, labels.len(), " OR "@);
        marks_of_repeated("f.dsp_tags LIKE ?"@, labels.len(), " OR "@);
        marks_of_two("("@, middle);
        marks_of_two("("@ + middle, ")"@);
        assert(is_balanced(sound_types_clause(f)[0]));
    }
}

/// Every condition has a value for each of its placeholders.
pub proof fn conditions_are_balanced<S>(f: SearchFilters<S>, exclude: FacetExclude)
    ensures
        all_balanced(clauses(f, exclude)),
{
    marks_of_fixed_conditions();
    list_clauses_are_balanced(f);
    let a = text_clause(f);
    let b = a + unless(exclude.folder, root_clause(f));
    let c = b + unless(exclude.folder, folder_clause(f));
    let d = c + unless(exclude.categories, categories_clause(f));
    let e = d + min_clause(f);
    let g = e + max_clause(f);
    let h = g + favorites_clause(f);
    assert(all_balanced(a));
    assert(all_balanced(b));
    assert(all_balanced(c));
    assert(all_balanced(d));
    assert(all_balanced(e));
    assert(all_balanced(g));
    assert(all_balanced(h));
}

/// Balanced conditions have as many values as placeholders in all.
proof fn balanced_total<S>(cs: Seq<Clause<S>>)
    requires
        all_balanced(cs),
    ensures
        total_marks(clause_texts(cs)) == clause_values(cs).len(),
    decreases cs.len(),
{
    if cs.len() > 0 {
        assert(is_balanced(cs[cs.len() - 1]));
        assert forall|i: int| 0 <= i < cs.drop_last().len() implies is_balanced(
            #[trigger] cs.drop_last()[i],
        ) by {
            assert(is_balanced(cs[i]));
        }
        balanced_total(cs.drop_last());
        assert(clause_texts(cs).drop_last() =~= clause_texts(cs.drop_last()));
    }
}

/// The placeholders of the conditions of a query, with what leads them.
proof fn marks_of_conditions<S>(lead: Seq<char>, f: SearchFilters<S>, exclude: FacetExclude)
    requires
        marks(lead) == 0,
    ensures
        marks(conditions_text(lead, clause_texts(clauses(f, exclude)))) == clause_values(
            clauses(f, exclude),
        ).len(),
{
    let cs = clauses(f, exclude);
    conditions_are_balanced(f, exclude);
    balanced_total(cs);
    reveal_with_fuel(marks_in, 6);
    reveal_strlit(" AND ");
    if cs.len() > 0 {
        marks_of_joined(clause_texts(cs), " AND "@);
        marks_of_two(lead, joined(clause_texts(cs), " AND "@));
    }
}

/// The join has no placeholder, nor has what leads the conditions.
proof fn marks_of_joints()
    ensures
        marks(" JOIN files_fts ON files_fts.rowid = f.id"@) == 0,
        marks(" WHERE "@) == 0,
        marks(" AND "@) == 0,
        marks(""@) == 0,
        marks(" ORDER BY "@) == 0,
        marks(" LIMIT ? OFFSET ?"@) == 2,
{
    reveal_with_fuel(marks_in, 45);
    reveal_strlit(" JOIN files_fts ON files_fts.rowid = f.id");
    reveal_strlit(" WHERE ");
    reveal_strlit(" AND ");
    reveal_strlit("");
    reveal_strlit(" ORDER BY ");
    reveal_strlit(" LIMIT ? OFFSET ?");
}

/// The columns of the facet queries have no placeholder.
proof fn marks_of_facet_queries()
    ensures
        marks("SELECT f.dsp_tags FROM files f"@) == 0,
        marks(" WHERE f.dsp_tags IS NOT NULL AND f.dsp_tags != ''"@) == 0,
        marks("SELECT f.parent_folder, COUNT(*) FROM files f"@) == 0,
        marks(" WHERE f.parent_folder IS NOT NULL AND f.parent_folder != ''"@) == 0,
        marks(" GROUP BY f.parent_folder ORDER BY f.parent_folder"@) == 0,
        marks("SELECT f.root_path, f.folder_path, COUNT(*) FROM files f"@) == 0,
        marks(" GROUP BY f.root_path, f.folder_path"@) == 0,
{
    reveal_with_fuel(marks_in, 65);
    reveal_strlit("SELECT f.dsp_tags FROM files f");
    reveal_strlit(" WHERE f.dsp_tags IS NOT NULL AND f.dsp_tags != ''");
    reveal_strlit("SELECT f.parent_folder, COUNT(*) FROM files f");
    reveal_strlit(" WHERE f.parent_folder IS NOT NULL AND f.parent_folder != ''");
    reveal_strlit(" GROUP BY f.parent_folder ORDER BY f.parent_folder");
    reveal_strlit("SELECT f.root_path, f.folder_path, COUNT(*) FROM files f");
    reveal_strlit(" GROUP BY f.root_path, f.folder_path");
}

/// The columns of a search have no placeholder.
proof fn marks_of_search_select()
    ensures
        marks(search_select()) == 0,
{
    reveal_with_fuel(marks_in, 41);
    reveal_strlit(
        "SELECT f.id, f.path, f.root_path, f.filename, f.ext, f.parent_folder, f.folder_path, f.duration_secs, f.description, f.tags, f.dsp_tags, f.favorite FROM files f",
    );
    let s = search_select();
    assert(marks_in(s, 40) == 0);
    assert(marks_in(s, 80) == 0);
    assert(marks_in(s, 120) == 0);
    assert(marks_in(s, 160) == 0);
}

/// No order has a placeholder.
proof fn marks_of_orders()
    ensures
        marks("f.filename DESC"@) == 0,
        marks("f.filename ASC"@) == 0,
        marks("f.folder_path DESC, f.filename ASC"@) == 0,
        marks("f.folder_path ASC, f.filename ASC"@) == 0,
        marks("f.duration_secs DESC, f.filename ASC"@) == 0,
        marks("f.duration_secs ASC, f.filename ASC"@) == 0,
        marks("f.dsp_tags DESC, f.filename ASC"@) == 0,
        marks("f.dsp_tags ASC, f.filename ASC"@) == 0,
        marks("f.parent_folder ASC, f.filename ASC"@) == 0,
{
    reveal_with_fuel(marks_in, 40);
    reveal_strlit("f.filename DESC");
    reveal_strlit("f.filename ASC");
    reveal_strlit("f.folder_path DESC, f.filename ASC");
    reveal_strlit("f.folder_path ASC, f.filename ASC");
    reveal_strlit("f.duration_secs DESC, f.filename ASC");
    reveal_strlit("f.duration_secs ASC, f.filename ASC");
    reveal_strlit("f.dsp_tags DESC, f.filename ASC");
    reveal_strlit("f.dsp_tags ASC, f.filename ASC");
    reveal_strlit("f.parent_folder ASC, f.filename ASC");
}

/// The placeholders of a query whose conditions follow `WHERE`.
proof fn marks_of_where_query<S>(
    select: Seq<char>,
    f: SearchFilters<S>,
    exclude: FacetExclude,
    tail: Seq<char>,
)
    requires
        marks(select) == 0,
    ensures
        marks(where_query(select, f, exclude, tail)) == clause_values(clauses(f, exclude)).len()
            + marks(tail),
{
    marks_of_joints();
    marks_of_conditions(" WHERE "@, f, exclude);
    let j = join_text(needs_join(f));
    let c = conditions_text(" WHERE "@, clause_texts(clauses(f, exclude)));
    marks_of_two(select, j);
    marks_of_two(select + j, c);
    marks_of_two(select + j + c, tail);
}

/// The placeholders of a query that has a condition of its own.
proof fn marks_of_and_query<S>(
    select: Seq<char>,
    own: Seq<char>,
    f: SearchFilters<S>,
    exclude: FacetExclude,
    tail: Seq<char>,
)
    requires
        marks(select) == 0,
        marks(own) == 0,
        marks(tail) == 0,
    ensures
        marks(and_query(select, own, f, exclude, tail)) == clause_values(
            clauses(f, exclude),
        ).len(),
{
    marks_of_joints();
    marks_of_conditions(" AND "@, f, exclude);
    let j = join_text(needs_join(f));
    let c = conditions_text(" AND "@, clause_texts(clauses(f, exclude)));
    marks_of_two(select, j);
    marks_of_two(select + j, own);
    marks_of_two(select + j + own, c);
    marks_of_two(select + j + own + c, tail);
}

/// Every query has a value for each of its placeholders, and none besides.
pub proof fn queries_are_balanced<S>(f: SearchFilters<S>)
    ensures
        marks(search_text(f)) == search_values(f).len(),
        marks(sound_types_text(f)) == clause_values(clauses(f, exclude_sound_types())).len(),
        marks(categories_text(f)) == clause_values(clauses(f, exclude_categories())).len(),
        marks(folder_counts_text(f)) == clause_values(clauses(f, exclude_folder())).len(),
{
    marks_of_joints();
    marks_of_orders();
    marks_of_search_select();
    marks_of_facet_queries();
    let order = order_text(opt_text(f.sort_by), opt_text(f.sort_dir));
    let tail = " ORDER BY "@ + order + " LIMIT ? OFFSET ?"@;
    marks_of_two(" ORDER BY "@, order);
    marks_of_two(" ORDER BY "@ + order, " LIMIT ? OFFSET ?"@);
    marks_of_where_query(search_select(), f, exclude_nothing(), tail);
    marks_of_and_query(
        "SELECT f.dsp_tags FROM files f"@,
        " WHERE f.dsp_tags IS NOT NULL AND f.dsp_tags != ''"@,
        f,
        exclude_sound_types(),
        ""@,
    );
    marks_of_and_query(
        "SELECT f.parent_folder, COUNT(*) FROM files f"@,
        " WHERE f.parent_folder IS NOT NULL AND f.parent_folder != ''"@,
        f,
        exclude_categories(),
        " GROUP BY f.parent_folder ORDER BY f.parent_folder"@,
    );
    marks_of_where_query(
        "SELECT f.root_path, f.folder_path, COUNT(*) FROM files f"@,
        f,
        exclude_folder(),
        " GROUP BY f.root_path, f.folder_path"@,
    );
}

} // verus!
