//! Laws on searches: what the conditions find.

use vstd::prelude::*;

use crate::laws::lists::in_either;
use crate::query::{
    categories_clause, clauses, favorites_clause, folder_clause, fts_query, label_pattern,
    max_clause, min_clause, root_clause, sound_types_clause, text_clause, unless, wanted_fts,
    Clause, FacetExclude, SearchFilters, ValueView,
};
use crate::tags::{packed, packed_text_shows_its_labels};
use crate::text::{
    ascii_lower, equal_ignoring_ascii_case, is_letter_or_digit, joined, occurs_at, opt_text, texts,
};
use crate::words::{text_with_words_asks_for_them, wordless_text_asks_for_nothing};

verus! {

// ---------------------------------------------------------------------------
// Patterns
// ---------------------------------------------------------------------------

/// What `LIKE` matches: `%` stands for any characters, `_` for any one, and any
/// other character for itself, in either case within ASCII.
pub open spec fn like(pattern: Seq<char>, text: Seq<char>) -> bool
    decreases pattern.len(), text.len(),
{
    if pattern.len() == 0 {
        text.len() == 0
    } else if pattern[0] == '%' {
        like(pattern.drop_first(), text) || (text.len() > 0 && like(pattern, text.drop_first()))
    } else {
        text.len() > 0 && (pattern[0] == '_' || ascii_lower(pattern[0]) == ascii_lower(text[0]))
            && like(pattern.drop_first(), text.drop_first())
    }
}

/// Whether a text stands for itself in a pattern.
pub open spec fn is_plain(s: Seq<char>) -> bool {
    forall|i: int| 0 <= i < s.len() ==> #[trigger] s[i] != '%' && s[i] != '_'
}

/// A text in lower case within ASCII.
pub open spec fn lowered(s: Seq<char>) -> Seq<char> {
    s.map_values(|c: char| ascii_lower(c))
}

/// A plain text at the front of a pattern has to be at the front of the text.
proof fn like_plain_front(front: Seq<char>, rest: Seq<char>, text: Seq<char>)
    requires
        is_plain(front),
    ensures
        like(front + rest, text) <==> front.len() <= text.len() && lowered(front) == lowered(
            text.take(front.len() as int),
        ) && like(rest, text.skip(front.len() as int)),
    decreases front.len(),
{
    let whole = front + rest;
    if front.len() == 0 {
        assert(whole =~= rest);
        assert(text.skip(0) =~= text);
        assert(lowered(front) =~= lowered(text.take(0)));
    } else {
        let tail = front.drop_first();
        assert(front[0] != '%' && front[0] != '_');
        assert forall|i: int| 0 <= i < tail.len() implies #[trigger] tail[i] != '%' && tail[i]
            != '_' by {
            assert(front[i + 1] != '%' && front[i + 1] != '_');
        }
        assert(whole.drop_first() =~= tail + rest);
        if text.len() > 0 {
            let after = text.drop_first();
            like_plain_front(tail, rest, after);
            if front.len() <= text.len() {
                assert(after.skip(tail.len() as int) =~= text.skip(front.len() as int));
                let x = lowered(front);
                let y = lowered(text.take(front.len() as int));
                let u = lowered(tail);
                let v = lowered(after.take(tail.len() as int));
                assert(x =~= seq![ascii_lower(front[0])] + u);
                assert(y =~= seq![ascii_lower(text[0])] + v);
                assert(x[0] == ascii_lower(front[0]) && y[0] == ascii_lower(text[0]));
                assert(u =~= x.drop_first() && v =~= y.drop_first());
            }
        }
    }
}

/// A lone `%` matches everything.
proof fn like_anything(text: Seq<char>)
    ensures
        like(seq!['%'], text),
    decreases text.len(),
{
    assert(seq!['%'].drop_first() =~= Seq::empty());
    assert(like(seq!['%'].drop_first(), text) <==> text.len() == 0);
    if text.len() > 0 {
        like_anything(text.drop_first());
    }
}

/// A `%` at the front lets the rest match from anywhere on.
proof fn like_from_anywhere(rest: Seq<char>, text: Seq<char>)
    ensures
        like(seq!['%'] + rest, text) <==> exists|i: int|
            0 <= i <= text.len() && like(rest, #[trigger] text.skip(i)),
    decreases text.len(),
{
    let whole = seq!['%'] + rest;
    assert(whole.drop_first() =~= rest);
    assert(text.skip(0) =~= text);
    if text.len() > 0 {
        let after = text.drop_first();
        like_from_anywhere(rest, after);
        if like(whole, after) {
            let i = choose|i: int| 0 <= i <= after.len() && like(rest, #[trigger] after.skip(i));
            assert(after.skip(i) =~= text.skip(i + 1));
        }
        if exists|i: int| 0 <= i <= text.len() && like(rest, #[trigger] text.skip(i)) {
            let i = choose|i: int| 0 <= i <= text.len() && like(rest, #[trigger] text.skip(i));
            if i > 0 {
                assert(after.skip(i - 1) =~= text.skip(i));
            }
        }
    } else if exists|i: int| 0 <= i <= text.len() && like(rest, #[trigger] text.skip(i)) {
        let i = choose|i: int| 0 <= i <= text.len() && like(rest, #[trigger] text.skip(i));
        assert(i == 0);
    }
}

/// A plain text between two `%` is found wherever it stands.
proof fn like_somewhere(word: Seq<char>, text: Seq<char>)
    requires
        is_plain(word),
    ensures
        like(seq!['%'] + word + seq!['%'], text) <==> exists|i: int|
            occurs_at(lowered(text), lowered(word), i),
{
    let rest = word + seq!['%'];
    let big = lowered(text);
    let pat = lowered(word);
    assert(seq!['%'] + word + seq!['%'] =~= seq!['%'] + rest);
    like_from_anywhere(rest, text);
    if like(seq!['%'] + rest, text) {
        let i = choose|i: int| 0 <= i <= text.len() && like(rest, #[trigger] text.skip(i));
        like_plain_front(word, seq!['%'], text.skip(i));
        assert(big.subrange(i, i + word.len()) =~= lowered(text.skip(i).take(word.len() as int)));
        assert(occurs_at(big, pat, i));
    }
    if exists|i: int| occurs_at(big, pat, i) {
        let i = choose|i: int| occurs_at(big, pat, i);
        like_plain_front(word, seq!['%'], text.skip(i));
        assert(big.subrange(i, i + word.len()) =~= lowered(text.skip(i).take(word.len() as int)));
        like_anything(text.skip(i).skip(word.len() as int));
        assert(like(rest, text.skip(i)));
    }
}

/// Lowering goes through joining.
proof fn lowered_joined(parts: Seq<Seq<char>>)
    ensures
        lowered(joined(parts, seq![','])) == joined(
            parts.map_values(|p: Seq<char>| lowered(p)),
            seq![','],
        ),
    decreases parts.len(),
{
    let low = parts.map_values(|p: Seq<char>| lowered(p));
    if parts.len() > 1 {
        lowered_joined(parts.drop_last());
        assert(low.drop_last() =~= parts.drop_last().map_values(|p: Seq<char>| lowered(p)));
        assert(lowered(joined(parts, seq![','])) =~= lowered(joined(parts.drop_last(), seq![',']))
            + seq![','] + lowered(parts.last()));
    } else if parts.len() == 0 {
        assert(lowered(joined(parts, seq![','])) =~= joined(low, seq![',']));
    }
}

/// Lowering a text keeps commas as they are and makes no new ones.
proof fn lowered_commas(s: Seq<char>)
    ensures
        lowered(s).contains(',') <==> s.contains(','),
{
    if s.contains(',') {
        let k = s.index_of(',');
        assert(lowered(s)[k] == ',');
    }
    if lowered(s).contains(',') {
        let k = lowered(s).index_of(',');
        assert(s[k] == ',');
    }
}

/// The pattern that is bound for a sound type matches the packed labels of a
/// file exactly when the sound type is one of them. (`LIKE` does not look at the
/// case of ASCII letters.)
pub proof fn pattern_matches_exactly_its_label(labels: Seq<Seq<char>>, label: Seq<char>)
    requires
        labels.len() > 0,
        forall|i: int|
            0 <= i < labels.len() ==> (#[trigger] labels[i]).len() > 0 && !labels[i].contains(','),
        label.len() > 0,
        !label.contains(','),
        is_plain(label),
    ensures
        like(label_pattern(label), packed(labels)->0) <==> exists|k: int|
            0 <= k < labels.len() && equal_ignoring_ascii_case(#[trigger] labels[k], label),
{
    let word = seq![','] + label + seq![','];
    let text = packed(labels)->0;
    reveal_strlit("%,");
    reveal_strlit(",%");
    assert(label_pattern(label) =~= seq!['%'] + word + seq!['%']);
    assert forall|i: int| 0 <= i < word.len() implies #[trigger] word[i] != '%' && word[i] != '_' by {
        if 1 <= i <= label.len() {
            assert(word[i] == label[i - 1]);
        }
    }
    like_somewhere(word, text);
    let low = labels.map_values(|p: Seq<char>| lowered(p));
    assert forall|i: int| 0 <= i < low.len() implies (#[trigger] low[i]).len() > 0
        && !low[i].contains(',') by {
        assert(labels[i].len() > 0 && !labels[i].contains(','));
        lowered_commas(labels[i]);
    }
    lowered_commas(label);
    packed_text_shows_its_labels(low, lowered(label));
    lowered_joined(labels);
    assert(packed(low)->0 =~= lowered(text));
    assert(seq![','] + lowered(label) + seq![','] =~= lowered(word));
    if low.contains(lowered(label)) {
        let k = low.index_of(lowered(label));
        assert(equal_ignoring_ascii_case(labels[k], label));
    }
    if exists|k: int|
        0 <= k < labels.len() && equal_ignoring_ascii_case(#[trigger] labels[k], label) {
        let k = choose|k: int|
            0 <= k < labels.len() && equal_ignoring_ascii_case(#[trigger] labels[k], label);
        assert(low[k] == lowered(label));
    }
}

/// The second pattern of the folder condition matches the folders below the
/// chosen one: those whose path goes on behind it with a separator.
pub proof fn folder_pattern_matches_what_lies_below(folder: Seq<char>, path: Seq<char>)
    requires
        is_plain(folder),
    ensures
        like(folder + "/%"@, path) <==> path.len() > folder.len() && equal_ignoring_ascii_case(
            path.take(folder.len() as int),
            folder,
        ) && path[folder.len() as int] == '/',
{
    reveal_strlit("/%");
    let front = folder.push('/');
    let n = front.len() as int;
    assert(folder + "/%"@ =~= front + seq!['%']);
    assert forall|i: int| 0 <= i < front.len() implies #[trigger] front[i] != '%' && front[i]
        != '_' by {
        if i < folder.len() {
            assert(front[i] == folder[i]);
        }
    }
    like_plain_front(front, seq!['%'], path);
    if n <= path.len() {
        like_anything(path.skip(n));
        let a = lowered(front);
        let b = lowered(path.take(n));
        let x = lowered(folder);
        let y = lowered(path.take(n - 1));
        assert(a =~= x.push('/'));
        assert(b =~= y.push(ascii_lower(path[n - 1])));
        assert(a.drop_last() =~= x && b.drop_last() =~= y);
        assert(a.last() == '/' && b.last() == ascii_lower(path[n - 1]));
        assert(ascii_lower(path[n - 1]) == '/' <==> path[n - 1] == '/');
        assert(equal_ignoring_ascii_case(path.take(n - 1), folder) <==> y == x);
    }
}

// ---------------------------------------------------------------------------
// Conditions
// ---------------------------------------------------------------------------

/// `item` so many times, with `sep` between neighbours.
pub open spec fn times(item: Seq<char>, count: nat, sep: Seq<char>) -> Seq<char> {
    joined(Seq::new(count, |i: int| item), sep)
}

/// The condition on a list of sound types.
pub open spec fn is_sound_types_condition<S>(c: Clause<S>, chosen: Seq<Seq<char>>) -> bool {
    &&& c.sql == seq!['('] + times("f.dsp_tags LIKE ?"@, chosen.len(), " OR "@) + seq![')']
    &&& c.values.len() == chosen.len()
    &&& forall|k: int|
        0 <= k < chosen.len() ==> #[trigger] c.values[k] == ValueView::<S>::Text(
            seq!['%', ','] + chosen[k] + seq![',', '%'],
        )
}

/// The condition on a list of categories.
pub open spec fn is_categories_condition<S>(c: Clause<S>, chosen: Seq<Seq<char>>) -> bool {
    &&& c.sql == "f.parent_folder IN ("@ + times(seq!['?'], chosen.len(), seq![',']) + seq![')']
    &&& c.values.len() == chosen.len()
    &&& forall|k: int|
        0 <= k < chosen.len() ==> #[trigger] c.values[k] == ValueView::<S>::Text(chosen[k])
}

/// Whether a text filter is set.
pub open spec fn is_set(t: Option<String>) -> bool {
    t is Some && (t->0)@.len() > 0
}

/// Whether a list filter is set.
pub open spec fn is_listed(t: Option<Vec<String>>) -> bool {
    t is Some && (t->0)@.len() > 0
}

/// Whether the search text has a letter or a digit.
pub open spec fn has_words(t: Option<String>) -> bool {
    t is Some && exists|i: int|
        0 <= i < (t->0)@.len() && is_letter_or_digit(#[trigger] (t->0)@[i])
}

/// One for a filter that is set.
pub open spec fn one_if(b: bool) -> int {
    if b {
        1
    } else {
        0
    }
}

/// Every filter that is set, and not left out, adds its condition with its
/// values, and there are no other conditions.
pub proof fn every_filter_has_its_condition<S>(f: SearchFilters<S>, e: FacetExclude)
    ensures
        clauses(f, e).len() == one_if(has_words(f.text)) + one_if(!e.folder && is_set(f.root_path))
            + one_if(!e.folder && is_set(f.folder_path)) + one_if(
            !e.categories && is_listed(f.categories),
        ) + one_if(f.min_secs is Some) + one_if(f.max_secs is Some) + one_if(
            f.favorites_only == Some(true),
        ) + one_if(!e.sound_types && is_listed(f.sound_types)),
        has_words(f.text) ==> clauses(f, e).contains(
            Clause {
                sql: "files_fts MATCH ?"@,
                values: seq![ValueView::Text(fts_query((f.text->0)@))],
            },
        ),
        !e.folder && is_set(f.root_path) ==> clauses(f, e).contains(
            Clause {
                sql: "f.root_path = ?"@,
                values: seq![ValueView::Text((f.root_path->0)@)],
            },
        ),
        !e.folder && is_set(f.folder_path) ==> clauses(f, e).contains(
            Clause {
                sql: "(f.folder_path = ? OR f.folder_path LIKE ?)"@,
                values: seq![
                    ValueView::Text((f.folder_path->0)@),
                    ValueView::Text((f.folder_path->0)@ + "/%"@),
                ],
            },
        ),
        !e.categories && is_listed(f.categories) ==> exists|c: Clause<S>| #[trigger]
            clauses(f, e).contains(c) && is_categories_condition(c, texts((f.categories->0)@)),
        f.min_secs is Some ==> clauses(f, e).contains(
            Clause {
                sql: "f.duration_secs >= ?"@,
                values: seq![ValueView::Seconds(f.min_secs->0)],
            },
        ),
        f.max_secs is Some ==> clauses(f, e).contains(
            Clause {
                sql: "f.duration_secs <= ?"@,
                values: seq![ValueView::Seconds(f.max_secs->0)],
            },
        ),
        f.favorites_only == Some(true) ==> clauses(f, e).contains(
            Clause { sql: "f.favorite = 1"@, values: Seq::empty() },
        ),
        !e.sound_types && is_listed(f.sound_types) ==> exists|c: Clause<S>| #[trigger]
            clauses(f, e).contains(c) && is_sound_types_condition(c, texts((f.sound_types->0)@)),
{
    words_decide(f.text);
    plain_conditions(f, e);
    list_conditions(f, e);
}

/// The conditions of a search are those of its filters, one filter after the
/// other.
proof fn conditions_of_each_filter<S>(f: SearchFilters<S>, e: FacetExclude, c: Clause<S>)
    ensures
        clauses(f, e).contains(c) <==> text_clause(f).contains(c) || unless(
            e.folder,
            root_clause(f),
        ).contains(c) || unless(e.folder, folder_clause(f)).contains(c) || unless(
            e.categories,
            categories_clause(f),
        ).contains(c) || min_clause(f).contains(c) || max_clause(f).contains(c) || favorites_clause(
            f,
        ).contains(c) || unless(e.sound_types, sound_types_clause(f)).contains(c),
        clauses(f, e).len() == text_clause(f).len() + unless(e.folder, root_clause(f)).len()
            + unless(e.folder, folder_clause(f)).len() + unless(
            e.categories,
            categories_clause(f),
        ).len() + min_clause(f).len() + max_clause(f).len() + favorites_clause(f).len() + unless(
            e.sound_types,
            sound_types_clause(f),
        ).len(),
{
    let p0 = text_clause(f);
    let p1 = unless(e.folder, root_clause(f));
    let p2 = unless(e.folder, folder_clause(f));
    let p3 = unless(e.categories, categories_clause(f));
    let p4 = min_clause(f);
    let p5 = max_clause(f);
    let p6 = favorites_clause(f);
    let p7 = unless(e.sound_types, sound_types_clause(f));
    in_either(p0, p1, c);
    in_either(p0 + p1, p2, c);
    in_either(p0 + p1 + p2, p3, c);
    in_either(p0 + p1 + p2 + p3, p4, c);
    in_either(p0 + p1 + p2 + p3 + p4, p5, c);
    in_either(p0 + p1 + p2 + p3 + p4 + p5, p6, c);
    in_either(p0 + p1 + p2 + p3 + p4 + p5 + p6, p7, c);
}

/// The conditions with a fixed text, and how many conditions there are.
proof fn plain_conditions<S>(f: SearchFilters<S>, e: FacetExclude)
    ensures
        clauses(f, e).len() == one_if(has_words(f.text)) + one_if(!e.folder && is_set(f.root_path))
            + one_if(!e.folder && is_set(f.folder_path)) + one_if(
            !e.categories && is_listed(f.categories),
        ) + one_if(f.min_secs is Some) + one_if(f.max_secs is Some) + one_if(
            f.favorites_only == Some(true),
        ) + one_if(!e.sound_types && is_listed(f.sound_types)),
        has_words(f.text) ==> clauses(f, e).contains(
            Clause {
                sql: "files_fts MATCH ?"@,
                values: seq![ValueView::Text(fts_query((f.text->0)@))],
            },
        ),
        !e.folder && is_set(f.root_path) ==> clauses(f, e).contains(
            Clause {
                sql: "f.root_path = ?"@,
                values: seq![ValueView::Text((f.root_path->0)@)],
            },
        ),
        !e.folder && is_set(f.folder_path) ==> clauses(f, e).contains(
            Clause {
                sql: "(f.folder_path = ? OR f.folder_path LIKE ?)"@,
                values: seq![
                    ValueView::Text((f.folder_path->0)@),
                    ValueView::Text((f.folder_path->0)@ + "/%"@),
                ],
            },
        ),
        f.min_secs is Some ==> clauses(f, e).contains(
            Clause {
                sql: "f.duration_secs >= ?"@,
                values: seq![ValueView::Seconds(f.min_secs->0)],
            },
        ),
        f.max_secs is Some ==> clauses(f, e).contains(
            Clause {
                sql: "f.duration_secs <= ?"@,
                values: seq![ValueView::Seconds(f.max_secs->0)],
            },
        ),
        f.favorites_only == Some(true) ==> clauses(f, e).contains(
            Clause { sql: "f.favorite = 1"@, values: Seq::empty() },
        ),
{
    words_decide(f.text);
    if has_words(f.text) {
        let c = text_clause(f)[0];
        assert(text_clause(f).contains(c));
        conditions_of_each_filter(f, e, c);
    }
    if !e.folder && is_set(f.root_path) {
        let c = root_clause(f)[0];
        assert(root_clause(f).contains(c));
        conditions_of_each_filter(f, e, c);
    }
    if !e.folder && is_set(f.folder_path) {
        let c = folder_clause(f)[0];
        assert(folder_clause(f).contains(c));
        conditions_of_each_filter(f, e, c);
    }
    if f.min_secs is Some {
        let c = min_clause(f)[0];
        assert(min_clause(f).contains(c));
        conditions_of_each_filter(f, e, c);
    }
    if f.max_secs is Some {
        let c = max_clause(f)[0];
        assert(max_clause(f).contains(c));
        conditions_of_each_filter(f, e, c);
    }
    if f.favorites_only == Some(true) {
        let c = favorites_clause(f)[0];
        assert(favorites_clause(f).contains(c));
        conditions_of_each_filter(f, e, c);
    }
    conditions_of_each_filter(f, e, Clause { sql: Seq::empty(), values: Seq::empty() });
}

/// The conditions on lists.
proof fn list_conditions<S>(f: SearchFilters<S>, e: FacetExclude)
    ensures
        !e.categories && is_listed(f.categories) ==> exists|c: Clause<S>| #[trigger]
            clauses(f, e).contains(c) && is_categories_condition(c, texts((f.categories->0)@)),
        !e.sound_types && is_listed(f.sound_types) ==> exists|c: Clause<S>| #[trigger]
            clauses(f, e).contains(c) && is_sound_types_condition(c, texts((f.sound_types->0)@)),
{
    reveal_strlit("(");
    reveal_strlit(")");
    reveal_strlit("?");
    reveal_strlit(",");
    reveal_strlit("%,");
    reveal_strlit(",%");
    assert("("@ =~= seq!['('] && ")"@ =~= seq![')'] && "?"@ =~= seq!['?'] && ","@ =~= seq![',']);
    assert("%,"@ =~= seq!['%', ','] && ",%"@ =~= seq![',', '%']);
    if !e.categories && is_listed(f.categories) {
        let c = categories_clause(f)[0];
        assert(categories_clause(f).contains(c));
        conditions_of_each_filter(f, e, c);
        assert(is_categories_condition(c, texts((f.categories->0)@)));
    }
    if !e.sound_types && is_listed(f.sound_types) {
        let c = sound_types_clause(f)[0];
        assert(sound_types_clause(f).contains(c));
        conditions_of_each_filter(f, e, c);
        assert(is_sound_types_condition(c, texts((f.sound_types->0)@)));
    }
}

/// A search text asks for something exactly when it has a letter or a digit.
proof fn words_decide(t: Option<String>)
    ensures
        wanted_fts(opt_text(t)) is Some <==> has_words(t),
        wanted_fts(opt_text(t)) is Some ==> wanted_fts(opt_text(t)) == Some(fts_query((t->0)@)),
{
    if let Some(s) = t {
        if has_words(t) {
            text_with_words_asks_for_them(s@);
        } else {
            wordless_text_asks_for_nothing(s@);
        }
    }
}

/// A search for sound types, however many, finds the files that have one of
/// them: among its conditions is one that is bound, for each sound type chosen,
/// to a pattern that matches the labels of a file exactly when the sound type is
/// one of them.
pub proof fn search_finds_the_chosen_sound_types<S>(
    f: SearchFilters<S>,
    e: FacetExclude,
    labels: Seq<Seq<char>>,
)
    requires
        !e.sound_types,
        is_listed(f.sound_types),
        labels.len() > 0,
        forall|i: int|
            0 <= i < labels.len() ==> (#[trigger] labels[i]).len() > 0 && !labels[i].contains(','),
        forall|k: int|
            0 <= k < (f.sound_types->0)@.len() ==> (#[trigger] (f.sound_types->0)@[k])@.len() > 0
                && !(f.sound_types->0)@[k]@.contains(',') && is_plain((f.sound_types->0)@[k]@),
    ensures
        exists|c: Clause<S>| #[trigger]
            clauses(f, e).contains(c) && is_sound_types_condition(c, texts((f.sound_types->0)@))
                && (forall|k: int|
                0 <= k < c.values.len() ==> (#[trigger] c.values[k] matches ValueView::Text(p)
                    && (like(p, packed(labels)->0) <==> exists|m: int|
                    0 <= m < labels.len() && equal_ignoring_ascii_case(
                        #[trigger] labels[m],
                        (f.sound_types->0)@[k]@,
                    )))),
{
    every_filter_has_its_condition(f, e);
    let chosen = texts((f.sound_types->0)@);
    let c = choose|c: Clause<S>| #[trigger]
        clauses(f, e).contains(c) && is_sound_types_condition(c, chosen);
    assert forall|k: int| 0 <= k < c.values.len() implies (#[trigger] c.values[k] matches
        ValueView::Text(p) && (like(p, packed(labels)->0) <==> exists|m: int|
        0 <= m < labels.len() && equal_ignoring_ascii_case(
            #[trigger] labels[m],
            (f.sound_types->0)@[k]@,
        ))) by {
        let label = (f.sound_types->0)@[k]@;
        assert(chosen[k] == label);
        pattern_matches_exactly_its_label(labels, label);
        reveal_strlit("%,");
        reveal_strlit(",%");
        assert(label_pattern(label) =~= seq!['%', ','] + label + seq![',', '%']);
    }
}

} // verus!
