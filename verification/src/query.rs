//! Searching the index: from the filters that are set to SQL text with bound
//! values.
//!
//! Search and every facet count share one set of conditions, so that scoping by
//! folder, category, sound type and search text stays the same in all of them.
//! No text of a filter ever becomes part of the SQL; it is only ever bound.

use vstd::prelude::*;

use crate::text::{
    equal_ignoring_ascii_case, is_letter_or_digit, join, joined, opt_str, opt_text, pieces,
    same_ignoring_ascii_case, split, texts, to_chars, trim, trimmed, Separator,
};

verus! {

// ---------------------------------------------------------------------------
// Filters
// ---------------------------------------------------------------------------

/// What a search asks for. `S` is the type of a duration in seconds, which is
/// handed on as it is.
pub struct SearchFilters<S> {
    pub text: Option<String>,
    pub root_path: Option<String>,
    pub folder_path: Option<String>,
    pub categories: Option<Vec<String>>,
    pub min_secs: Option<S>,
    pub max_secs: Option<S>,
    pub favorites_only: Option<bool>,
    pub sound_types: Option<Vec<String>>,
    pub limit: Option<i64>,
    pub offset: Option<i64>,
    pub sort_by: Option<String>,
    pub sort_dir: Option<String>,
}

/// Which facet a query leaves out of its own conditions. A facet ignores its
/// own selection, so that choosing one value does not hide the others, and
/// respects every other filter.
#[derive(Clone, Copy, Debug, PartialEq, Eq, Structural)]
pub struct FacetExclude {
    pub categories: bool,
    pub sound_types: bool,
    pub folder: bool,
}

impl Default for FacetExclude {
    /// Nothing is left out.
    fn default() -> (r: FacetExclude)
        ensures
            r == (FacetExclude { categories: false, sound_types: false, folder: false }),
    {
        FacetExclude { categories: false, sound_types: false, folder: false }
    }
}

/// A value bound to a placeholder.
pub enum SqlValue<S> {
    Text(String),
    Seconds(S),
    Integer(i64),
}

/// The contents of an `SqlValue`.
pub enum ValueView<S> {
    Text(Seq<char>),
    Seconds(S),
    Integer(i64),
}

impl<S> View for SqlValue<S> {
    type V = ValueView<S>;

    open spec fn view(&self) -> ValueView<S> {
        match self {
            SqlValue::Text(t) => ValueView::Text(t@),
            SqlValue::Seconds(s) => ValueView::Seconds(*s),
            SqlValue::Integer(i) => ValueView::Integer(*i),
        }
    }
}

/// The contents of a list of bound values.
pub open spec fn value_views<S>(values: Seq<SqlValue<S>>) -> Seq<ValueView<S>> {
    values.map_values(|v: SqlValue<S>| v@)
}

/// The conditions of a query, and the values for their placeholders in order.
pub struct Conditions<S> {
    /// Whether a condition speaks of the full-text index.
    pub needs_fts: bool,
    pub conditions: Vec<String>,
    pub params: Vec<SqlValue<S>>,
}

/// A query, and the values for its placeholders in order.
pub struct Query<S> {
    pub sql: String,
    pub params: Vec<SqlValue<S>>,
}

// ---------------------------------------------------------------------------
// Full-text queries
// ---------------------------------------------------------------------------

/// The letters and digits of a word.
pub open spec fn cleaned(word: Seq<char>) -> Seq<char>
    decreases word.len(),
{
    if word.len() == 0 {
        Seq::empty()
    } else if is_letter_or_digit(word.last()) {
        cleaned(word.drop_last()).push(word.last())
    } else {
        cleaned(word.drop_last())
    }
}

/// A prefix search for one word: the word in quotes, and a star.
pub open spec fn prefix_term(word: Seq<char>) -> Seq<char> {
    seq!['"'] + word + seq!['"', '*']
}

/// A prefix search for each word that has a letter or a digit.
pub open spec fn prefix_terms(words: Seq<Seq<char>>) -> Seq<Seq<char>>
    decreases words.len(),
{
    if words.len() == 0 {
        Seq::empty()
    } else {
        let before = prefix_terms(words.drop_last());
        if cleaned(words.last()).len() > 0 {
            before.push(prefix_term(cleaned(words.last())))
        } else {
            before
        }
    }
}

/// The full-text query for a search text.
pub open spec fn fts_query(text: Seq<char>) -> Seq<char> {
    joined(prefix_terms(pieces(text, Separator::WhiteSpace)), seq![' '])
}

/// The letters and digits of a word.
fn clean(word: &str) -> (r: String)
    ensures
        r@ == cleaned(word@),
{
    let cs: Vec<char> = to_chars(word);
    let mut r = String::new();
    let mut i: usize = 0;
    while i < cs.len()
        invariant
            i <= cs@.len(),
            r@ == cleaned(cs@.take(i as int)),
        decreases cs@.len() - i,
    {
        assert(cs@.take(i + 1).drop_last() =~= cs@.take(i as int));
        if cs[i].is_alphanumeric() {
            r.push(cs[i]);
        }
        i += 1;
    }
    assert(cs@.take(cs@.len() as int) =~= cs@);
    r
}

/// The full-text query for a search text: a prefix search for each of its
/// words, with everything but letters and digits taken out.
pub fn sanitize_fts_query(text: &str) -> (r: String)
    ensures
        r@ == fts_query(text@),
{
    let words: Vec<String> = split(text, Separator::WhiteSpace);
    let ghost all = texts(words@);
    let mut terms: Vec<String> = Vec::new();
    let mut i: usize = 0;
    assert(texts(terms@) =~= prefix_terms(all.take(0)));
    while i < words.len()
        invariant
            all == texts(words@),
            i <= words@.len(),
            texts(terms@) == prefix_terms(all.take(i as int)),
        decreases words@.len() - i,
    {
        assert(all.take(i + 1).drop_last() =~= all.take(i as int));
        assert(all.take(i + 1).last() == words@[i as int]@);
        let word = clean(words[i].as_str());
        if !word.as_str().is_empty() {
            let mut term = String::new();
            term.push('"');
            term.append(word.as_str());
            term.push('"');
            term.push('*');
            assert(term@ =~= prefix_term(word@));
            let ghost before = texts(terms@);
            let ghost added = term@;
            terms.push(term);
            assert(texts(terms@) =~= before.push(added));
        }
        i += 1;
    }
    assert(all.take(all.len() as int) =~= all);
    proof {
        reveal_strlit(" ");
        assert(" "@ =~= seq![' ']);
    }
    join(&terms, " ")
}

// ---------------------------------------------------------------------------
// Order and page
// ---------------------------------------------------------------------------

/// Whether the descending order is asked for.
pub open spec fn is_descending(sort_dir: Option<Seq<char>>) -> bool {
    match sort_dir {
        Some(d) => equal_ignoring_ascii_case(d, "desc"@),
        None => false,
    }
}

/// The `ORDER BY` text for a column that the user chose. Every choice maps to a
/// fixed text, and one that is not known to the default.
pub open spec fn order_text(sort_by: Option<Seq<char>>, sort_dir: Option<Seq<char>>) -> Seq<char> {
    let desc = is_descending(sort_dir);
    if sort_by == Some("name"@) {
        if desc {
            "f.filename DESC"@
        } else {
            "f.filename ASC"@
        }
    } else if sort_by == Some("folder"@) {
        if desc {
            "f.folder_path DESC, f.filename ASC"@
        } else {
            "f.folder_path ASC, f.filename ASC"@
        }
    } else if sort_by == Some("duration"@) {
        if desc {
            "f.duration_secs DESC, f.filename ASC"@
        } else {
            "f.duration_secs ASC, f.filename ASC"@
        }
    } else if sort_by == Some("type"@) {
        if desc {
            "f.dsp_tags DESC, f.filename ASC"@
        } else {
            "f.dsp_tags ASC, f.filename ASC"@
        }
    } else {
        "f.parent_folder ASC, f.filename ASC"@
    }
}

/// The `ORDER BY` text for a column that the user chose.
pub fn sort_clause(sort_by: Option<&str>, sort_dir: Option<&str>) -> (r: &'static str)
    ensures
        r@ == order_text(opt_str(sort_by), opt_str(sort_dir)),
{
    let desc: bool = match sort_dir {
        Some(d) => same_ignoring_ascii_case(d, "desc"),
        None => false,
    };
    let by = match sort_by {
        Some(b) => b,
        None => return "f.parent_folder ASC, f.filename ASC",
    };
    if *by == *"name" {
        if desc {
            "f.filename DESC"
        } else {
            "f.filename ASC"
        }
    } else if *by == *"folder" {
        if desc {
            "f.folder_path DESC, f.filename ASC"
        } else {
            "f.folder_path ASC, f.filename ASC"
        }
    } else if *by == *"duration" {
        if desc {
            "f.duration_secs DESC, f.filename ASC"
        } else {
            "f.duration_secs ASC, f.filename ASC"
        }
    } else if *by == *"type" {
        if desc {
            "f.dsp_tags DESC, f.filename ASC"
        } else {
            "f.dsp_tags ASC, f.filename ASC"
        }
    } else {
        "f.parent_folder ASC, f.filename ASC"
    }
}

/// How many rows a page has: at least one, at most a thousand, and two hundred
/// when nothing is asked for.
pub open spec fn page_limit(limit: Option<i64>) -> i64 {
    match limit {
        Some(n) => if n < 1 {
            1
        } else if n > 1000 {
            1000
        } else {
            n
        },
        None => 200,
    }
}

/// How many rows come before a page.
pub open spec fn page_offset(offset: Option<i64>) -> i64 {
    match offset {
        Some(n) => if n < 0 {
            0
        } else {
            n
        },
        None => 0,
    }
}

/// The number of rows of a page and of those before it.
pub fn page(limit: Option<i64>, offset: Option<i64>) -> (r: (i64, i64))
    ensures
        r == (page_limit(limit), page_offset(offset)),
{
    let count: i64 = match limit {
        Some(n) => if n < 1 {
            1
        } else if n > 1000 {
            1000
        } else {
            n
        },
        None => 200,
    };
    let before: i64 = match offset {
        Some(n) => if n < 0 {
            0
        } else {
            n
        },
        None => 0,
    };
    (count, before)
}

// ---------------------------------------------------------------------------
// Conditions
// ---------------------------------------------------------------------------

/// One condition and the values for its placeholders.
#[verifier::ext_equal]
pub struct Clause<S> {
    pub sql: Seq<char>,
    pub values: Seq<ValueView<S>>,
}

/// The same text a number of times, with a separator between neighbours.
pub open spec fn repeated(item: Seq<char>, count: nat, sep: Seq<char>) -> Seq<char> {
    joined(Seq::new(count, |i: int| item), sep)
}

/// The contents of an optional list that is not empty.
pub open spec fn some_texts(list: Option<Vec<String>>) -> Option<Seq<Seq<char>>> {
    match list {
        Some(l) => if l@.len() > 0 {
            Some(texts(l@))
        } else {
            None
        },
        None => None,
    }
}

/// The contents of an optional text that is not empty.
pub open spec fn some_text(text: Option<String>) -> Option<Seq<char>> {
    match text {
        Some(t) => if t@.len() > 0 {
            Some(t@)
        } else {
            None
        },
        None => None,
    }
}

/// The full-text query of a search, when its text asks for anything.
pub open spec fn wanted_fts(text: Option<Seq<char>>) -> Option<Seq<char>> {
    match text {
        Some(t) => if trimmed(t).len() > 0 && fts_query(t).len() > 0 {
            Some(fts_query(t))
        } else {
            None
        },
        None => None,
    }
}

/// The search text has to match.
pub open spec fn text_clause<S>(f: SearchFilters<S>) -> Seq<Clause<S>> {
    match wanted_fts(opt_text(f.text)) {
        Some(q) => seq![Clause { sql: "files_fts MATCH ?"@, values: seq![ValueView::Text(q)] }],
        None => Seq::empty(),
    }
}

/// The file has to lie below the root.
pub open spec fn root_clause<S>(f: SearchFilters<S>) -> Seq<Clause<S>> {
    match some_text(f.root_path) {
        Some(root) => seq![
            Clause { sql: "f.root_path = ?"@, values: seq![ValueView::Text(root)] },
        ],
        None => Seq::empty(),
    }
}

/// The file has to lie in the folder or below it.
pub open spec fn folder_clause<S>(f: SearchFilters<S>) -> Seq<Clause<S>> {
    match some_text(f.folder_path) {
        Some(folder) => seq![
            Clause {
                sql: "(f.folder_path = ? OR f.folder_path LIKE ?)"@,
                values: seq![ValueView::Text(folder), ValueView::Text(folder + "/%"@)],
            },
        ],
        None => Seq::empty(),
    }
}

/// The folder of the file has to have one of the names.
pub open spec fn categories_clause<S>(f: SearchFilters<S>) -> Seq<Clause<S>> {
    match some_texts(f.categories) {
        Some(names) => seq![
            Clause {
                sql: "f.parent_folder IN ("@ + repeated("?"@, names.len(), ","@) + ")"@,
                values: names.map_values(|n: Seq<char>| ValueView::Text(n)),
            },
        ],
        None => Seq::empty(),
    }
}

/// The file has to be at least that long.
pub open spec fn min_clause<S>(f: SearchFilters<S>) -> Seq<Clause<S>> {
    match f.min_secs {
        Some(min) => seq![
            Clause { sql: "f.duration_secs >= ?"@, values: seq![ValueView::Seconds(min)] },
        ],
        None => Seq::empty(),
    }
}

/// The file has to be at most that long.
pub open spec fn max_clause<S>(f: SearchFilters<S>) -> Seq<Clause<S>> {
    match f.max_secs {
        Some(max) => seq![
            Clause { sql: "f.duration_secs <= ?"@, values: seq![ValueView::Seconds(max)] },
        ],
        None => Seq::empty(),
    }
}

/// The file has to be a favorite.
pub open spec fn favorites_clause<S>(f: SearchFilters<S>) -> Seq<Clause<S>> {
    if f.favorites_only == Some(true) {
        seq![Clause { sql: "f.favorite = 1"@, values: Seq::empty() }]
    } else {
        Seq::empty()
    }
}

/// What a sound type looks like inside packed labels.
pub open spec fn label_pattern(label: Seq<char>) -> Seq<char> {
    "%,"@ + label + ",%"@
}

/// The file has to carry one of the sound types.
pub open spec fn sound_types_clause<S>(f: SearchFilters<S>) -> Seq<Clause<S>> {
    match some_texts(f.sound_types) {
        Some(labels) => seq![
            Clause {
                sql: "("@ + repeated("f.dsp_tags LIKE ?"@, labels.len(), " OR "@) + ")"@,
                values: labels.map_values(|l: Seq<char>| ValueView::Text(label_pattern(l))),
            },
        ],
        None => Seq::empty(),
    }
}

/// Nothing, or what is given.
pub open spec fn unless<S>(excluded: bool, clauses: Seq<Clause<S>>) -> Seq<Clause<S>> {
    if excluded {
        Seq::empty()
    } else {
        clauses
    }
}

/// All the conditions of a query, in order.
pub open spec fn clauses<S>(f: SearchFilters<S>, exclude: FacetExclude) -> Seq<Clause<S>> {
    text_clause(f) + unless(exclude.folder, root_clause(f)) + unless(
        exclude.folder,
        folder_clause(f),
    ) + unless(exclude.categories, categories_clause(f)) + min_clause(f) + max_clause(f)
        + favorites_clause(f) + unless(exclude.sound_types, sound_types_clause(f))
}

/// The texts of conditions.
pub open spec fn clause_texts<S>(cs: Seq<Clause<S>>) -> Seq<Seq<char>> {
    cs.map_values(|c: Clause<S>| c.sql)
}

/// The values of all the conditions, in order.
pub open spec fn clause_values<S>(cs: Seq<Clause<S>>) -> Seq<ValueView<S>>
    decreases cs.len(),
{
    if cs.len() == 0 {
        Seq::empty()
    } else {
        clause_values(cs.drop_last()) + cs.last().values
    }
}

impl<S: Copy> Conditions<S> {
    /// Whether these are the texts and the values of the clauses.
    pub open spec fn holds(&self, cs: Seq<Clause<S>>) -> bool {
        &&& texts(self.conditions@) == clause_texts(cs)
        &&& value_views(self.params@) == clause_values(cs)
    }

    /// Adds one condition.
    fn add(&mut self, sql: String, values: Vec<SqlValue<S>>, cs: Ghost<Seq<Clause<S>>>)
        requires
            old(self).holds(cs@),
        ensures
            final(self).holds(
                cs@ + seq![Clause { sql: sql@, values: value_views(values@) }],
            ),
            final(self).needs_fts == old(self).needs_fts,
    {
        let ghost c = Clause { sql: sql@, values: value_views(values@) };
        let ghost t0 = texts(self.conditions@);
        let ghost v0 = value_views(self.params@);
        let mut values = values;
        self.conditions.push(sql);
        self.params.append(&mut values);
        proof {
            let more = cs@ + seq![c];
            assert(more.drop_last() =~= cs@);
            assert(texts(self.conditions@) =~= t0.push(c.sql));
            assert(clause_texts(more) =~= clause_texts(cs@).push(c.sql));
            assert(value_views(self.params@) =~= v0 + c.values);
        }
    }
}

/// A text that is bound.
fn text_value<S>(t: &str) -> (r: SqlValue<S>)
    ensures
        r@ == ValueView::<S>::Text(t@),
{
    SqlValue::Text(t.to_owned())
}

/// The same text a number of times, with a separator between neighbours.
fn repeat(item: &str, count: usize, sep: &str) -> (r: String)
    ensures
        r@ == repeated(item@, count as nat, sep@),
{
    let mut items: Vec<String> = Vec::new();
    let mut i: usize = 0;
    while i < count
        invariant
            i <= count,
            items@.len() == i,
            forall|j: int| 0 <= j < i ==> (#[trigger] items@[j])@ == item@,
        decreases count - i,
    {
        items.push(item.to_owned());
        i += 1;
    }
    assert(texts(items@) =~= Seq::new(count as nat, |i: int| item@));
    join(&items, sep)
}

/// `left`, `middle` and `right`, one behind the other.
fn concat(left: &str, middle: &str, right: &str) -> (r: String)
    ensures
        r@ == left@ + middle@ + right@,
{
    let mut r = left.to_owned();
    r.append(middle);
    r.append(right);
    r
}

impl<S: Copy> Conditions<S> {
    /// Adds the condition on the search text.
    fn add_text(&mut self, filters: &SearchFilters<S>, cs: Ghost<Seq<Clause<S>>>)
        requires
            old(self).holds(cs@),
            !old(self).needs_fts,
        ensures
            final(self).holds(cs@ + text_clause(*filters)),
            final(self).needs_fts == (wanted_fts(opt_text(filters.text)) is Some),
    {
        let ghost none = Seq::<Clause<S>>::empty();
        assert(cs@ + none =~= cs@);
        if let Some(text) = &filters.text {
            if !trim(text.as_str()).as_str().is_empty() {
                let query = sanitize_fts_query(text.as_str());
                if !query.as_str().is_empty() {
                    self.needs_fts = true;
                    let ghost q = query@;
                    let values: Vec<SqlValue<S>> = vec![SqlValue::Text(query)];
                    assert(value_views(values@) =~= seq![ValueView::Text(q)]);
                    self.add("files_fts MATCH ?".to_owned(), values, cs);
                }
            }
        }
    }

    /// Adds the condition on the root.
    fn add_root(&mut self, filters: &SearchFilters<S>, exclude: FacetExclude, cs: Ghost<Seq<Clause<S>>>)
        requires
            old(self).holds(cs@),
        ensures
            final(self).holds(cs@ + unless(exclude.folder, root_clause(*filters))),
            final(self).needs_fts == old(self).needs_fts,
    {
        let ghost none = Seq::<Clause<S>>::empty();
        assert(cs@ + none =~= cs@);
        if !exclude.folder {
            if let Some(root) = &filters.root_path {
                if !root.as_str().is_empty() {
                    let values: Vec<SqlValue<S>> = vec![text_value(root.as_str())];
                    assert(value_views(values@) =~= seq![ValueView::Text(root@)]);
                    self.add("f.root_path = ?".to_owned(), values, cs);
                }
            }
        }
    }

    /// Adds the condition on the folder.
    fn add_folder(&mut self, filters: &SearchFilters<S>, exclude: FacetExclude, cs: Ghost<Seq<Clause<S>>>)
        requires
            old(self).holds(cs@),
        ensures
            final(self).holds(cs@ + unless(exclude.folder, folder_clause(*filters))),
            final(self).needs_fts == old(self).needs_fts,
    {
        let ghost none = Seq::<Clause<S>>::empty();
        assert(cs@ + none =~= cs@);
        if !exclude.folder {
            if let Some(folder) = &filters.folder_path {
                if !folder.as_str().is_empty() {
                    let mut below = folder.as_str().to_owned();
                    below.append("/%");
                    let ghost b = below@;
                    let values: Vec<SqlValue<S>> = vec![
                        text_value(folder.as_str()),
                        SqlValue::Text(below),
                    ];
                    assert(value_views(values@) =~= seq![
                        ValueView::Text(folder@),
                        ValueView::Text(b),
                    ]);
                    self.add(
                        "(f.folder_path = ? OR f.folder_path LIKE ?)".to_owned(),
                        values,
                        cs,
                    );
                }
            }
        }
    }

    /// Adds the condition on the folder names.
    fn add_categories(&mut self, filters: &SearchFilters<S>, exclude: FacetExclude, cs: Ghost<Seq<Clause<S>>>)
        requires
            old(self).holds(cs@),
        ensures
            final(self).holds(cs@ + unless(exclude.categories, categories_clause(*filters))),
            final(self).needs_fts == old(self).needs_fts,
    {
        let ghost none = Seq::<Clause<S>>::empty();
        assert(cs@ + none =~= cs@);
        if !exclude.categories {
            if let Some(categories) = &filters.categories {
                if !categories.is_empty() {
                    let marks = repeat("?", categories.len(), ",");
                    let values = category_values(categories);
                    self.add(concat("f.parent_folder IN (", marks.as_str(), ")"), values, cs);
                }
            }
        }
    }

    /// Adds the conditions on the duration.
    fn add_durations(&mut self, filters: &SearchFilters<S>, cs: Ghost<Seq<Clause<S>>>)
        requires
            old(self).holds(cs@),
        ensures
            final(self).holds(cs@ + (min_clause(*filters) + max_clause(*filters))),
            final(self).needs_fts == old(self).needs_fts,
    {
        let ghost none = Seq::<Clause<S>>::empty();
        assert(cs@ + none =~= cs@);
        let ghost mut now = cs@;
        if let Some(min) = filters.min_secs {
            let values: Vec<SqlValue<S>> = vec![SqlValue::Seconds(min)];
            assert(value_views(values@) =~= seq![ValueView::Seconds(min)]);
            self.add("f.duration_secs >= ?".to_owned(), values, cs);
        }
        proof {
            now = cs@ + min_clause(*filters);
            assert(now + none =~= now);
        }
        if let Some(max) = filters.max_secs {
            let values: Vec<SqlValue<S>> = vec![SqlValue::Seconds(max)];
            assert(value_views(values@) =~= seq![ValueView::Seconds(max)]);
            self.add("f.duration_secs <= ?".to_owned(), values, Ghost(now));
        }
        assert(now + max_clause(*filters) =~= cs@ + (min_clause(*filters) + max_clause(*filters)));
    }

    /// Adds the condition on favorites.
    fn add_favorites(&mut self, filters: &SearchFilters<S>, cs: Ghost<Seq<Clause<S>>>)
        requires
            old(self).holds(cs@),
        ensures
            final(self).holds(cs@ + favorites_clause(*filters)),
            final(self).needs_fts == old(self).needs_fts,
    {
        let ghost none = Seq::<Clause<S>>::empty();
        assert(cs@ + none =~= cs@);
        if let Some(true) = filters.favorites_only {
            let values: Vec<SqlValue<S>> = Vec::new();
            assert(value_views(values@) =~= Seq::empty());
            self.add("f.favorite = 1".to_owned(), values, cs);
        }
    }

    /// Adds the condition on the sound types.
    fn add_sound_types(&mut self, filters: &SearchFilters<S>, exclude: FacetExclude, cs: Ghost<Seq<Clause<S>>>)
        requires
            old(self).holds(cs@),
        ensures
            final(self).holds(cs@ + unless(exclude.sound_types, sound_types_clause(*filters))),
            final(self).needs_fts == old(self).needs_fts,
    {
        let ghost none = Seq::<Clause<S>>::empty();
        assert(cs@ + none =~= cs@);
        if !exclude.sound_types {
            if let Some(sound_types) = &filters.sound_types {
                if !sound_types.is_empty() {
                    let any = repeat("f.dsp_tags LIKE ?", sound_types.len(), " OR ");
                    let values = sound_type_values(sound_types);
                    self.add(concat("(", any.as_str(), ")"), values, cs);
                }
            }
        }
    }
}

/// The conditions that search and every facet count share.
pub fn build_conditions<S: Copy>(filters: &SearchFilters<S>, exclude: FacetExclude) -> (r: Conditions<
    S,
>)
    ensures
        r.needs_fts == (wanted_fts(opt_text(filters.text)) is Some),
        texts(r.conditions@) == clause_texts(clauses(*filters, exclude)),
        value_views(r.params@) == clause_values(clauses(*filters, exclude)),
{
    let ghost f = *filters;
    let mut r: Conditions<S> = Conditions {
        needs_fts: false,
        conditions: Vec::new(),
        params: Vec::new(),
    };
    let ghost mut cs: Seq<Clause<S>> = Seq::empty();
    assert(texts(r.conditions@) =~= clause_texts(cs));
    assert(value_views(r.params@) =~= clause_values(cs));
    r.add_text(filters, Ghost(cs));
    proof {
        cs = cs + text_clause(f);
    }
    r.add_root(filters, exclude, Ghost(cs));
    proof {
        cs = cs + unless(exclude.folder, root_clause(f));
    }
    r.add_folder(filters, exclude, Ghost(cs));
    proof {
        cs = cs + unless(exclude.folder, folder_clause(f));
    }
    r.add_categories(filters, exclude, Ghost(cs));
    proof {
        cs = cs + unless(exclude.categories, categories_clause(f));
    }
    r.add_durations(filters, Ghost(cs));
    proof {
        cs = cs + (min_clause(f) + max_clause(f));
    }
    r.add_favorites(filters, Ghost(cs));
    proof {
        cs = cs + favorites_clause(f);
    }
    r.add_sound_types(filters, exclude, Ghost(cs));
    proof {
        cs = cs + unless(exclude.sound_types, sound_types_clause(f));
        assert(cs =~= clauses(f, exclude));
    }
    r
}

/// The values for a list of folder names.
fn category_values<S>(names: &Vec<String>) -> (r: Vec<SqlValue<S>>)
    ensures
        value_views(r@) == texts(names@).map_values(|n: Seq<char>| ValueView::<S>::Text(n)),
{
    let mut out: Vec<SqlValue<S>> = Vec::new();
    let mut i: usize = 0;
    while i < names.len()
        invariant
            i <= names@.len(),
            out@.len() == i,
            forall|j: int| 0 <= j < i ==> (#[trigger] out@[j])@ == ValueView::<S>::Text(names@[j]@),
        decreases names@.len() - i,
    {
        out.push(text_value(names[i].as_str()));
        i += 1;
    }
    assert(value_views(out@) =~= texts(names@).map_values(
        |n: Seq<char>| ValueView::<S>::Text(n),
    ));
    out
}

/// The patterns for a list of sound types.
fn sound_type_values<S>(labels: &Vec<String>) -> (r: Vec<SqlValue<S>>)
    ensures
        value_views(r@) == texts(labels@).map_values(
            |l: Seq<char>| ValueView::<S>::Text(label_pattern(l)),
        ),
{
    let mut out: Vec<SqlValue<S>> = Vec::new();
    let mut i: usize = 0;
    while i < labels.len()
        invariant
            i <= labels@.len(),
            out@.len() == i,
            forall|j: int|
                0 <= j < i ==> (#[trigger] out@[j])@ == ValueView::<S>::Text(
                    label_pattern(labels@[j]@),
                ),
        decreases labels@.len() - i,
    {
        out.push(SqlValue::Text(concat("%,", labels[i].as_str(), ",%")));
        i += 1;
    }
    assert(value_views(out@) =~= texts(labels@).map_values(
        |l: Seq<char>| ValueView::<S>::Text(label_pattern(l)),
    ));
    out
}

// ---------------------------------------------------------------------------
// Queries
// ---------------------------------------------------------------------------

/// The join with the full-text index, when a condition needs it.
pub open spec fn join_text(needs_fts: bool) -> Seq<char> {
    if needs_fts {
        " JOIN files_fts ON files_fts.rowid = f.id"@
    } else {
        Seq::empty()
    }
}

/// The conditions, with `AND` between them and `lead` before the first.
pub open spec fn conditions_text(lead: Seq<char>, conditions: Seq<Seq<char>>) -> Seq<char> {
    if conditions.len() == 0 {
        Seq::empty()
    } else {
        lead + joined(conditions, " AND "@)
    }
}

/// Whether a search needs the full-text index.
pub open spec fn needs_join<S>(f: SearchFilters<S>) -> bool {
    wanted_fts(opt_text(f.text)) is Some
}

/// A query whose conditions follow `WHERE`.
pub open spec fn where_query<S>(
    select: Seq<char>,
    f: SearchFilters<S>,
    exclude: FacetExclude,
    tail: Seq<char>,
) -> Seq<char> {
    select + join_text(needs_join(f)) + conditions_text(
        " WHERE "@,
        clause_texts(clauses(f, exclude)),
    ) + tail
}

/// A query that has a condition of its own before the others.
pub open spec fn and_query<S>(
    select: Seq<char>,
    own: Seq<char>,
    f: SearchFilters<S>,
    exclude: FacetExclude,
    tail: Seq<char>,
) -> Seq<char> {
    select + join_text(needs_join(f)) + own + conditions_text(
        " AND "@,
        clause_texts(clauses(f, exclude)),
    ) + tail
}

/// Nothing is left out.
pub open spec fn exclude_nothing() -> FacetExclude {
    FacetExclude { categories: false, sound_types: false, folder: false }
}

/// The sound types are left out.
pub open spec fn exclude_sound_types() -> FacetExclude {
    FacetExclude { categories: false, sound_types: true, folder: false }
}

/// The categories are left out.
pub open spec fn exclude_categories() -> FacetExclude {
    FacetExclude { categories: true, sound_types: false, folder: false }
}

/// The folder is left out.
pub open spec fn exclude_folder() -> FacetExclude {
    FacetExclude { categories: false, sound_types: false, folder: true }
}

/// The columns of a found file.
pub open spec fn search_select() -> Seq<char> {
    "SELECT f.id, f.path, f.root_path, f.filename, f.ext, f.parent_folder, f.folder_path, f.duration_secs, f.description, f.tags, f.dsp_tags, f.favorite FROM files f"@
}

/// The text of a search.
pub open spec fn search_text<S>(f: SearchFilters<S>) -> Seq<char> {
    where_query(
        search_select(),
        f,
        exclude_nothing(),
        " ORDER BY "@ + order_text(opt_text(f.sort_by), opt_text(f.sort_dir))
            + " LIMIT ? OFFSET ?"@,
    )
}

/// The values of a search.
pub open spec fn search_values<S>(f: SearchFilters<S>) -> Seq<ValueView<S>> {
    clause_values(clauses(f, exclude_nothing())) + seq![
        ValueView::Integer(page_limit(f.limit)),
        ValueView::Integer(page_offset(f.offset)),
    ]
}

/// The text of the query for the packed labels of the matching files.
pub open spec fn sound_types_text<S>(f: SearchFilters<S>) -> Seq<char> {
    and_query(
        "SELECT f.dsp_tags FROM files f"@,
        " WHERE f.dsp_tags IS NOT NULL AND f.dsp_tags != ''"@,
        f,
        exclude_sound_types(),
        ""@,
    )
}

/// The text of the query for the matching files of each category.
pub open spec fn categories_text<S>(f: SearchFilters<S>) -> Seq<char> {
    and_query(
        "SELECT f.parent_folder, COUNT(*) FROM files f"@,
        " WHERE f.parent_folder IS NOT NULL AND f.parent_folder != ''"@,
        f,
        exclude_categories(),
        " GROUP BY f.parent_folder ORDER BY f.parent_folder"@,
    )
}

/// The text of the query for the matching files directly in each folder.
pub open spec fn folder_counts_text<S>(f: SearchFilters<S>) -> Seq<char> {
    where_query(
        "SELECT f.root_path, f.folder_path, COUNT(*) FROM files f"@,
        f,
        exclude_folder(),
        " GROUP BY f.root_path, f.folder_path"@,
    )
}

/// Puts a query together: the columns, the join, what stands before the
/// conditions, the conditions behind `lead`, and the rest.
fn compose<S: Copy>(
    select: &str,
    own: &str,
    lead: &str,
    c: Conditions<S>,
    tail: &str,
) -> (r: Query<S>)
    ensures
        r.sql@ == select@ + join_text(c.needs_fts) + own@ + conditions_text(
            lead@,
            texts(c.conditions@),
        ) + tail@,
        r.params == c.params,
{
    let mut sql = select.to_owned();
    assert(select@ + Seq::<char>::empty() =~= select@);
    if c.needs_fts {
        sql.append(" JOIN files_fts ON files_fts.rowid = f.id");
    }
    assert(sql@ == select@ + join_text(c.needs_fts));
    sql.append(own);
    let ghost before = sql@;
    assert(before + Seq::<char>::empty() =~= before);
    if !c.conditions.is_empty() {
        sql.append(lead);
        sql.append(join(&c.conditions, " AND ").as_str());
        assert(sql@ =~= before + (lead@ + joined(texts(c.conditions@), " AND "@)));
    }
    assert(sql@ == before + conditions_text(lead@, texts(c.conditions@)));
    sql.append(tail);
    Query { sql, params: c.params }
}

/// An optional string, borrowed.
fn borrow(t: &Option<String>) -> (r: Option<&str>)
    ensures
        opt_str(r) == opt_text(*t),
{
    match t {
        Some(s) => Some(s.as_str()),
        None => None,
    }
}

/// The query for one page of the files that match.
pub fn search_query<S: Copy>(filters: &SearchFilters<S>) -> (r: Query<S>)
    ensures
        r.sql@ == search_text(*filters),
        value_views(r.params@) == search_values(*filters),
{
    let c = build_conditions(filters, FacetExclude::default());
    let (limit, offset) = page(filters.limit, filters.offset);
    let mut tail = " ORDER BY ".to_owned();
    tail.append(sort_clause(borrow(&filters.sort_by), borrow(&filters.sort_dir)));
    tail.append(" LIMIT ? OFFSET ?");
    let mut r = compose(
        "SELECT f.id, f.path, f.root_path, f.filename, f.ext, f.parent_folder, f.folder_path, f.duration_secs, f.description, f.tags, f.dsp_tags, f.favorite FROM files f",
        "",
        " WHERE ",
        c,
        tail.as_str(),
    );
    proof {
        reveal_strlit("");
        let head = search_select() + join_text(needs_join(*filters));
        assert(head + ""@ =~= head);
    }
    let ghost before = value_views(r.params@);
    r.params.push(SqlValue::Integer(limit));
    r.params.push(SqlValue::Integer(offset));
    assert(value_views(r.params@) =~= before + seq![
        ValueView::Integer(limit),
        ValueView::Integer(offset),
    ]);
    r
}

/// The query for the packed labels of the matching files, whatever sound types
/// are chosen.
pub fn sound_types_query<S: Copy>(filters: &SearchFilters<S>) -> (r: Query<S>)
    ensures
        r.sql@ == sound_types_text(*filters),
        value_views(r.params@) == clause_values(clauses(*filters, exclude_sound_types())),
{
    let c = build_conditions(
        filters,
        FacetExclude { categories: false, sound_types: true, folder: false },
    );
    compose(
        "SELECT f.dsp_tags FROM files f",
        " WHERE f.dsp_tags IS NOT NULL AND f.dsp_tags != ''",
        " AND ",
        c,
        "",
    )
}

/// The query for the number of matching files of each category, whatever
/// categories are chosen.
pub fn categories_query<S: Copy>(filters: &SearchFilters<S>) -> (r: Query<S>)
    ensures
        r.sql@ == categories_text(*filters),
        value_views(r.params@) == clause_values(clauses(*filters, exclude_categories())),
{
    let c = build_conditions(
        filters,
        FacetExclude { categories: true, sound_types: false, folder: false },
    );
    compose(
        "SELECT f.parent_folder, COUNT(*) FROM files f",
        " WHERE f.parent_folder IS NOT NULL AND f.parent_folder != ''",
        " AND ",
        c,
        " GROUP BY f.parent_folder ORDER BY f.parent_folder",
    )
}

/// The query for the number of matching files directly in each folder, whatever
/// folder is chosen.
pub fn folder_counts_query<S: Copy>(filters: &SearchFilters<S>) -> (r: Query<S>)
    ensures
        r.sql@ == folder_counts_text(*filters),
        value_views(r.params@) == clause_values(clauses(*filters, exclude_folder())),
{
    let c = build_conditions(
        filters,
        FacetExclude { categories: false, sound_types: false, folder: true },
    );
    proof {
        reveal_strlit("");
        let head = "SELECT f.root_path, f.folder_path, COUNT(*) FROM files f"@ + join_text(
            needs_join(*filters),
        );
        assert(head + ""@ =~= head);
    }
    compose(
        "SELECT f.root_path, f.folder_path, COUNT(*) FROM files f",
        "",
        " WHERE ",
        c,
        " GROUP BY f.root_path, f.folder_path",
    )
}

// ---------------------------------------------------------------------------
// Laws
// ---------------------------------------------------------------------------

/// The filters without the selections that are left out.
pub open spec fn without<S>(f: SearchFilters<S>, exclude: FacetExclude) -> SearchFilters<S> {
    SearchFilters {
        root_path: if exclude.folder {
            None
        } else {
            f.root_path
        },
        folder_path: if exclude.folder {
            None
        } else {
            f.folder_path
        },
        categories: if exclude.categories {
            None
        } else {
            f.categories
        },
        sound_types: if exclude.sound_types {
            None
        } else {
            f.sound_types
        },
        ..f
    }
}

/// A facet ignores its own selection and respects every other filter: whatever
/// is left out, the conditions are those of a search without that selection.
pub proof fn facet_ignores_only_itself<S>(f: SearchFilters<S>, exclude: FacetExclude)
    ensures
        clauses(f, exclude) == clauses(without(f, exclude), exclude_nothing()),
{
}

/// Filters that differ only in the sound types, or only in the categories, or
/// only in the folder, ask the same of the facet that these belong to.
pub proof fn facet_query_ignores_its_own_selection<S>(f: SearchFilters<S>, g: SearchFilters<S>)
    ensures
        without(f, exclude_sound_types()) == without(g, exclude_sound_types()) ==> {
            &&& sound_types_text(f) == sound_types_text(g)
            &&& clauses(f, exclude_sound_types()) == clauses(g, exclude_sound_types())
        },
        without(f, exclude_categories()) == without(g, exclude_categories()) ==> {
            &&& categories_text(f) == categories_text(g)
            &&& clauses(f, exclude_categories()) == clauses(g, exclude_categories())
        },
        without(f, exclude_folder()) == without(g, exclude_folder()) ==> {
            &&& folder_counts_text(f) == folder_counts_text(g)
            &&& clauses(f, exclude_folder()) == clauses(g, exclude_folder())
        },
{
    facet_ignores_only_itself(f, exclude_sound_types());
    facet_ignores_only_itself(g, exclude_sound_types());
    facet_ignores_only_itself(f, exclude_categories());
    facet_ignores_only_itself(g, exclude_categories());
    facet_ignores_only_itself(f, exclude_folder());
    facet_ignores_only_itself(g, exclude_folder());
    assert(without(f, exclude_sound_types()).text == f.text);
    assert(without(g, exclude_sound_types()).text == g.text);
    assert(without(f, exclude_categories()).text == f.text);
    assert(without(g, exclude_categories()).text == g.text);
    assert(without(f, exclude_folder()).text == f.text);
    assert(without(g, exclude_folder()).text == g.text);
}

/// Two lists of the same length, or none on both sides.
pub open spec fn same_count(a: Option<Vec<String>>, b: Option<Vec<String>>) -> bool {
    match (some_texts(a), some_texts(b)) {
        (Some(x), Some(y)) => x.len() == y.len(),
        (None, None) => true,
        _ => false,
    }
}

/// The same filters are set, whatever they hold, and the same order is asked
/// for.
pub open spec fn same_shape<S>(a: SearchFilters<S>, b: SearchFilters<S>) -> bool {
    &&& needs_join(a) == needs_join(b)
    &&& (some_text(a.root_path) is Some) == (some_text(b.root_path) is Some)
    &&& (some_text(a.folder_path) is Some) == (some_text(b.folder_path) is Some)
    &&& same_count(a.categories, b.categories)
    &&& (a.min_secs is Some) == (b.min_secs is Some)
    &&& (a.max_secs is Some) == (b.max_secs is Some)
    &&& (a.favorites_only == Some(true)) == (b.favorites_only == Some(true))
    &&& same_count(a.sound_types, b.sound_types)
    &&& order_text(opt_text(a.sort_by), opt_text(a.sort_dir)) == order_text(
        opt_text(b.sort_by),
        opt_text(b.sort_dir),
    )
}

/// The texts of two lists of conditions put together.
proof fn clause_texts_of_two<S>(a: Seq<Clause<S>>, b: Seq<Clause<S>>)
    ensures
        clause_texts(a + b) == clause_texts(a) + clause_texts(b),
{
    assert(clause_texts(a + b) =~= clause_texts(a) + clause_texts(b));
}

/// The texts of the conditions, facet by facet.
proof fn clause_texts_by_facet<S>(f: SearchFilters<S>, exclude: FacetExclude)
    ensures
        clause_texts(clauses(f, exclude)) == clause_texts(text_clause(f)) + clause_texts(
            unless(exclude.folder, root_clause(f)),
        ) + clause_texts(unless(exclude.folder, folder_clause(f))) + clause_texts(
            unless(exclude.categories, categories_clause(f)),
        ) + clause_texts(min_clause(f)) + clause_texts(max_clause(f)) + clause_texts(
            favorites_clause(f),
        ) + clause_texts(unless(exclude.sound_types, sound_types_clause(f))),
{
    let a = text_clause(f);
    let b = a + unless(exclude.folder, root_clause(f));
    let c = b + unless(exclude.folder, folder_clause(f));
    let d = c + unless(exclude.categories, categories_clause(f));
    let e = d + min_clause(f);
    let g = e + max_clause(f);
    let h = g + favorites_clause(f);
    clause_texts_of_two(a, unless(exclude.folder, root_clause(f)));
    clause_texts_of_two(b, unless(exclude.folder, folder_clause(f)));
    clause_texts_of_two(c, unless(exclude.categories, categories_clause(f)));
    clause_texts_of_two(d, min_clause(f));
    clause_texts_of_two(e, max_clause(f));
    clause_texts_of_two(g, favorites_clause(f));
    clause_texts_of_two(h, unless(exclude.sound_types, sound_types_clause(f)));
}

/// What a filter holds never becomes part of the SQL: the text of a condition
/// depends only on which filters are set and how many names they list.
pub proof fn filter_contents_stay_out_of_conditions<S>(
    a: SearchFilters<S>,
    b: SearchFilters<S>,
    exclude: FacetExclude,
)
    requires
        same_shape(a, b),
    ensures
        clause_texts(clauses(a, exclude)) == clause_texts(clauses(b, exclude)),
{
    clause_texts_by_facet(a, exclude);
    clause_texts_by_facet(b, exclude);
    assert(clause_texts(text_clause(a)) =~= clause_texts(text_clause(b)));
    assert(clause_texts(root_clause(a)) =~= clause_texts(root_clause(b)));
    assert(clause_texts(folder_clause(a)) =~= clause_texts(folder_clause(b)));
    assert(clause_texts(categories_clause(a)) =~= clause_texts(categories_clause(b)));
    assert(clause_texts(min_clause(a)) =~= clause_texts(min_clause(b)));
    assert(clause_texts(max_clause(a)) =~= clause_texts(max_clause(b)));
    assert(clause_texts(favorites_clause(a)) =~= clause_texts(favorites_clause(b)));
    assert(clause_texts(sound_types_clause(a)) =~= clause_texts(sound_types_clause(b)));
    let none = Seq::<Clause<S>>::empty();
    assert(clause_texts(none) =~= Seq::empty());
}

/// What a filter holds never becomes part of the SQL of any query.
pub proof fn filter_contents_stay_out_of_queries<S>(a: SearchFilters<S>, b: SearchFilters<S>)
    requires
        same_shape(a, b),
    ensures
        search_text(a) == search_text(b),
        sound_types_text(a) == sound_types_text(b),
        categories_text(a) == categories_text(b),
        folder_counts_text(a) == folder_counts_text(b),
{
    filter_contents_stay_out_of_conditions(a, b, exclude_nothing());
    filter_contents_stay_out_of_conditions(a, b, exclude_sound_types());
    filter_contents_stay_out_of_conditions(a, b, exclude_categories());
    filter_contents_stay_out_of_conditions(a, b, exclude_folder());
}

/// A column that is not one of the four known ones gives the default order,
/// whatever the direction.
pub proof fn unknown_order_is_default(sort_by: Option<Seq<char>>, sort_dir: Option<Seq<char>>)
    requires
        sort_by != Some("name"@),
        sort_by != Some("folder"@),
        sort_by != Some("duration"@),
        sort_by != Some("type"@),
    ensures
        order_text(sort_by, sort_dir) == order_text(None, None),
{
}

} // verus!
