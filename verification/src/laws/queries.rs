//! Laws on the text of queries and on what is bound in them.

use vstd::prelude::*;

use crate::laws::searching::has_words;
use crate::laws::texts::case_is_ignored_letter_by_letter;
use crate::query::{
    categories_text, clause_texts, clause_values, clauses, cleaned, exclude_categories,
    exclude_folder, exclude_nothing, exclude_sound_types, folder_counts_text, fts_query,
    is_descending, order_text, page_limit, page_offset, search_text, search_values,
    sound_types_text, value_views, Clause, SearchFilters, SqlValue, ValueView,
};
use crate::tags::{piece_without_separator, pieces_of_two};
use crate::text::{
    ascii_lower, is_letter_or_digit, is_white_space, joined, opt_text, pieces, Separator,
};
use crate::words::{
    fts_words, left_words, query_searches_the_words_of_the_text, terms_of,
    text_with_words_asks_for_them, wordless_text_asks_for_nothing,
};

verus! {

/// Cleaning keeps the letters and digits, all of them and in order.
pub proof fn cleaning_keeps_letters_and_digits(text: Seq<char>)
    ensures
        cleaned(text) == text.filter(|c: char| is_letter_or_digit(c)),
    decreases text.len(),
{
    reveal(Seq::filter);
    if text.len() > 0 {
        cleaning_keeps_letters_and_digits(text.drop_last());
    } else {
        assert(cleaned(text) =~= text.filter(|c: char| is_letter_or_digit(c)));
    }
}

/// The words that are left of two lists are those of the one and those of the
/// other.
proof fn left_words_of_two(a: Seq<Seq<char>>, b: Seq<Seq<char>>)
    ensures
        left_words(a + b) == left_words(a) + left_words(b),
    decreases b.len(),
{
    if b.len() == 0 {
        assert(a + b =~= a);
        assert(left_words(a) + left_words(b) =~= left_words(a));
    } else {
        left_words_of_two(a, b.drop_last());
        assert((a + b).drop_last() =~= a + b.drop_last());
        assert((a + b).last() == b.last());
        assert(left_words(a + b) =~= left_words(a) + left_words(b));
    }
}

/// White space parts the words of a search text. Between white space there is
/// one word, its letters and digits run together, unless it has none.
pub proof fn white_space_parts_the_words(a: Seq<char>, c: char, b: Seq<char>)
    requires
        is_white_space(c),
    ensures
        fts_words(a.push(c) + b) == fts_words(a) + fts_words(b),
        (forall|i: int| 0 <= i < a.len() ==> !is_white_space(#[trigger] a[i])) ==> fts_words(a)
            == if a.filter(|x: char| is_letter_or_digit(x)).len() > 0 {
            seq![a.filter(|x: char| is_letter_or_digit(x))]
        } else {
            Seq::empty()
        },
{
    pieces_of_two(a, c, b, Separator::WhiteSpace);
    left_words_of_two(pieces(a, Separator::WhiteSpace), pieces(b, Separator::WhiteSpace));
    if forall|i: int| 0 <= i < a.len() ==> !is_white_space(#[trigger] a[i]) {
        piece_without_separator(a, Separator::WhiteSpace);
        cleaning_keeps_letters_and_digits(a);
        assert(seq![a].drop_last() =~= Seq::empty());
        assert(left_words(seq![a].drop_last()) =~= Seq::empty());
        assert(fts_words(a) =~= if cleaned(a).len() > 0 {
            seq![cleaned(a)]
        } else {
            Seq::empty()
        });
    }
}

/// The query asks for each of the words as a prefix: in quotes, with a star
/// behind it, and a space between two.
pub proof fn each_word_is_searched_as_a_prefix(text: Seq<char>)
    ensures
        fts_query(text) == joined(
            Seq::new(
                fts_words(text).len(),
                |k: int| seq!['"'] + fts_words(text)[k] + seq!['"', '*'],
            ),
            seq![' '],
        ),
{
    query_searches_the_words_of_the_text(text);
    assert(terms_of(fts_words(text)) =~= Seq::new(
        fts_words(text).len(),
        |k: int| seq!['"'] + fts_words(text)[k] + seq!['"', '*'],
    ));
}

/// The order is descending exactly for `desc`, in whatever case.
pub proof fn only_desc_is_descending(dir: Option<Seq<char>>)
    ensures
        is_descending(dir) <==> dir is Some && (dir->0).len() == 4 && ((dir->0)[0] == 'd' || (
        dir->0)[0] == 'D') && ((dir->0)[1] == 'e' || (dir->0)[1] == 'E') && ((dir->0)[2] == 's' || (
        dir->0)[2] == 'S') && ((dir->0)[3] == 'c' || (dir->0)[3] == 'C'),
{
    reveal_strlit("desc");
    if let Some(d) = dir {
        case_is_ignored_letter_by_letter(d, "desc"@);
        let w = "desc"@;
        assert(w.len() == 4 && w[0] == 'd' && w[1] == 'e' && w[2] == 's' && w[3] == 'c');
        if d.len() == 4 {
            assert(ascii_lower(d[0]) == 'd' <==> d[0] == 'd' || d[0] == 'D');
            assert(ascii_lower(d[1]) == 'e' <==> d[1] == 'e' || d[1] == 'E');
            assert(ascii_lower(d[2]) == 's' <==> d[2] == 's' || d[2] == 'S');
            assert(ascii_lower(d[3]) == 'c' <==> d[3] == 'c' || d[3] == 'C');
        }
    }
}

/// Each of the four columns is ordered by itself, in the direction asked for,
/// and then by name; anything else by category and name.
pub proof fn columns_are_ordered_as_asked(dir: Option<Seq<char>>)
    ensures
        is_descending(dir) ==> order_text(Some("name"@), dir) == "f.filename DESC"@,
        !is_descending(dir) ==> order_text(Some("name"@), dir) == "f.filename ASC"@,
        is_descending(dir) ==> order_text(Some("folder"@), dir)
            == "f.folder_path DESC, f.filename ASC"@,
        !is_descending(dir) ==> order_text(Some("folder"@), dir)
            == "f.folder_path ASC, f.filename ASC"@,
        is_descending(dir) ==> order_text(Some("duration"@), dir)
            == "f.duration_secs DESC, f.filename ASC"@,
        !is_descending(dir) ==> order_text(Some("duration"@), dir)
            == "f.duration_secs ASC, f.filename ASC"@,
        is_descending(dir) ==> order_text(Some("type"@), dir) == "f.dsp_tags DESC, f.filename ASC"@,
        !is_descending(dir) ==> order_text(Some("type"@), dir) == "f.dsp_tags ASC, f.filename ASC"@,
        order_text(None, dir) == "f.parent_folder ASC, f.filename ASC"@,
{
    reveal_strlit("name");
    reveal_strlit("folder");
    reveal_strlit("duration");
    reveal_strlit("type");
    assert("name"@.len() == 4 && "folder"@.len() == 6 && "duration"@.len() == 8);
    assert("type"@.len() == 4 && "type"@[0] == 't' && "name"@[0] == 'n');
}

/// A page has as many rows as are asked for, from one to a thousand, and begins
/// behind as many as are asked for; two hundred from the beginning when nothing
/// is said.
pub proof fn pages_are_what_is_asked_for(n: i64)
    ensures
        1 <= n <= 1000 ==> page_limit(Some(n)) == n,
        n < 1 ==> page_limit(Some(n)) == 1,
        n > 1000 ==> page_limit(Some(n)) == 1000,
        page_limit(None) == 200,
        n >= 0 ==> page_offset(Some(n)) == n,
        n < 0 ==> page_offset(Some(n)) == 0,
        page_offset(None) == 0,
{
}

/// The values of two lists of conditions are those of the one and those of the
/// other, and the values of one condition are its own. The texts are those of
/// each condition, in order.
pub proof fn values_follow_their_conditions<S>(a: Seq<Clause<S>>, b: Seq<Clause<S>>)
    ensures
        clause_values(a + b) == clause_values(a) + clause_values(b),
        a.len() == 0 ==> clause_values(a).len() == 0,
        a.len() == 1 ==> clause_values(a) == a[0].values,
        clause_texts(a).len() == a.len(),
        forall|i: int| 0 <= i < a.len() ==> #[trigger] clause_texts(a)[i] == a[i].sql,
    decreases b.len(),
{
    if a.len() == 1 {
        assert(clause_values(a.drop_last()) =~= Seq::empty());
        assert(clause_values(a) =~= a[0].values);
    }
    if b.len() == 0 {
        assert(a + b =~= a);
        assert(clause_values(a) + clause_values(b) =~= clause_values(a));
    } else {
        values_follow_their_conditions(a, b.drop_last());
        assert((a + b).drop_last() =~= a + b.drop_last());
        assert((a + b).last() == b.last());
        assert(clause_values(a + b) =~= clause_values(a) + clause_values(b));
    }
}

/// What a bound value holds is what was given.
pub proof fn bound_values_are_what_was_given<S>(values: Seq<SqlValue<S>>)
    ensures
        value_views(values).len() == values.len(),
        forall|i: int|
            0 <= i < values.len() ==> (#[trigger] value_views(values)[i] == match values[i] {
                SqlValue::Text(t) => ValueView::<S>::Text(t@),
                SqlValue::Seconds(s) => ValueView::<S>::Seconds(s),
                SqlValue::Integer(n) => ValueView::<S>::Integer(n),
            }),
{
}

/// What joins the full-text index, when it is needed.
pub open spec fn index_join(wanted: bool) -> Seq<char> {
    if wanted {
        " JOIN files_fts ON files_fts.rowid = f.id"@
    } else {
        Seq::empty()
    }
}

/// The texts of all the conditions with `AND` between them, behind `lead`, or
/// nothing when there are none.
pub open spec fn all_of<S>(lead: Seq<char>, cs: Seq<Clause<S>>) -> Seq<char> {
    if cs.len() > 0 {
        lead + joined(Seq::new(cs.len(), |i: int| cs[i].sql), " AND "@)
    } else {
        Seq::empty()
    }
}

/// The queries ask for all of their conditions at once. The full-text index is
/// joined exactly when the search text has a letter or a digit. A search gives
/// one page in the order asked for; the facets group what they count.
pub proof fn queries_ask_for_all_their_conditions<S>(f: SearchFilters<S>)
    ensures
        search_text(f)
            == "SELECT f.id, f.path, f.root_path, f.filename, f.ext, f.parent_folder, f.folder_path, f.duration_secs, f.description, f.tags, f.dsp_tags, f.favorite FROM files f"@
            + index_join(has_words(f.text)) + all_of(" WHERE "@, clauses(f, exclude_nothing())) + (
        " ORDER BY "@ + order_text(opt_text(f.sort_by), opt_text(f.sort_dir))
            + " LIMIT ? OFFSET ?"@),
        search_values(f) == clause_values(clauses(f, exclude_nothing())) + seq![
            ValueView::Integer(page_limit(f.limit)),
            ValueView::Integer(page_offset(f.offset)),
        ],
        sound_types_text(f) == "SELECT f.dsp_tags FROM files f"@ + index_join(has_words(f.text))
            + " WHERE f.dsp_tags IS NOT NULL AND f.dsp_tags != ''"@ + all_of(
            " AND "@,
            clauses(f, exclude_sound_types()),
        ),
        categories_text(f) == "SELECT f.parent_folder, COUNT(*) FROM files f"@ + index_join(
            has_words(f.text),
        ) + " WHERE f.parent_folder IS NOT NULL AND f.parent_folder != ''"@ + all_of(
            " AND "@,
            clauses(f, exclude_categories()),
        ) + " GROUP BY f.parent_folder ORDER BY f.parent_folder"@,
        folder_counts_text(f) == "SELECT f.root_path, f.folder_path, COUNT(*) FROM files f"@
            + index_join(has_words(f.text)) + all_of(" WHERE "@, clauses(f, exclude_folder()))
            + " GROUP BY f.root_path, f.folder_path"@,
        !exclude_nothing().folder && !exclude_nothing().categories
            && !exclude_nothing().sound_types,
        exclude_sound_types().sound_types && !exclude_sound_types().folder
            && !exclude_sound_types().categories,
        exclude_categories().categories && !exclude_categories().folder
            && !exclude_categories().sound_types,
        exclude_folder().folder && !exclude_folder().categories && !exclude_folder().sound_types,
{
    if let Some(s) = f.text {
        if has_words(f.text) {
            text_with_words_asks_for_them(s@);
        } else {
            wordless_text_asks_for_nothing(s@);
        }
    }
    let a = clauses(f, exclude_nothing());
    let b = clauses(f, exclude_sound_types());
    let c = clauses(f, exclude_categories());
    let d = clauses(f, exclude_folder());
    assert(clause_texts(a) =~= Seq::new(a.len(), |i: int| a[i].sql));
    assert(clause_texts(b) =~= Seq::new(b.len(), |i: int| b[i].sql));
    assert(clause_texts(c) =~= Seq::new(c.len(), |i: int| c[i].sql));
    assert(clause_texts(d) =~= Seq::new(d.len(), |i: int| d[i].sql));
    reveal_strlit("");
    let end = "SELECT f.dsp_tags FROM files f"@ + index_join(has_words(f.text))
        + " WHERE f.dsp_tags IS NOT NULL AND f.dsp_tags != ''"@ + all_of(" AND "@, b);
    assert(end + ""@ =~= end);
}

} // verus!
