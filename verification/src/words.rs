//! What becomes of a search text: the words that its full-text query asks for.

use vstd::prelude::*;

use crate::query::{cleaned, fts_query, prefix_term, prefix_terms, wanted_fts};
use crate::tags::{piece_without_separator, pieces_of_two};
use crate::text::{
    is_letter_or_digit, is_white_space, joined, pieces, pieces_nonempty, trimmed, Separator,
};

verus! {

/// Whether a text holds letters and digits only.
pub open spec fn is_clean(s: Seq<char>) -> bool {
    forall|i: int| 0 <= i < s.len() ==> is_letter_or_digit(#[trigger] s[i])
}

/// What is left of each word when it is cleaned, where anything is.
pub open spec fn left_words(words: Seq<Seq<char>>) -> Seq<Seq<char>>
    decreases words.len(),
{
    if words.len() == 0 {
        Seq::empty()
    } else {
        let before = left_words(words.drop_last());
        if cleaned(words.last()).len() > 0 {
            before.push(cleaned(words.last()))
        } else {
            before
        }
    }
}

/// The words that a search text asks for.
pub open spec fn fts_words(text: Seq<char>) -> Seq<Seq<char>> {
    left_words(pieces(text, Separator::WhiteSpace))
}

/// A prefix search for each of the words.
pub open spec fn terms_of(words: Seq<Seq<char>>) -> Seq<Seq<char>> {
    words.map_values(|w: Seq<char>| prefix_term(w))
}

/// The parts, one behind the other.
pub open spec fn run_together(parts: Seq<Seq<char>>) -> Seq<char>
    decreases parts.len(),
{
    if parts.len() == 0 {
        Seq::empty()
    } else {
        run_together(parts.drop_last()) + parts.last()
    }
}

/// Whether every one of the words has a character, and letters and digits only.
pub open spec fn are_words(words: Seq<Seq<char>>) -> bool {
    forall|k: int|
        0 <= k < words.len() ==> (#[trigger] words[k]).len() > 0 && is_clean(words[k])
}

/// What is left of a word holds letters and digits only.
proof fn cleaned_is_clean(word: Seq<char>)
    ensures
        is_clean(cleaned(word)),
    decreases word.len(),
{
    if word.len() > 0 {
        cleaned_is_clean(word.drop_last());
    }
}

/// What is left of words are words.
proof fn left_words_are_words(words: Seq<Seq<char>>)
    ensures
        are_words(left_words(words)),
    decreases words.len(),
{
    if words.len() > 0 {
        left_words_are_words(words.drop_last());
        cleaned_is_clean(words.last());
    }
}

/// The terms of a query are prefix searches for the words that are left.
proof fn terms_are_of_left_words(words: Seq<Seq<char>>)
    ensures
        prefix_terms(words) == terms_of(left_words(words)),
    decreases words.len(),
{
    if words.len() > 0 {
        terms_are_of_left_words(words.drop_last());
        assert(prefix_terms(words) =~= terms_of(left_words(words)));
    } else {
        assert(prefix_terms(words) =~= terms_of(left_words(words)));
    }
}

/// One more character at the end of the last word is left or not.
proof fn left_words_with_one_more(words: Seq<Seq<char>>, last: Seq<char>, c: char)
    ensures
        run_together(left_words(words.push(last.push(c)))) == run_together(
            left_words(words.push(last)),
        ) + (if is_letter_or_digit(c) {
            seq![c]
        } else {
            Seq::empty()
        }),
{
    let short = words.push(last);
    let long = words.push(last.push(c));
    assert(short.drop_last() =~= words);
    assert(long.drop_last() =~= words);
    assert(last.push(c).drop_last() =~= last);
    let front = run_together(left_words(words));
    last_left_word(words, last);
    last_left_word(words, last.push(c));
    assert(run_together(left_words(short)) == front + cleaned(last));
    assert(run_together(left_words(long)) =~= front + cleaned(last) + (if is_letter_or_digit(c) {
        seq![c]
    } else {
        Seq::empty()
    }));
}

/// What one more word adds to the words that are left.
proof fn last_left_word(words: Seq<Seq<char>>, last: Seq<char>)
    ensures
        run_together(left_words(words.push(last))) == run_together(left_words(words)) + cleaned(
            last,
        ),
{
    let long = words.push(last);
    assert(long.drop_last() =~= words);
    let before = left_words(words);
    if cleaned(last).len() > 0 {
        assert(before.push(cleaned(last)).drop_last() =~= before);
    } else {
        assert(run_together(before) + cleaned(last) =~= run_together(before));
    }
}

/// The words of a text, one behind the other, are its letters and digits.
proof fn words_run_together(text: Seq<char>)
    ensures
        run_together(fts_words(text)) == cleaned(text),
    decreases text.len(),
{
    if text.len() == 0 {
        let ps = pieces(text, Separator::WhiteSpace);
        let none = Seq::<Seq<char>>::empty();
        assert(ps =~= none.push(Seq::empty()));
        last_left_word(none, Seq::empty());
        assert(run_together(fts_words(text)) =~= cleaned(text));
    } else {
        let rest = text.drop_last();
        let c = text.last();
        let before = pieces(rest, Separator::WhiteSpace);
        let now = pieces(text, Separator::WhiteSpace);
        words_run_together(rest);
        pieces_nonempty(rest, Separator::WhiteSpace);
        if is_white_space(c) {
            assert(now == before.push(Seq::empty()));
            last_left_word(before, Seq::empty());
            assert(run_together(fts_words(text)) =~= cleaned(text));
        } else {
            assert(before.drop_last().push(before.last()) =~= before);
            left_words_with_one_more(before.drop_last(), before.last(), c);
            assert(run_together(fts_words(text)) =~= cleaned(text));
        }
    }
}

/// The full-text query is a prefix search for each of some words. None of them
/// is empty, they hold letters and digits only, and one behind the other they
/// are the letters and digits of the text in order: no other sign of the query
/// language gets through, and nothing that is searched for is lost.
pub proof fn query_searches_the_words_of_the_text(text: Seq<char>)
    ensures
        fts_query(text) == joined(terms_of(fts_words(text)), seq![' ']),
        are_words(fts_words(text)),
        run_together(fts_words(text)) == cleaned(text),
{
    left_words_are_words(pieces(text, Separator::WhiteSpace));
    terms_are_of_left_words(pieces(text, Separator::WhiteSpace));
    words_run_together(text);
}

/// Cleaning takes a leading quote off and leaves the word behind it alone.
proof fn cleaned_behind_quote(word: Seq<char>)
    requires
        is_clean(word),
    ensures
        cleaned(seq!['"'] + word) == word,
    decreases word.len(),
{
    let whole = seq!['"'] + word;
    if word.len() == 0 {
        assert(whole =~= seq!['"']);
        assert(whole.drop_last() =~= Seq::empty());
        assert(cleaned(whole.drop_last()) =~= Seq::empty());
        assert(cleaned(whole) =~= word);
    } else {
        let rest = word.drop_last();
        assert forall|i: int| 0 <= i < rest.len() implies is_letter_or_digit(#[trigger] rest[i]) by {
            assert(rest[i] == word[i]);
        }
        cleaned_behind_quote(rest);
        assert(whole.drop_last() =~= seq!['"'] + rest);
        assert(is_letter_or_digit(word[word.len() - 1]));
        assert(cleaned(whole) =~= word);
    }
}

/// Cleaning the prefix search for a word gives the word back.
proof fn cleaned_term_is_the_word(word: Seq<char>)
    requires
        is_clean(word),
    ensures
        cleaned(prefix_term(word)) == word,
{
    let quoted = seq!['"'] + word;
    let term = prefix_term(word);
    cleaned_behind_quote(word);
    assert(term.drop_last() =~= quoted.push('"'));
    assert(quoted.push('"').drop_last() =~= quoted);
    assert(term.last() == '*');
    assert(cleaned(quoted.push('"')) == cleaned(quoted));
}

/// The words that are left of prefix searches are the words searched for.
proof fn words_of_terms(words: Seq<Seq<char>>)
    requires
        are_words(words),
    ensures
        left_words(terms_of(words)) == words,
    decreases words.len(),
{
    if words.len() > 0 {
        let rest = words.drop_last();
        assert forall|k: int| 0 <= k < rest.len() implies (#[trigger] rest[k]).len() > 0
            && is_clean(rest[k]) by {
            assert(rest[k] == words[k]);
        }
        words_of_terms(rest);
        assert(terms_of(words).drop_last() =~= terms_of(rest));
        let last = words[words.len() - 1];
        assert(last.len() > 0 && is_clean(last));
        cleaned_term_is_the_word(last);
        assert(left_words(terms_of(words)) =~= words);
    } else {
        assert(left_words(terms_of(words)) =~= words);
    }
}

/// A prefix search has no white space in it.
proof fn term_is_one_piece(word: Seq<char>)
    requires
        is_clean(word),
    ensures
        pieces(prefix_term(word), Separator::WhiteSpace) == seq![prefix_term(word)],
{
    let term = prefix_term(word);
    assert forall|i: int| 0 <= i < term.len() implies !Separator::WhiteSpace.accepts(
        #[trigger] term[i],
    ) by {
        if 1 <= i <= word.len() {
            assert(term[i] == word[i - 1]);
            assert(is_letter_or_digit(word[i - 1]));
        }
    }
    piece_without_separator(term, Separator::WhiteSpace);
}

/// The pieces of a query are its terms.
proof fn pieces_of_query(words: Seq<Seq<char>>)
    requires
        words.len() > 0,
        are_words(words),
    ensures
        pieces(joined(terms_of(words), seq![' ']), Separator::WhiteSpace) == terms_of(words),
    decreases words.len(),
{
    let terms = terms_of(words);
    let last = words[words.len() - 1];
    assert(last.len() > 0 && is_clean(last));
    term_is_one_piece(last);
    if words.len() == 1 {
        assert(terms =~= seq![prefix_term(last)]);
    } else {
        let rest = words.drop_last();
        assert forall|k: int| 0 <= k < rest.len() implies (#[trigger] rest[k]).len() > 0
            && is_clean(rest[k]) by {
            assert(rest[k] == words[k]);
        }
        pieces_of_query(rest);
        assert(terms.drop_last() =~= terms_of(rest));
        let head = joined(terms_of(rest), seq![' ']);
        pieces_of_two(head, ' ', prefix_term(last), Separator::WhiteSpace);
        assert(joined(terms, seq![' ']) =~= head.push(' ') + prefix_term(last));
        assert(terms =~= terms_of(rest) + seq![prefix_term(last)]);
    }
}

/// The full-text query of a full-text query is that query: what was made safe
/// once stays as it is.
pub proof fn query_of_a_query_is_that_query(text: Seq<char>)
    ensures
        fts_query(fts_query(text)) == fts_query(text),
        fts_words(fts_query(text)) == fts_words(text),
{
    query_searches_the_words_of_the_text(text);
    let words = fts_words(text);
    let query = fts_query(text);
    query_searches_the_words_of_the_text(query);
    if words.len() == 0 {
        assert(terms_of(words) =~= Seq::empty());
        assert(query =~= Seq::empty());
        let none = Seq::<Seq<char>>::empty();
        assert(pieces(query, Separator::WhiteSpace) =~= none.push(Seq::empty()));
        assert(none.push(Seq::<char>::empty()).drop_last() =~= none);
        assert(fts_words(query) =~= words);
    } else {
        pieces_of_query(words);
        words_of_terms(words);
    }
}

/// Nothing is left of a text exactly when it has no letter and no digit.
proof fn nothing_left(text: Seq<char>)
    ensures
        cleaned(text).len() == 0 <==> forall|i: int|
            0 <= i < text.len() ==> !is_letter_or_digit(#[trigger] text[i]),
    decreases text.len(),
{
    if text.len() > 0 {
        let rest = text.drop_last();
        nothing_left(rest);
        assert forall|i: int| 0 <= i < rest.len() implies rest[i] == text[i] by {}
        assert(text[text.len() - 1] == text.last());
        if cleaned(text).len() == 0 {
            assert forall|i: int| 0 <= i < text.len() implies !is_letter_or_digit(#[trigger] text[i]) by {
                if i < rest.len() {
                    assert(rest[i] == text[i]);
                }
            }
        }
        if forall|i: int| 0 <= i < text.len() ==> !is_letter_or_digit(#[trigger] text[i]) {
            assert forall|i: int| 0 <= i < rest.len() implies !is_letter_or_digit(#[trigger] rest[i]) by {
                assert(rest[i] == text[i]);
            }
        }
    }
}

/// A text with a character that is no white space is not blank.
proof fn not_blank(s: Seq<char>, i: int)
    requires
        0 <= i < s.len(),
        !is_white_space(s[i]),
    ensures
        trimmed(s).len() > 0,
    decreases s.len(),
{
    if is_white_space(s.first()) {
        assert(s.drop_first()[i - 1] == s[i]);
        not_blank(s.drop_first(), i - 1);
    } else if is_white_space(s.last()) {
        assert(s.drop_last()[i] == s[i]);
        not_blank(s.drop_last(), i);
    }
}

/// The query is empty exactly when there are no words.
proof fn query_is_empty_without_words(text: Seq<char>)
    ensures
        fts_query(text).len() == 0 <==> cleaned(text).len() == 0,
{
    query_searches_the_words_of_the_text(text);
    let words = fts_words(text);
    let terms = terms_of(words);
    if words.len() == 0 {
        assert(terms =~= Seq::empty());
    } else {
        let last = words[words.len() - 1];
        assert(last.len() > 0);
        assert(run_together(words).len() >= last.len());
        assert(terms.last() == prefix_term(last));
        assert(joined(terms, seq![' ']).len() >= terms.last().len());
    }
}

/// A search text without a letter or a digit asks for nothing: its query is
/// empty, and it adds no condition.
pub proof fn wordless_text_asks_for_nothing(text: Seq<char>)
    requires
        forall|i: int| 0 <= i < text.len() ==> !is_letter_or_digit(#[trigger] text[i]),
    ensures
        fts_query(text).len() == 0,
        wanted_fts(Some(text)) is None,
{
    nothing_left(text);
    query_is_empty_without_words(text);
}

/// A search text with a letter or a digit asks for its query.
pub proof fn text_with_words_asks_for_them(text: Seq<char>)
    requires
        exists|i: int| 0 <= i < text.len() && is_letter_or_digit(#[trigger] text[i]),
    ensures
        fts_query(text).len() > 0,
        wanted_fts(Some(text)) == Some(fts_query(text)),
{
    let i = choose|i: int| 0 <= i < text.len() && is_letter_or_digit(#[trigger] text[i]);
    nothing_left(text);
    query_is_empty_without_words(text);
    not_blank(text, i);
}

} // verus!
