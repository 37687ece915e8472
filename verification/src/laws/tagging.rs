//! Laws on tags.

use vstd::prelude::*;
use vstd::utf8::encode_utf8;

use crate::laws::texts::{is_stretch, piece_is_a_stretch, stretch_is_a_piece};
use crate::tags::{
    is_name_tag, kept_words_are_the_tags, listed_tags, name_tags, packed,
    packed_text_shows_its_labels, unpacked, unpacking_undoes_packing,
};
use crate::text::{
    is_ascii_digit, is_letter_or_digit, lowercase, occurs_at, pieces, trimmed, Separator,
};

verus! {

/// Whether `i..j` is a word of a file name: letters and digits, as far as they
/// go on either side, more than two bytes of them, and not digits only.
pub open spec fn is_long_word(stem: Seq<char>, i: int, j: int) -> bool {
    &&& 0 <= i <= j <= stem.len()
    &&& forall|k: int| i <= k < j ==> is_letter_or_digit(#[trigger] stem[k])
    &&& i == 0 || !is_letter_or_digit(stem[i - 1])
    &&& j == stem.len() || !is_letter_or_digit(stem[j])
    &&& encode_utf8(stem.subrange(i, j)).len() > 2
    &&& exists|k: int| i <= k < j && !('0' as int <= (#[trigger] stem[k]) as int <= '9' as int)
}

/// Every word of a file name that is longer than two bytes and no bare number is
/// a tag in lower case, however long it is.
pub proof fn every_long_word_is_a_tag(stem: Seq<char>, i: int, j: int)
    requires
        is_long_word(stem, i, j),
    ensures
        name_tags(stem).contains(lowercase(stem.subrange(i, j))),
{
    let sep = Separator::NonAlphanumeric;
    let cut = |c: char| sep.accepts(c);
    assert(is_stretch(stem, cut, i, j));
    let n = stretch_is_a_piece(stem, sep, i, j);
    let words = pieces(stem, sep);
    let word = stem.subrange(i, j);
    let k = choose|k: int|
        i <= k < j && !('0' as int <= (#[trigger] stem[k]) as int <= '9' as int);
    assert(word[k - i] == stem[k]);
    assert(is_name_tag(words[n]));
    kept_words_are_the_tags(words);
}

/// Every tag of a file name is such a word.
pub proof fn every_tag_is_a_long_word(stem: Seq<char>, tag: Seq<char>)
    requires
        name_tags(stem).contains(tag),
    ensures
        exists|i: int, j: int|
            is_long_word(stem, i, j) && tag == lowercase(#[trigger] stem.subrange(i, j)),
        name_tags(stem).no_duplicates(),
{
    let sep = Separator::NonAlphanumeric;
    let words = pieces(stem, sep);
    kept_words_are_the_tags(words);
    let n = choose|n: int|
        0 <= n < words.len() && is_name_tag(#[trigger] words[n]) && tag == lowercase(words[n]);
    let (i, j) = piece_is_a_stretch(stem, sep, n);
    let cut = |c: char| sep.accepts(c);
    let word = stem.subrange(i, j);
    let k = choose|k: int| 0 <= k < word.len() && !is_ascii_digit(#[trigger] word[k]);
    assert(stem[i + k] == word[k]);
    assert forall|m: int| i <= m < j implies is_letter_or_digit(#[trigger] stem[m]) by {
        assert(!cut(stem[m]));
    }
    assert(is_long_word(stem, i, j));
}

/// Whether `i..j` is an item of a list that commas and semicolons cut.
pub open spec fn is_item(list: Seq<char>, i: int, j: int) -> bool {
    &&& 0 <= i <= j <= list.len()
    &&& forall|k: int| i <= k < j ==> #[trigger] list[k] != ',' && list[k] != ';'
    &&& i == 0 || list[i - 1] == ',' || list[i - 1] == ';'
    &&& j == list.len() || list[j] == ',' || list[j] == ';'
}

/// Every item that a sidecar lists is a tag, trimmed and in lower case.
pub proof fn every_listed_item_is_a_tag(list: Seq<char>, i: int, j: int)
    requires
        is_item(list, i, j),
    ensures
        listed_tags(Some(list)).contains(lowercase(trimmed(list.subrange(i, j)))),
{
    let sep = Separator::CommaOrSemicolon;
    assert(is_stretch(list, |c: char| sep.accepts(c), i, j));
    let n = stretch_is_a_piece(list, sep, i, j);
    assert(listed_tags(Some(list))[n] == lowercase(trimmed(list.subrange(i, j))));
}

/// Every tag of a sidecar is such an item, and without a list there is none.
pub proof fn every_listed_tag_is_an_item(list: Option<Seq<char>>, tag: Seq<char>)
    requires
        listed_tags(list).contains(tag),
    ensures
        list is Some,
        exists|i: int, j: int|
            is_item(list->0, i, j) && tag == lowercase(
                trimmed(#[trigger] (list->0).subrange(i, j)),
            ),
{
    let sep = Separator::CommaOrSemicolon;
    let l = list->0;
    let n = listed_tags(list).index_of(tag);
    let (i, j) = piece_is_a_stretch(l, sep, n);
    let cut = |c: char| sep.accepts(c);
    assert forall|k: int| i <= k < j implies #[trigger] l[k] != ',' && l[k] != ';' by {
        assert(!cut(l[k]));
    }
    assert(is_item(l, i, j));
    assert(tag == lowercase(trimmed(l.subrange(i, j))));
}

/// Labels that are not empty and have no comma come back out of a packed text as
/// they went in, each stands in it between commas, and nothing else does. Only
/// when there are no labels is there no text.
pub proof fn packing_keeps_every_label(labels: Seq<Seq<char>>, label: Seq<char>)
    requires
        forall|i: int|
            0 <= i < labels.len() ==> (#[trigger] labels[i]).len() > 0 && !labels[i].contains(','),
        label.len() > 0,
        !label.contains(','),
    ensures
        packed(labels) is None <==> labels.len() == 0,
        labels.len() > 0 ==> unpacked(packed(labels)->0) == labels,
        labels.len() > 0 ==> (labels.contains(label) <==> exists|i: int|
            occurs_at(packed(labels)->0, seq![','] + label + seq![','], i)),
{
    if labels.len() > 0 {
        unpacking_undoes_packing(labels);
        packed_text_shows_its_labels(labels, label);
    }
}

} // verus!
