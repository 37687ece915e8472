//! The tags of a file: those guessed from its name, those its sidecar lists,
//! and the labels that signal analysis gives it.

use vstd::prelude::*;
use vstd::utf8::encode_utf8;

use crate::text::{
    ascii_digit, comes_before, is_ascii_digit, join, joined, lowercase, occurs_at, opt_str, pieces,
    pieces_nonempty, precedes, precedes_irreflexive, precedes_total, precedes_transitive, split,
    str_texts, texts, trim, trimmed, Separator,
};

verus! {

// ---------------------------------------------------------------------------
// Ordered lists of distinct tags
// ---------------------------------------------------------------------------

/// Every tag comes before all that follow it, so none occurs twice.
pub open spec fn strictly_ordered(tags: Seq<Seq<char>>) -> bool {
    forall|i: int, j: int| 0 <= i < j < tags.len() ==> precedes(#[trigger] tags[i], #[trigger] tags[j])
}

/// Two ordered lists of the same tags are the same list: what a list holds
/// settles how it is written.
pub proof fn ordered_list_is_unique(a: Seq<Seq<char>>, b: Seq<Seq<char>>)
    requires
        strictly_ordered(a),
        strictly_ordered(b),
        forall|t: Seq<char>| a.contains(t) <==> b.contains(t),
    ensures
        a == b,
    decreases a.len(),
{
    if a.len() == 0 {
        if b.len() > 0 {
            assert(b.contains(b[0]));
        }
        assert(a =~= b);
    } else {
        assert(a.contains(a[0]));
        assert(b.len() > 0);
        assert(b.contains(b[0]));
        let i = a.index_of(b[0]);
        let j = b.index_of(a[0]);
        if a[0] != b[0] {
            assert(precedes(a[0], a[i]));
            assert(precedes(b[0], b[j]));
            precedes_transitive(a[0], b[0], a[0]);
            precedes_irreflexive(a[0]);
        }
        let x = a.drop_first();
        let y = b.drop_first();
        assert forall|t: Seq<char>| x.contains(t) <==> y.contains(t) by {
            if x.contains(t) {
                let k = x.index_of(t);
                assert(a[k + 1] == t);
                assert(precedes(a[0], a[k + 1]));
                precedes_irreflexive(a[0]);
                assert(a.contains(t));
                let m = b.index_of(t);
                assert(m > 0);
                assert(y[m - 1] == t);
            }
            if y.contains(t) {
                let k = y.index_of(t);
                assert(b[k + 1] == t);
                assert(precedes(b[0], b[k + 1]));
                precedes_irreflexive(b[0]);
                assert(b.contains(t));
                let m = a.index_of(t);
                assert(m > 0);
                assert(x[m - 1] == t);
            }
        }
        assert forall|p: int, q: int| 0 <= p < q < x.len() implies precedes(
            #[trigger] x[p],
            #[trigger] x[q],
        ) by {
            assert(precedes(a[p + 1], a[q + 1]));
        }
        assert forall|p: int, q: int| 0 <= p < q < y.len() implies precedes(
            #[trigger] y[p],
            #[trigger] y[q],
        ) by {
            assert(precedes(b[p + 1], b[q + 1]));
        }
        ordered_list_is_unique(x, y);
        assert(a =~= seq![a[0]] + x);
        assert(b =~= seq![b[0]] + y);
    }
}

/// The position at which `tag` belongs in an ordered list, and whether it is
/// there already.
pub fn ordered_position(tags: &Vec<String>, tag: &str) -> (r: (usize, bool))
    requires
        strictly_ordered(texts(tags@)),
    ensures
        r.0 <= tags@.len(),
        forall|i: int| 0 <= i < r.0 ==> precedes(#[trigger] texts(tags@)[i], tag@),
        r.1 ==> r.0 < tags@.len() && texts(tags@)[r.0 as int] == tag@,
        !r.1 ==> forall|i: int| r.0 <= i < tags@.len() ==> precedes(tag@, #[trigger] texts(tags@)[i]),
{
    let ghost all = texts(tags@);
    let mut i: usize = 0;
    while i < tags.len() && comes_before(tags[i].as_str(), tag)
        invariant
            all == texts(tags@),
            i <= tags@.len(),
            forall|j: int| 0 <= j < i ==> precedes(#[trigger] all[j], tag@),
        decreases tags@.len() - i,
    {
        assert(all[i as int] == tags@[i as int]@);
        i += 1;
    }
    if i < tags.len() {
        assert(all[i as int] == tags@[i as int]@);
        if *tags[i].as_str() == *tag {
            (i, true)
        } else {
            proof {
                precedes_total(all[i as int], tag@);
                assert forall|j: int| i <= j < tags@.len() implies precedes(
                    tag@,
                    #[trigger] all[j],
                ) by {
                    if j > i {
                        precedes_transitive(tag@, all[i as int], all[j]);
                    }
                }
            }
            (i, false)
        }
    } else {
        (i, false)
    }
}

/// Adds `tag` to an ordered list, unless it is there already.
pub fn insert_ordered(tags: &mut Vec<String>, tag: String)
    requires
        strictly_ordered(texts(old(tags)@)),
    ensures
        strictly_ordered(texts(final(tags)@)),
        forall|t: Seq<char>| #[trigger]
            texts(final(tags)@).contains(t) <==> texts(old(tags)@).contains(t) || t == tag@,
{
    let (at, present) = ordered_position(tags, tag.as_str());
    let ghost before = texts(tags@);
    let ghost t = tag@;
    if !present {
        tags.insert(at, tag);
        let ghost after = texts(tags@);
        proof {
            assert(after =~= before.insert(at as int, t));
            assert forall|u: Seq<char>| after.contains(u) <==> before.contains(u) || u == t by {
                if before.contains(u) {
                    let k = before.index_of(u);
                    if k < at {
                        assert(after[k] == u);
                    } else {
                        assert(after[k + 1] == u);
                    }
                }
                if after.contains(u) {
                    let k = after.index_of(u);
                    if k < at {
                        assert(before[k] == u);
                    } else if k > at {
                        assert(before[k - 1] == u);
                    }
                }
                assert(after[at as int] == t);
            }
            assert forall|i: int, j: int| 0 <= i < j < after.len() implies precedes(
                #[trigger] after[i],
                #[trigger] after[j],
            ) by {
                if i < at && j > at {
                    assert(after[i] == before[i] && after[j] == before[j - 1]);
                } else if i < at && j < at {
                    assert(after[i] == before[i] && after[j] == before[j]);
                } else if i > at {
                    assert(after[i] == before[i - 1] && after[j] == before[j - 1]);
                } else if j == at {
                    assert(after[i] == before[i]);
                } else {
                    assert(after[j] == before[j - 1]);
                }
            }
        }
    } else {
        assert(before.contains(t));
    }
}

// ---------------------------------------------------------------------------
// Tags from the file name and from the sidecar
// ---------------------------------------------------------------------------

/// Whether a word of a file name is worth a tag: more than two bytes long in
/// UTF-8, and not a bare number.
pub open spec fn is_name_tag(word: Seq<char>) -> bool {
    &&& encode_utf8(word).len() > 2
    &&& exists|i: int| 0 <= i < word.len() && !is_ascii_digit(#[trigger] word[i])
}

/// The lower case of the words worth a tag, each at its first occurrence.
pub open spec fn kept_words(words: Seq<Seq<char>>) -> Seq<Seq<char>>
    decreases words.len(),
{
    if words.len() == 0 {
        Seq::empty()
    } else {
        let before = kept_words(words.drop_last());
        let word = words.last();
        if is_name_tag(word) && !before.contains(lowercase(word)) {
            before.push(lowercase(word))
        } else {
            before
        }
    }
}

/// The tags that a file name suggests: its words, cut at everything that is
/// neither a letter nor a digit.
pub open spec fn name_tags(stem: Seq<char>) -> Seq<Seq<char>> {
    kept_words(pieces(stem, Separator::NonAlphanumeric))
}

/// The tags that a sidecar lists, cut at commas and semicolons.
pub open spec fn listed_tags(list: Option<Seq<char>>) -> Seq<Seq<char>> {
    match list {
        Some(l) => pieces(l, Separator::CommaOrSemicolon).map_values(
            |p: Seq<char>| lowercase(trimmed(p)),
        ),
        None => Seq::empty(),
    }
}

/// Exactly the words worth a tag are kept, in lower case, and none twice.
pub proof fn kept_words_are_the_tags(words: Seq<Seq<char>>)
    ensures
        kept_words(words).no_duplicates(),
        forall|t: Seq<char>| #[trigger]
            kept_words(words).contains(t) <==> exists|i: int|
                0 <= i < words.len() && is_name_tag(#[trigger] words[i]) && t == lowercase(words[i]),
    decreases words.len(),
{
    broadcast use vstd::seq_lib::group_seq_properties;

    if words.len() > 0 {
        let rest = words.drop_last();
        kept_words_are_the_tags(rest);
        let before = kept_words(rest);
        let word = words.last();
        assert forall|t: Seq<char>| #[trigger]
            kept_words(words).contains(t) <==> exists|i: int|
                0 <= i < words.len() && is_name_tag(#[trigger] words[i]) && t == lowercase(
                    words[i],
                ) by {
            if kept_words(words).contains(t) {
                if before.contains(t) {
                    let i = choose|i: int|
                        0 <= i < rest.len() && is_name_tag(#[trigger] rest[i]) && t == lowercase(
                            rest[i],
                        );
                    assert(words[i] == rest[i]);
                } else {
                    assert(kept_words(words).last() == t);
                    assert(words[words.len() - 1] == word);
                }
            }
            if exists|i: int|
                0 <= i < words.len() && is_name_tag(#[trigger] words[i]) && t == lowercase(
                    words[i],
                ) {
                let i = choose|i: int|
                    0 <= i < words.len() && is_name_tag(#[trigger] words[i]) && t == lowercase(
                        words[i],
                    );
                if i < rest.len() {
                    assert(rest[i] == words[i]);
                    assert(before.contains(t));
                }
            }
        }
    } else {
        assert forall|t: Seq<char>| !kept_words(words).contains(t) by {}
    }
}

/// Whether a word of a file name is worth a tag.
fn worth_a_tag(word: &String) -> (r: bool)
    ensures
        r == is_name_tag(word@),
{
    if word.as_str().as_bytes().len() <= 2 {
        return false;
    }
    for c in it: word.as_str().chars()
        invariant
            it.seq() == word@,
            encode_utf8(word@).len() > 2,
            forall|i: int| 0 <= i < it.index() ==> is_ascii_digit(#[trigger] word@[i]),
    {
        if !ascii_digit(c) {
            assert(!is_ascii_digit(word@[it.index() as int]));
            return true;
        }
    }
    false
}

/// Whether a tag is in a list.
fn has_tag(tags: &Vec<String>, tag: &str) -> (r: bool)
    ensures
        r == texts(tags@).contains(tag@),
{
    let mut i: usize = 0;
    while i < tags.len()
        invariant
            i <= tags@.len(),
            forall|j: int| 0 <= j < i ==> texts(tags@)[j] != tag@,
        decreases tags@.len() - i,
    {
        assert(texts(tags@)[i as int] == tags@[i as int]@);
        if *tags[i].as_str() == *tag {
            return true;
        }
        i += 1;
    }
    false
}

/// The tags that a file name without its extension suggests, none twice.
pub fn infer_tags_from_filename(stem: &str) -> (r: Vec<String>)
    ensures
        texts(r@) == name_tags(stem@),
        texts(r@).no_duplicates(),
{
    let words: Vec<String> = split(stem, Separator::NonAlphanumeric);
    let ghost all = texts(words@);
    let mut out: Vec<String> = Vec::new();
    let mut i: usize = 0;
    assert(texts(out@) =~= kept_words(all.take(0)));
    while i < words.len()
        invariant
            all == texts(words@),
            i <= words@.len(),
            texts(out@) == kept_words(all.take(i as int)),
        decreases words@.len() - i,
    {
        assert(all.take(i + 1).drop_last() =~= all.take(i as int));
        assert(all.take(i + 1).last() == words@[i as int]@);
        if worth_a_tag(&words[i]) {
            let tag = words[i].as_str().to_lowercase();
            if !has_tag(&out, tag.as_str()) {
                let ghost before = texts(out@);
                let ghost added = tag@;
                out.push(tag);
                assert(texts(out@) =~= before.push(added));
            }
        }
        i += 1;
    }
    assert(all.take(all.len() as int) =~= all);
    proof {
        kept_words_are_the_tags(all);
    }
    out
}

/// All the tags of a file, ordered and each once: those of its name and those
/// that its sidecar lists.
pub fn file_tags(stem: &str, listed: Option<&str>) -> (r: Vec<String>)
    ensures
        strictly_ordered(texts(r@)),
        forall|t: Seq<char>| #[trigger]
            texts(r@).contains(t) <==> name_tags(stem@).contains(t) || listed_tags(
                opt_str(listed),
            ).contains(t),
{
    let mut out: Vec<String> = Vec::new();
    let mut from_name: Vec<String> = infer_tags_from_filename(stem);
    let ghost names = name_tags(stem@);
    assert forall|t: Seq<char>| !(#[trigger] texts(out@).contains(t)) by {}
    while from_name.len() > 0
        invariant
            strictly_ordered(texts(out@)),
            forall|t: Seq<char>| #[trigger]
                names.contains(t) <==> texts(out@).contains(t) || texts(from_name@).contains(t),
        decreases from_name@.len(),
    {
        let ghost left = texts(from_name@);
        let tag = from_name.remove(0);
        let ghost added = tag@;
        insert_ordered(&mut out, tag);
        proof {
            let now = texts(from_name@);
            assert(now =~= left.drop_first());
            assert(left[0] == added);
            assert forall|t: Seq<char>| #[trigger]
                names.contains(t) <==> texts(out@).contains(t) || now.contains(t) by {
                if left.contains(t) && t != added {
                    let k = left.index_of(t);
                    assert(now[k - 1] == t);
                }
                if now.contains(t) {
                    let k = now.index_of(t);
                    assert(left[k + 1] == t);
                }
            }
        }
    }
    assert forall|t: Seq<char>| !(#[trigger] texts(from_name@).contains(t)) by {}
    if let Some(list) = listed {
        let parts: Vec<String> = split(list, Separator::CommaOrSemicolon);
        let ghost all = listed_tags(opt_str(listed));
        let mut i: usize = 0;
        assert forall|t: Seq<char>| !(#[trigger] all.take(0).contains(t)) by {}
        while i < parts.len()
            invariant
                i <= parts@.len(),
                all.len() == parts@.len(),
                forall|j: int| 0 <= j < parts@.len() ==> all[j] == lowercase(
                    trimmed(#[trigger] parts@[j]@),
                ),
                strictly_ordered(texts(out@)),
                forall|t: Seq<char>| #[trigger]
                    texts(out@).contains(t) <==> names.contains(t) || all.take(i as int).contains(
                        t,
                    ),
            decreases parts@.len() - i,
        {
            let tag = trim(parts[i].as_str()).as_str().to_lowercase();
            let ghost added = tag@;
            insert_ordered(&mut out, tag);
            proof {
                let x = all.take(i as int);
                let y = all.take(i + 1);
                assert(y =~= x.push(added));
                assert forall|t: Seq<char>| #[trigger]
                    y.contains(t) <==> x.contains(t) || t == added by {
                    if x.contains(t) {
                        let k = x.index_of(t);
                        assert(y[k] == t);
                    }
                    if y.contains(t) && t != added {
                        let k = y.index_of(t);
                        assert(x[k] == t);
                    }
                    assert(y[i as int] == added);
                }
            }
            i += 1;
        }
        assert(all.take(all.len() as int) =~= all);
    } else {
        assert forall|t: Seq<char>| !(#[trigger] listed_tags(opt_str(listed)).contains(t)) by {}
    }
    out
}

// ---------------------------------------------------------------------------
// Packed labels
// ---------------------------------------------------------------------------

/// Labels in one text, with a comma before, between and behind them, so that
/// `,label,` stands in the text for each of them. No labels, no text.
pub open spec fn packed(labels: Seq<Seq<char>>) -> Option<Seq<char>> {
    if labels.len() == 0 {
        None
    } else {
        Some(seq![','] + joined(labels, seq![',']) + seq![','])
    }
}

/// The labels in a packed text: its pieces between commas, less the empty ones.
pub open spec fn unpacked(text: Seq<char>) -> Seq<Seq<char>> {
    nonempty(pieces(text, Separator::Comma))
}

/// The pieces that are not empty, in order.
pub open spec fn nonempty(ps: Seq<Seq<char>>) -> Seq<Seq<char>>
    decreases ps.len(),
{
    if ps.len() == 0 {
        Seq::empty()
    } else {
        let before = nonempty(ps.drop_last());
        if ps.last().len() > 0 {
            before.push(ps.last())
        } else {
            before
        }
    }
}

/// A label that can be packed: not empty, and without a comma.
pub open spec fn is_label(label: Seq<char>) -> bool {
    label.len() > 0 && !label.contains(',')
}

/// Packs the labels of a file into one text.
pub fn pack_labels(labels: &Vec<&'static str>) -> (r: Option<String>)
    ensures
        match r {
            Some(t) => packed(str_texts(labels@)) == Some(t@),
            None => packed(str_texts(labels@)) is None,
        },
{
    if labels.is_empty() {
        return None;
    }
    let ghost all = str_texts(labels@);
    let mut inner: Vec<String> = Vec::new();
    let mut i: usize = 0;
    while i < labels.len()
        invariant
            all == str_texts(labels@),
            i <= labels@.len(),
            texts(inner@) == all.take(i as int),
        decreases labels@.len() - i,
    {
        let ghost before = texts(inner@);
        let label = labels[i].to_owned();
        let ghost added = label@;
        inner.push(label);
        assert(texts(inner@) =~= before.push(added));
        i += 1;
        assert(texts(inner@) =~= all.take(i as int));
    }
    assert(all.take(all.len() as int) =~= all);
    proof {
        reveal_strlit(",");
        assert(","@ =~= seq![',']);
    }
    let mut t = String::new();
    t.push(',');
    t.append(join(&inner, ",").as_str());
    t.push(',');
    assert(t@ =~= seq![','] + joined(all, seq![',']) + seq![',']);
    Some(t)
}

/// The pieces of two texts with a separator between them are the pieces of the
/// one and those of the other.
pub proof fn pieces_of_two(a: Seq<char>, c: char, b: Seq<char>, sep: Separator)
    requires
        sep.accepts(c),
    ensures
        pieces(a.push(c) + b, sep) == pieces(a, sep) + pieces(b, sep),
    decreases b.len(),
{
    pieces_nonempty(b, sep);
    let whole = a.push(c) + b;
    if b.len() == 0 {
        assert(whole =~= a.push(c));
        assert(whole.drop_last() =~= a);
        assert(pieces(whole, sep) =~= pieces(a, sep) + pieces(b, sep));
    } else {
        let rest = b.drop_last();
        pieces_of_two(a, c, rest, sep);
        pieces_nonempty(rest, sep);
        assert(whole.drop_last() =~= a.push(c) + rest);
        assert(whole.last() == b.last());
        assert(pieces(whole, sep) =~= pieces(a, sep) + pieces(b, sep));
    }
}

/// A text without a separator is its only piece.
pub proof fn piece_without_separator(a: Seq<char>, sep: Separator)
    requires
        forall|i: int| 0 <= i < a.len() ==> !sep.accepts(#[trigger] a[i]),
    ensures
        pieces(a, sep) == seq![a],
    decreases a.len(),
{
    if a.len() > 0 {
        let rest = a.drop_last();
        assert forall|i: int| 0 <= i < rest.len() implies !sep.accepts(#[trigger] rest[i]) by {
            assert(rest[i] == a[i]);
        }
        piece_without_separator(rest, sep);
        assert(rest.push(a.last()) =~= a);
        assert(pieces(a, sep) =~= seq![a]);
    } else {
        assert(a =~= Seq::empty());
    }
}

/// The pieces of joined labels are the labels.
proof fn pieces_of_joined(labels: Seq<Seq<char>>)
    requires
        labels.len() > 0,
        forall|i: int| 0 <= i < labels.len() ==> is_label(#[trigger] labels[i]),
    ensures
        pieces(joined(labels, seq![',']), Separator::Comma) == labels,
    decreases labels.len(),
{
    let last = labels.last();
    assert(is_label(labels[labels.len() - 1]));
    assert forall|i: int| 0 <= i < last.len() implies !Separator::Comma.accepts(
        #[trigger] last[i],
    ) by {
        if last[i] == ',' {
            assert(last.contains(','));
        }
    }
    piece_without_separator(last, Separator::Comma);
    if labels.len() == 1 {
        assert(labels =~= seq![last]);
    } else {
        let rest = labels.drop_last();
        assert forall|i: int| 0 <= i < rest.len() implies is_label(#[trigger] rest[i]) by {
            assert(rest[i] == labels[i]);
        }
        pieces_of_joined(rest);
        let head = joined(rest, seq![',']);
        pieces_of_two(head, ',', last, Separator::Comma);
        assert(joined(labels, seq![',']) =~= head.push(',') + last);
        assert(labels =~= rest + seq![last]);
    }
}

/// The pieces of a packed text: the labels, between two empty pieces.
proof fn pieces_of_packed(labels: Seq<Seq<char>>)
    requires
        labels.len() > 0,
        forall|i: int| 0 <= i < labels.len() ==> is_label(#[trigger] labels[i]),
    ensures
        pieces(packed(labels)->0, Separator::Comma) == seq![Seq::<char>::empty()] + labels + seq![
            Seq::<char>::empty(),
        ],
{
    let text = packed(labels)->0;
    let inner = joined(labels, seq![',']);
    let none = Seq::<char>::empty();
    pieces_of_joined(labels);
    pieces_of_two(none, ',', inner, Separator::Comma);
    let front = none.push(',') + inner;
    pieces_of_two(front, ',', none, Separator::Comma);
    assert(text =~= front.push(',') + none);
    assert(pieces(none, Separator::Comma) =~= seq![none]);
}

/// Dropping empty pieces from a list without any changes nothing.
proof fn nonempty_of_labels(labels: Seq<Seq<char>>)
    requires
        forall|i: int| 0 <= i < labels.len() ==> is_label(#[trigger] labels[i]),
    ensures
        nonempty(labels) == labels,
    decreases labels.len(),
{
    if labels.len() > 0 {
        let rest = labels.drop_last();
        assert forall|i: int| 0 <= i < rest.len() implies is_label(#[trigger] rest[i]) by {
            assert(rest[i] == labels[i]);
        }
        nonempty_of_labels(rest);
        assert(is_label(labels[labels.len() - 1]));
        assert(rest.push(labels.last()) =~= labels);
    }
}

/// Dropping empty pieces from a list behind one more empty piece.
proof fn nonempty_behind_empty(ps: Seq<Seq<char>>)
    ensures
        nonempty(seq![Seq::<char>::empty()] + ps) == nonempty(ps),
    decreases ps.len(),
{
    let whole = seq![Seq::<char>::empty()] + ps;
    if ps.len() > 0 {
        nonempty_behind_empty(ps.drop_last());
        assert(whole.drop_last() =~= seq![Seq::<char>::empty()] + ps.drop_last());
    } else {
        assert(whole.drop_last() =~= Seq::empty());
        assert(nonempty(whole.drop_last()) =~= Seq::empty());
    }
}

/// Unpacking gives back what was packed.
pub proof fn unpacking_undoes_packing(labels: Seq<Seq<char>>)
    requires
        labels.len() > 0,
        forall|i: int| 0 <= i < labels.len() ==> is_label(#[trigger] labels[i]),
    ensures
        unpacked(packed(labels)->0) == labels,
{
    let none = Seq::<char>::empty();
    pieces_of_packed(labels);
    nonempty_of_labels(labels);
    let ps = seq![none] + labels + seq![none];
    assert(ps.drop_last() =~= seq![none] + labels);
    nonempty_behind_empty(labels);
}

/// `,label,` stands in a packed text for exactly the labels that were packed.
pub proof fn packed_text_shows_its_labels(labels: Seq<Seq<char>>, label: Seq<char>)
    requires
        labels.len() > 0,
        forall|i: int| 0 <= i < labels.len() ==> is_label(#[trigger] labels[i]),
        is_label(label),
    ensures
        labels.contains(label) <==> exists|i: int|
            occurs_at(packed(labels)->0, seq![','] + label + seq![','], i),
{
    let text = packed(labels)->0;
    let pat = seq![','] + label + seq![','];
    if exists|i: int| occurs_at(text, pat, i) {
        let i = choose|i: int| occurs_at(text, pat, i);
        shown_label_was_packed(labels, label, i);
    }
    if labels.contains(label) {
        let k = labels.index_of(label);
        label_is_shown(labels, k);
    }
}

/// A text with `,label,` in it has the label among its pieces, and a piece
/// before and behind it.
proof fn shown_label_is_a_piece(text: Seq<char>, label: Seq<char>, i: int) -> (n: int)
    requires
        is_label(label),
        occurs_at(text, seq![','] + label + seq![','], i),
    ensures
        0 < n < pieces(text, Separator::Comma).len() - 1,
        pieces(text, Separator::Comma)[n] == label,
{
    let pat = seq![','] + label + seq![','];
    let before = text.take(i);
    let behind = text.skip(i + pat.len());
    let tail = label.push(',') + behind;
    assert(text =~= before.push(',') + tail) by {
        assert(text =~= before + text.subrange(i, i + pat.len()) + behind);
        assert(before + pat + behind =~= before.push(',') + tail);
    }
    assert forall|k: int| 0 <= k < label.len() implies !Separator::Comma.accepts(
        #[trigger] label[k],
    ) by {
        if label[k] == ',' {
            assert(label.contains(','));
        }
    }
    piece_without_separator(label, Separator::Comma);
    pieces_of_two(label, ',', behind, Separator::Comma);
    pieces_of_two(before, ',', tail, Separator::Comma);
    pieces_nonempty(before, Separator::Comma);
    pieces_nonempty(behind, Separator::Comma);
    pieces(before, Separator::Comma).len() as int
}

/// A label that stands between commas in a packed text was packed.
proof fn shown_label_was_packed(labels: Seq<Seq<char>>, label: Seq<char>, i: int)
    requires
        labels.len() > 0,
        forall|k: int| 0 <= k < labels.len() ==> is_label(#[trigger] labels[k]),
        is_label(label),
        occurs_at(packed(labels)->0, seq![','] + label + seq![','], i),
    ensures
        labels.contains(label),
{
    let n = shown_label_is_a_piece(packed(labels)->0, label, i);
    pieces_of_packed(labels);
    assert(labels[n - 1] == label);
}

/// The comma before a label, the label and the comma behind it stand together
/// in the packed text.
proof fn label_is_shown(labels: Seq<Seq<char>>, k: int)
    requires
        0 <= k < labels.len(),
    ensures
        exists|i: int| occurs_at(packed(labels)->0, seq![','] + labels[k] + seq![','], i),
    decreases labels.len(),
{
    let comma = seq![','];
    let pat = comma + labels[k] + comma;
    let text = packed(labels)->0;
    if k == labels.len() - 1 {
        if labels.len() == 1 {
            assert(text =~= pat);
            assert(text.subrange(0, pat.len() as int) =~= pat);
            assert(occurs_at(text, pat, 0));
        } else {
            let head = comma + joined(labels.drop_last(), comma);
            assert(text =~= head + pat);
            assert(text.subrange(head.len() as int, (head.len() + pat.len()) as int) =~= pat);
            assert(occurs_at(text, pat, head.len() as int));
        }
    } else {
        let rest = labels.drop_last();
        label_is_shown(rest, k);
        let shorter = packed(rest)->0;
        let i = choose|i: int| occurs_at(shorter, pat, i);
        assert(text =~= shorter + labels.last() + comma);
        assert(text.subrange(i, i + pat.len()) =~= shorter.subrange(i, i + pat.len()));
        assert(occurs_at(text, pat, i));
    }
}

} // verus!
