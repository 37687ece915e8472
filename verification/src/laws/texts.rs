//! Laws on texts.

use vstd::prelude::*;

use crate::text::{
    ascii_lower, cut_at_first, equal_ignoring_ascii_case, found_from_is_first, is_letter_or_digit,
    is_white_space, joined, occurs_at, pieces, pieces_nonempty, precedes, texts, trimmed,
    Separator,
};

verus! {

/// Whether a text is white space throughout.
pub open spec fn is_blank(s: Seq<char>) -> bool {
    forall|i: int| 0 <= i < s.len() ==> is_white_space(#[trigger] s[i])
}

/// What trimming takes off at the front and at the back.
proof fn trimmed_off(s: Seq<char>) -> (r: (Seq<char>, Seq<char>))
    ensures
        is_blank(r.0),
        is_blank(r.1),
        s == r.0 + trimmed(s) + r.1,
    decreases s.len(),
{
    if s.len() > 0 && is_white_space(s.first()) {
        let (a, b) = trimmed_off(s.drop_first());
        let front = seq![s.first()] + a;
        assert forall|i: int| 0 <= i < front.len() implies is_white_space(#[trigger] front[i]) by {
            if i > 0 {
                assert(front[i] == a[i - 1]);
            }
        }
        assert(s =~= seq![s.first()] + s.drop_first());
        assert(s =~= front + trimmed(s) + b);
        (front, b)
    } else if s.len() > 0 && is_white_space(s.last()) {
        let (a, b) = trimmed_off(s.drop_last());
        let back = b.push(s.last());
        assert forall|i: int| 0 <= i < back.len() implies is_white_space(#[trigger] back[i]) by {
            if i < b.len() {
                assert(back[i] == b[i]);
            }
        }
        assert(s =~= s.drop_last().push(s.last()));
        assert(s =~= a + trimmed(s) + back);
        (a, back)
    } else {
        let none = Seq::<char>::empty();
        assert(s =~= none + trimmed(s) + none);
        (none, none)
    }
}

/// Trimming takes white space off at both ends and nothing else, and as much of
/// it as there is.
pub proof fn trimming_takes_off_white_space_only(s: Seq<char>)
    ensures
        exists|a: Seq<char>, b: Seq<char>|
            is_blank(a) && is_blank(b) && s == #[trigger] (a + trimmed(s) + b),
        trimmed(s).len() > 0 ==> !is_white_space(trimmed(s).first()) && !is_white_space(
            trimmed(s).last(),
        ),
    decreases s.len(),
{
    let (a, b) = trimmed_off(s);
    assert(s == a + trimmed(s) + b);
    trimmed_ends(s);
}

/// A trimmed text neither begins nor ends with white space.
proof fn trimmed_ends(s: Seq<char>)
    ensures
        trimmed(s).len() > 0 ==> !is_white_space(trimmed(s).first()) && !is_white_space(
            trimmed(s).last(),
        ),
    decreases s.len(),
{
    if s.len() > 0 && is_white_space(s.first()) {
        trimmed_ends(s.drop_first());
    } else if s.len() > 0 && is_white_space(s.last()) {
        trimmed_ends(s.drop_last());
    }
}

/// Which characters the separators are.
pub proof fn separators_are_these(c: char)
    ensures
        Separator::Comma.accepts(c) <==> c == ',',
        Separator::CommaOrSemicolon.accepts(c) <==> c == ',' || c == ';',
        Separator::LineFeed.accepts(c) <==> c == '\n',
        Separator::WhiteSpace.accepts(c) <==> is_white_space(c),
        Separator::NonAlphanumeric.accepts(c) <==> !is_letter_or_digit(c),
{
}

/// Whether `i..j` is a stretch of `s` without a separator that ends, on either
/// side, at a separator or at the end of the text.
pub open spec fn is_stretch(s: Seq<char>, cut: spec_fn(char) -> bool, i: int, j: int) -> bool {
    &&& 0 <= i <= j <= s.len()
    &&& forall|k: int| i <= k < j ==> !cut(#[trigger] s[k])
    &&& i == 0 || cut(s[i - 1])
    &&& j == s.len() || cut(s[j])
}

/// A piece is such a stretch.
pub proof fn piece_is_a_stretch(s: Seq<char>, sep: Separator, k: int) -> (r: (int, int))
    requires
        0 <= k < pieces(s, sep).len(),
    ensures
        is_stretch(s, |c: char| sep.accepts(c), r.0, r.1),
        pieces(s, sep)[k] == s.subrange(r.0, r.1),
        k == pieces(s, sep).len() - 1 <==> r.1 == s.len(),
    decreases s.len(),
{
    let cut = |c: char| sep.accepts(c);
    if s.len() == 0 {
        assert(s.subrange(0, 0) =~= Seq::empty());
        (0, 0)
    } else {
        let t = s.drop_last();
        let before = pieces(t, sep);
        pieces_nonempty(t, sep);
        if sep.accepts(s.last()) {
            if k == before.len() {
                assert(s.subrange(s.len() as int, s.len() as int) =~= Seq::empty());
                (s.len() as int, s.len() as int)
            } else {
                let (i, j) = piece_is_a_stretch(t, sep, k);
                assert(t.subrange(i, j) =~= s.subrange(i, j));
                assert forall|m: int| i <= m < j implies !cut(#[trigger] s[m]) by {
                    assert(!cut(t[m]));
                }
                (i, j)
            }
        } else {
            let (i, j) = piece_is_a_stretch(t, sep, k);
            if k == before.len() - 1 {
                assert(t.subrange(i, j).push(s.last()) =~= s.subrange(i, s.len() as int));
                assert forall|m: int| i <= m < s.len() implies !cut(#[trigger] s[m]) by {
                    if m < t.len() {
                        assert(!cut(t[m]));
                    }
                }
                (i, s.len() as int)
            } else {
                assert(t.subrange(i, j) =~= s.subrange(i, j));
                assert forall|m: int| i <= m < j implies !cut(#[trigger] s[m]) by {
                    assert(!cut(t[m]));
                }
                (i, j)
            }
        }
    }
}

/// Every such stretch is a piece.
pub proof fn stretch_is_a_piece(s: Seq<char>, sep: Separator, i: int, j: int) -> (k: int)
    requires
        is_stretch(s, |c: char| sep.accepts(c), i, j),
    ensures
        0 <= k < pieces(s, sep).len(),
        pieces(s, sep)[k] == s.subrange(i, j),
        k == pieces(s, sep).len() - 1 <==> j == s.len(),
    decreases s.len(),
{
    let cut = |c: char| sep.accepts(c);
    if s.len() == 0 {
        assert(s.subrange(0, 0) =~= Seq::empty());
        0
    } else {
        let t = s.drop_last();
        let before = pieces(t, sep);
        pieces_nonempty(t, sep);
        if j < s.len() {
            assert forall|m: int| i <= m < j implies !cut(#[trigger] t[m]) by {
                assert(!cut(s[m]));
            }
            assert(is_stretch(t, cut, i, j));
            let k = stretch_is_a_piece(t, sep, i, j);
            assert(t.subrange(i, j) =~= s.subrange(i, j));
            k
        } else if i == j {
            assert(cut(s[i - 1]));
            assert(s.subrange(i, j) =~= Seq::empty());
            before.len() as int
        } else {
            assert(!cut(s[j - 1]));
            assert forall|m: int| i <= m < t.len() implies !cut(#[trigger] t[m]) by {
                assert(!cut(s[m]));
            }
            assert(is_stretch(t, cut, i, t.len() as int));
            let k = stretch_is_a_piece(t, sep, i, t.len() as int);
            assert(t.subrange(i, t.len() as int).push(s.last()) =~= s.subrange(i, j));
            k
        }
    }
}

/// Joining puts the separator between two neighbours, and nowhere else.
pub proof fn joining_puts_the_separator_between(
    a: Seq<Seq<char>>,
    b: Seq<Seq<char>>,
    sep: Seq<char>,
)
    ensures
        joined(Seq::empty(), sep) == Seq::<char>::empty(),
        a.len() == 1 ==> joined(a, sep) == a[0],
        a.len() > 0 && b.len() > 0 ==> joined(a + b, sep) == joined(a, sep) + sep + joined(b, sep),
    decreases b.len(),
{
    if a.len() > 0 && b.len() > 0 {
        let whole = a + b;
        assert(whole.last() == b.last());
        if b.len() == 1 {
            assert(whole.drop_last() =~= a);
        } else {
            joining_puts_the_separator_between(a, b.drop_last(), sep);
            assert(whole.drop_last() =~= a + b.drop_last());
            assert(joined(whole, sep) =~= joined(a, sep) + sep + joined(b, sep));
        }
    }
}

/// Cutting a text at a pattern loses nothing of it but the pattern, and cuts at
/// its first occurrence. A text that is not cut does not hold the pattern.
pub proof fn cutting_loses_only_the_pattern(s: Seq<char>, pat: Seq<char>)
    ensures
        match cut_at_first(s, pat) {
            Some((left, right)) => s == left + pat + right && (forall|j: int|
                0 <= j < left.len() ==> !occurs_at(s, pat, j)),
            None => forall|j: int| !occurs_at(s, pat, j),
        },
{
    found_from_is_first(s, pat, 0);
    match cut_at_first(s, pat) {
        Some((left, right)) => {
            let i = left.len() as int;
            assert(occurs_at(s, pat, i));
            assert(s =~= s.take(i) + s.subrange(i, i + pat.len()) + s.skip(i + pat.len()));
        },
        None => {},
    }
}

/// Of two texts one comes first when the other goes on where it ends, or by the
/// first character in which they differ.
pub proof fn first_difference_decides(a: Seq<char>, b: Seq<char>, k: int)
    requires
        0 <= k <= a.len(),
        k <= b.len(),
        forall|i: int| 0 <= i < k ==> a[i] == b[i],
        k < a.len() && k < b.len() ==> a[k] != b[k],
        k < a.len() || k < b.len(),
    ensures
        precedes(a, b) <==> k < b.len() && (k == a.len() || (a[k] as int) < (b[k] as int)),
    decreases k,
{
    if k > 0 {
        let x = a.drop_first();
        let y = b.drop_first();
        assert forall|i: int| 0 <= i < k - 1 implies x[i] == y[i] by {
            assert(a[i + 1] == b[i + 1]);
        }
        first_difference_decides(x, y, k - 1);
        assert(a[0] == b[0]);
    }
}

/// Two texts are the same but for case when they are equally long and their
/// characters are the same but for case, one by one.
pub proof fn case_is_ignored_letter_by_letter(a: Seq<char>, b: Seq<char>)
    ensures
        equal_ignoring_ascii_case(a, b) <==> a.len() == b.len() && forall|i: int|
            0 <= i < a.len() ==> ascii_lower(#[trigger] a[i]) == ascii_lower(b[i]),
{
    let low = |c: char| ascii_lower(c);
    if equal_ignoring_ascii_case(a, b) {
        assert(a.map_values(low).len() == b.map_values(low).len());
        assert forall|i: int| 0 <= i < a.len() implies ascii_lower(#[trigger] a[i]) == ascii_lower(
            b[i],
        ) by {
            assert(a.map_values(low)[i] == b.map_values(low)[i]);
        }
    }
    if a.len() == b.len() && forall|i: int|
        0 <= i < a.len() ==> ascii_lower(#[trigger] a[i]) == ascii_lower(b[i]) {
        assert(a.map_values(low) =~= b.map_values(low));
    }
}

/// The contents of strings are those of each string, in order.
pub proof fn contents_are_those_of_each_string(v: Seq<String>)
    ensures
        texts(v).len() == v.len(),
        forall|i: int| 0 <= i < v.len() ==> #[trigger] texts(v)[i] == v[i]@,
{
}

} // verus!
