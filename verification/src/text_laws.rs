//! What the functions on texts promise.

use crate::text::{
    all_digits, contains, digits_value, ends_with, eq_ignore_ascii_case, fields, first_index,
    is_digit, is_white_space, occurs_at, parse_i32, precedes, replace, replaced, split, split_once,
    text_before, trim, trimmed, white_space,
};
use vstd::prelude::*;

verus! {

/// White space is what Unicode counts as such.
pub proof fn law_white_space_is_told(c: char, r: bool)
    requires
        call_ensures(white_space, (c,), r),
    ensures
        r <==> {
            let code = c as int;
            ||| 0x9 <= code <= 0xD
            ||| code == 0x20
            ||| code == 0x85
            ||| code == 0xA0
            ||| code == 0x1680
            ||| 0x2000 <= code <= 0x200A
            ||| 0x2028 <= code <= 0x2029
            ||| code == 0x202F
            ||| code == 0x205F
            ||| code == 0x3000
        },
        r == is_white_space(c),
{
}

/// Where the trimmed text begins in `s`.
proof fn lemma_margins(s: Seq<char>) -> (at: int)
    ensures
        ({
            let inner = trimmed(s);
            &&& 0 <= at
            &&& at + inner.len() <= s.len()
            &&& s.subrange(at, at + inner.len()) == inner
            &&& forall|i: int| 0 <= i < at ==> is_white_space(#[trigger] s[i])
            &&& forall|i: int|
                at + inner.len() <= i < s.len() ==> is_white_space(#[trigger] s[i])
            &&& inner.len() > 0 ==> !is_white_space(inner[0]) && !is_white_space(inner.last())
        }),
    decreases s.len(),
{
    let inner = trimmed(s);
    if s.len() > 0 && is_white_space(s[0]) {
        let rest = s.skip(1);
        let at = lemma_margins(rest);
        assert(s.subrange(at + 1, at + 1 + inner.len()) =~= rest.subrange(at, at + inner.len()));
        assert forall|i: int| 0 <= i < at + 1 implies is_white_space(#[trigger] s[i]) by {
            if i > 0 {
                assert(rest[i - 1] == s[i]);
            }
        }
        assert forall|i: int| at + 1 + inner.len() <= i < s.len() implies is_white_space(
            #[trigger] s[i],
        ) by {
            assert(rest[i - 1] == s[i]);
        }
        at + 1
    } else if s.len() > 0 && is_white_space(s.last()) {
        let rest = s.drop_last();
        let at = lemma_margins(rest);
        assert(s.subrange(at, at + inner.len()) =~= rest.subrange(at, at + inner.len()));
        assert forall|i: int| 0 <= i < at implies is_white_space(#[trigger] s[i]) by {
            assert(rest[i] == s[i]);
        }
        assert forall|i: int| at + inner.len() <= i < s.len() implies is_white_space(
            #[trigger] s[i],
        ) by {
            if i < s.len() - 1 {
                assert(rest[i] == s[i]);
            }
        }
        at
    } else {
        assert(s.subrange(0, s.len() as int) =~= s);
        0
    }
}

/// Trimming takes white space off both ends, all of it and nothing else.
pub proof fn law_only_margins_are_trimmed(text: &str, inner: &str)
    requires
        call_ensures(trim, (text,), inner),
    ensures
        inner@.len() > 0 ==> !is_white_space(inner@[0]) && !is_white_space(inner@.last()),
        exists|at: int|
            {
                &&& 0 <= at
                &&& at + inner@.len() <= text@.len()
                &&& #[trigger] text@.subrange(at, at + inner@.len()) == inner@
                &&& forall|i: int|
                    0 <= i < text@.len() && !(at <= i < at + inner@.len()) ==> is_white_space(
                        #[trigger] text@[i],
                    )
            },
{
    let at = lemma_margins(text@);
    assert(text@.subrange(at, at + inner@.len()) == inner@);
}

/// Two texts are equal but for case exactly if they are equal character by character,
/// where a letter from A to Z may stand for its small one.
pub proof fn law_case_is_ignored(a: &str, b: &str, same: bool)
    requires
        call_ensures(eq_ignore_ascii_case, (a, b), same),
    ensures
        same <==> a@.len() == b@.len() && forall|i: int|
            0 <= i < a@.len() ==> {
                ||| (#[trigger] a@[i]) == b@[i]
                ||| 'A' <= a@[i] <= 'Z' && b@[i] as int == a@[i] as int + 32
                ||| 'A' <= b@[i] <= 'Z' && a@[i] as int == b@[i] as int + 32
            },
{
}

/// A text contains a part exactly if the part stands somewhere in it, and ends with it
/// exactly if it stands at the end.
pub proof fn law_parts_are_found(text: &str, part: &str, found: bool, at_end: bool, at: int)
    requires
        call_ensures(contains, (text, part), found),
        call_ensures(ends_with, (text, part), at_end),
    ensures
        0 <= at && at + part@.len() <= text@.len() && text@.subrange(at, at + part@.len()) == part@
            ==> found,
        found ==> exists|k: int|
            0 <= k && k + part@.len() <= text@.len() && #[trigger] text@.subrange(
                k,
                k + part@.len(),
            ) == part@,
        at_end <==> text@.len() >= part@.len() && text@.skip(text@.len() - part@.len()) == part@,
{
    if 0 <= at && at + part@.len() <= text@.len() && text@.subrange(at, at + part@.len()) == part@ {
        assert(occurs_at(text@, part@, at));
    }
    if found {
        let k = choose|k: int| occurs_at(text@, part@, k);
        assert(text@.subrange(k, k + part@.len()) == part@);
    }
    if text@.len() >= part@.len() {
        let from = text@.len() - part@.len();
        assert(text@.subrange(from, from + part@.len()) =~= text@.skip(from));
    }
}

/// The order of texts is that of the first characters in which they differ; a text comes
/// before those that it begins.
pub proof fn law_texts_are_ordered(a: Seq<char>, b: Seq<char>, n: int)
    requires
        0 <= n <= a.len(),
        n <= b.len(),
        a.take(n) == b.take(n),
    ensures
        n < a.len() && n < b.len() && a[n] != b[n] ==> text_before(a, b) == (a[n] < b[n]),
        n == a.len() ==> text_before(a, b) == (a.len() < b.len()),
        n == b.len() ==> !text_before(a, b),
    decreases n,
{
    if n > 0 {
        assert(a.take(n)[0] == a[0]);
        assert(b.take(n)[0] == b[0]);
        assert(a.skip(1).take(n - 1) =~= a.take(n).skip(1));
        assert(b.skip(1).take(n - 1) =~= b.take(n).skip(1));
        law_texts_are_ordered(a.skip(1), b.skip(1), n - 1);
    }
}

/// The comparison of two texts goes by that order.
pub proof fn law_comparing_goes_by_the_order(a: &str, b: &str, r: bool, n: int)
    requires
        call_ensures(precedes, (a, b), r),
        0 <= n <= a@.len(),
        n <= b@.len(),
        a@.take(n) == b@.take(n),
    ensures
        n < a@.len() && n < b@.len() && a@[n] != b@[n] ==> r == (a@[n] < b@[n]),
        n == a@.len() ==> r == (a@.len() < b@.len()),
        n == b@.len() ==> !r,
{
    law_texts_are_ordered(a@, b@, n);
}

/// The pieces, one after the other, with the separator between them.
pub open spec fn joined_by(pieces: Seq<Seq<char>>, separator: char) -> Seq<char>
    decreases pieces.len(),
{
    if pieces.len() == 0 {
        Seq::empty()
    } else if pieces.len() == 1 {
        pieces[0]
    } else {
        pieces[0].push(separator) + joined_by(pieces.skip(1), separator)
    }
}

pub proof fn lemma_first_index_bounds(s: Seq<char>, a: char, b: char)
    ensures
        ({
            let at = first_index(s, a, b);
            &&& 0 <= at <= s.len()
            &&& at < s.len() ==> s[at] == a || s[at] == b
            &&& forall|i: int| 0 <= i < at ==> #[trigger] s[i] != a && s[i] != b
        }),
    decreases s.len(),
{
    if s.len() > 0 && s[0] != a && s[0] != b {
        let rest = s.skip(1);
        lemma_first_index_bounds(rest, a, b);
        let at = first_index(s, a, b);
        assert forall|i: int| 0 <= i < at implies #[trigger] s[i] != a && s[i] != b by {
            if i > 0 {
                assert(rest[i - 1] == s[i]);
            }
        }
    }
}

proof fn lemma_fields_join_up(s: Seq<char>, separator: char)
    ensures
        fields(s, separator).len() > 0,
        joined_by(fields(s, separator), separator) == s,
        forall|i: int|
            0 <= i < fields(s, separator).len() ==> !(#[trigger] fields(s, separator)[i]).contains(
                separator,
            ),
    decreases s.len(),
{
    let at = first_index(s, separator, separator);
    lemma_first_index_bounds(s, separator, separator);
    let pieces = fields(s, separator);
    if at < s.len() {
        let rest = s.skip(at + 1);
        lemma_fields_join_up(rest, separator);
        let others = fields(rest, separator);
        assert(pieces.skip(1) =~= others);
        assert(s =~= s.take(at).push(separator) + rest);
        assert forall|i: int| 0 <= i < pieces.len() implies !(#[trigger] pieces[i]).contains(
            separator,
        ) by {
            if i > 0 {
                assert(pieces[i] == others[i - 1]);
            } else {
                assert(pieces[0] == s.take(at));
            }
        }
    }
}

/// A text is split at every separator: no piece holds one, and with separators between
/// them the pieces make up the text.
pub proof fn law_pieces_make_up_the_text(text: &str, separator: char, pieces: Vec<&str>, i: int)
    requires
        call_ensures(split, (text, separator), pieces),
    ensures
        pieces@.len() > 0,
        joined_by(Seq::new(pieces@.len(), |k: int| pieces@[k]@), separator) == text@,
        0 <= i < pieces@.len() ==> !pieces@[i]@.contains(separator),
{
    lemma_fields_join_up(text@, separator);
    let parts = fields(text@, separator);
    assert(Seq::new(pieces@.len(), |k: int| pieces@[k]@) =~= parts);
    if 0 <= i < pieces@.len() {
        assert(parts[i] == pieces@[i]@);
    }
}

/// A text is split once at the first of two separators, and not at all if it holds neither.
pub proof fn law_text_is_split_once(
    text: &str,
    a: char,
    b: char,
    halves: Option<(&str, &str)>,
)
    requires
        call_ensures(split_once, (text, a, b), halves),
    ensures
        halves is Some <==> text@.contains(a) || text@.contains(b),
        halves matches Some((left, right)) ==> {
            &&& !left@.contains(a)
            &&& !left@.contains(b)
            &&& text@ == left@.push(a) + right@ || text@ == left@.push(b) + right@
        },
{
    lemma_first_index_bounds(text@, a, b);
    let at = first_index(text@, a, b);
    if let Some((left, right)) = halves {
        assert(text@[at] == a || text@[at] == b);
        assert(text@ =~= left@.push(text@[at]) + right@);
    }
}

/// Every occurrence of a part is replaced, from the front: what comes before the first one
/// stays, and the rest of the text is treated likewise. A text in which the part does not
/// occur stays as it is.
pub proof fn law_occurrences_are_replaced(
    s: Seq<char>,
    part: Seq<char>,
    with: Seq<char>,
    at: int,
)
    requires
        part.len() > 0,
        0 <= at,
        forall|k: int|
            0 <= k < at && k + part.len() <= s.len() ==> #[trigger] s.subrange(k, k + part.len())
                != part,
    ensures
        at + part.len() <= s.len() && s.subrange(at, at + part.len()) == part ==> replaced(
            s,
            part,
            with,
        ) == s.take(at) + with + replaced(s.skip(at + part.len()), part, with),
        at + part.len() > s.len() ==> replaced(s, part, with) == s,
    decreases at,
{
    let n = part.len() as int;
    if s.len() >= n {
        assert(s.subrange(0, n) =~= s.take(n));
        if at == 0 {
            if s.take(n) == part {
                assert(s.take(0) + with + replaced(s.skip(n), part, with) =~= with + replaced(
                    s.skip(n),
                    part,
                    with,
                ));
            }
        } else {
            assert(s.subrange(0, 0 + n) != part);
            let rest = s.skip(1);
            assert forall|k: int| 0 <= k < at - 1 && k + n <= rest.len() implies (
            #[trigger] rest.subrange(k, k + n)) != part by {
                assert(rest.subrange(k, k + n) =~= s.subrange(k + 1, k + 1 + n));
            }
            law_occurrences_are_replaced(rest, part, with, at - 1);
            if at + n <= s.len() && s.subrange(at, at + n) == part {
                assert(rest.subrange(at - 1, at - 1 + n) =~= s.subrange(at, at + n));
                assert(rest.skip(at - 1 + n) =~= s.skip(at + n));
                assert(seq![s[0]] + (rest.take(at - 1) + with + replaced(
                    s.skip(at + n),
                    part,
                    with,
                )) =~= s.take(at) + with + replaced(s.skip(at + n), part, with));
            }
            if at + n > s.len() {
                assert(seq![s[0]] + rest =~= s);
            }
        }
    }
}

/// Replacing goes by that.
pub proof fn law_replacing_goes_from_the_front(
    text: &str,
    part: &str,
    with: &str,
    out: String,
    at: int,
)
    requires
        call_ensures(replace, (text, part, with), out),
        part@.len() > 0,
        0 <= at,
        forall|k: int|
            0 <= k < at && k + part@.len() <= text@.len() ==> #[trigger] text@.subrange(
                k,
                k + part@.len(),
            ) != part@,
    ensures
        at + part@.len() <= text@.len() && text@.subrange(at, at + part@.len()) == part@ ==> out@
            == text@.take(at) + with@ + replaced(text@.skip(at + part@.len()), part@, with@),
        at + part@.len() > text@.len() ==> out@ == text@,
{
    law_occurrences_are_replaced(text@, part@, with@, at);
}

/// A number is read with its sign: digits alone and digits behind a plus give their value,
/// digits behind a minus its opposite, as far as it fits.
pub proof fn law_signs_are_read(
    plain: &str,
    plus: &str,
    minus: &str,
    a: Option<i32>,
    b: Option<i32>,
    c: Option<i32>,
)
    requires
        call_ensures(parse_i32, (plain,), a),
        call_ensures(parse_i32, (plus,), b),
        call_ensures(parse_i32, (minus,), c),
        plain@.len() > 0,
        all_digits(plain@),
        plus@ == seq!['+'] + plain@,
        minus@ == seq!['-'] + plain@,
    ensures
        a == b,
        a is Some <==> digits_value(plain@) <= 0x7FFF_FFFF,
        a is Some ==> a->0 == digits_value(plain@),
        c is Some <==> digits_value(plain@) <= 0x8000_0000,
        c is Some ==> c->0 == -digits_value(plain@),
{
    assert(is_digit(plain@[0]));
    assert(plus@.skip(1) =~= plain@);
    assert(minus@.skip(1) =~= plain@);
}

} // verus!
