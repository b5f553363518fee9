//! What holds of words, lines, numbers and the order of names.

use crate::names;
use crate::text;
use vstd::arithmetic::power;
use vstd::prelude::*;

verus! {

/// All of `s` is white space.
pub open spec fn all_white(s: Seq<char>) -> bool {
    forall|i: int| 0 <= i < s.len() ==> text::white_space(#[trigger] s[i])
}

/// None of `s` is white space.
pub open spec fn solid(s: Seq<char>) -> bool {
    forall|i: int| 0 <= i < s.len() ==> !text::white_space(#[trigger] s[i])
}

/// `s` is empty, or neither begins nor ends with white space.
pub open spec fn solid_ends(s: Seq<char>) -> bool {
    s.len() > 0 ==> !text::white_space(s[0]) && !text::white_space(s[s.len() - 1])
}

/// White space cuts text apart: the words of the whole are the words in front of it and then those
/// behind it.
pub proof fn law_white_space_parts_words(s: Seq<char>, c: char, t: Seq<char>)
    requires
        text::white_space(c),
    ensures
        text::words(s + seq![c] + t) == text::words(s) + text::words(t),
{
    lemma_pieces_apart(s, c, t);
    Seq::filter_distributes_over_add(text::pieces(s), text::pieces(t), text::non_empty());
}

proof fn lemma_pieces_apart(s: Seq<char>, c: char, t: Seq<char>)
    requires
        text::white_space(c),
    ensures
        text::pieces(t).len() > 0,
        text::pieces(s + seq![c] + t) == text::pieces(s) + text::pieces(t),
    decreases t.len(),
{
    let whole = s + seq![c] + t;
    let none = Seq::<char>::empty();
    if t.len() == 0 {
        assert(whole.drop_last() == s);
        assert(text::pieces(s).push(none) == text::pieces(s) + seq![none]);
    } else {
        let short = t.drop_last();
        lemma_pieces_apart(s, c, short);
        assert(whole.drop_last() == s + seq![c] + short);
        let a = text::pieces(s);
        let b = text::pieces(short);
        if text::white_space(t.last()) {
            assert((a + b).push(none) == a + b.push(none));
        } else {
            let longer = b.last().push(t.last());
            assert((a + b).drop_last().push(longer) == a + b.drop_last().push(longer));
        }
    }
}

/// Text without white space is one word, and all of it belongs to that word; no text has no word.
pub proof fn law_solid_text_is_one_word(s: Seq<char>)
    requires
        solid(s),
    ensures
        s.len() > 0 ==> text::words(s) == seq![s],
        s.len() == 0 ==> text::words(s) == Seq::<Seq<char>>::empty(),
{
    lemma_pieces_solid(s);
    let nothing = Seq::<Seq<char>>::empty();
    text::lemma_filter_push(nothing, s, text::non_empty());
    assert(nothing.push(s) == seq![s]);
    reveal(Seq::filter);
    assert(nothing.filter(text::non_empty()) == nothing);
    assert(nothing.push(s) == text::pieces(s));
}

proof fn lemma_pieces_solid(s: Seq<char>)
    requires
        solid(s),
    ensures
        text::pieces(s) == seq![s],
    decreases s.len(),
{
    if s.len() > 0 {
        let front = s.drop_last();
        assert forall|i: int| 0 <= i < front.len() implies !text::white_space(
            #[trigger] front[i],
        ) by {
            assert(front[i] == s[i]);
        }
        lemma_pieces_solid(front);
        assert(!text::white_space(s[s.len() - 1]));
        assert(front.push(s.last()) == s);
        assert(seq![front].drop_last().push(s) == seq![s]);
    } else {
        assert(s == Seq::<char>::empty());
    }
}

/// Trimming takes away the white space at both ends, all of it and nothing else.
pub proof fn law_trimming_uncovers_the_middle(a: Seq<char>, middle: Seq<char>, b: Seq<char>)
    requires
        all_white(a),
        solid_ends(middle),
        all_white(b),
    ensures
        text::trimmed(a + middle + b) == middle,
{
    let none = Seq::<char>::empty();
    assert(a + middle + b == a + (middle + b));
    lemma_trim_start_over(a, middle + b);
    if middle.len() == 0 {
        assert(middle + b == b);
        assert(b + none == b);
        lemma_trim_start_over(b, none);
        assert(text::trim_end(none) == none);
    } else {
        assert((middle + b)[0] == middle[0]);
        lemma_trim_end_over(middle, b);
    }
}

pub proof fn lemma_trim_start_over(a: Seq<char>, s: Seq<char>)
    requires
        all_white(a),
    ensures
        text::trim_start(a + s) == text::trim_start(s),
    decreases a.len(),
{
    if a.len() == 0 {
        assert(a + s == s);
    } else {
        let rest = a.drop_first();
        assert forall|i: int| 0 <= i < rest.len() implies text::white_space(#[trigger] rest[i]) by {
            assert(rest[i] == a[i + 1]);
        }
        lemma_trim_start_over(rest, s);
        assert(text::white_space(a[0]));
        assert((a + s)[0] == a[0]);
        assert((a + s).drop_first() == rest + s);
    }
}

proof fn lemma_trim_end_over(s: Seq<char>, b: Seq<char>)
    requires
        all_white(b),
    ensures
        text::trim_end(s + b) == text::trim_end(s),
    decreases b.len(),
{
    if b.len() == 0 {
        assert(s + b == s);
    } else {
        let front = b.drop_last();
        assert forall|i: int| 0 <= i < front.len() implies text::white_space(
            #[trigger] front[i],
        ) by {
            assert(front[i] == b[i]);
        }
        lemma_trim_end_over(s, front);
        assert(text::white_space(b[b.len() - 1]));
        assert((s + b).drop_last() == s + front);
    }
}

/// A mark cuts text apart: the sections of the whole are the sections in front of it and then those
/// behind it.
pub proof fn law_marks_part_sections(s: Seq<char>, mark: char, t: Seq<char>)
    ensures
        text::sections(t, mark).len() > 0,
        text::sections(s + seq![mark] + t, mark) == text::sections(s, mark) + text::sections(
            t,
            mark,
        ),
    decreases t.len(),
{
    let whole = s + seq![mark] + t;
    let none = Seq::<char>::empty();
    if t.len() == 0 {
        assert(whole.drop_last() == s);
        assert(text::sections(s, mark).push(none) == text::sections(s, mark) + seq![none]);
    } else {
        let short = t.drop_last();
        law_marks_part_sections(s, mark, short);
        assert(whole.drop_last() == s + seq![mark] + short);
        let a = text::sections(s, mark);
        let b = text::sections(short, mark);
        if t.last() == mark {
            assert((a + b).push(none) == a + b.push(none));
        } else {
            let longer = b.last().push(t.last());
            assert((a + b).drop_last().push(longer) == a + b.drop_last().push(longer));
        }
    }
}

/// Text without a mark is one section, and all of it belongs to that section.
pub proof fn law_text_without_a_mark_is_one_section(s: Seq<char>, mark: char)
    requires
        !s.contains(mark),
    ensures
        text::sections(s, mark) == seq![s],
{
    let none = Seq::<char>::empty();
    text::lemma_sections_append(none, s, mark);
    assert(none + s == s);
    assert(seq![none].drop_last().push(s) == seq![s]);
}

/// `c` is the digit for `d`, in either case.
pub open spec fn writes(c: char, d: int) -> bool {
    0 <= d < 16 && (c == "0123456789ABCDEF"@[d] || c == "0123456789abcdef"@[d])
}

/// The digits are those of the sixteen characters in order, in upper and in lower case alike, and no
/// other character is one; written, a digit is in upper case.
pub proof fn law_digits_are_the_sixteen_characters(c: char, d: int)
    requires
        0 <= d < 16,
    ensures
        text::digit(d as nat) == "0123456789ABCDEF"@[d],
        text::digit_value(c) == Some(d as nat) <==> writes(c, d),
        text::digit_value(c) matches Some(v) ==> v < 16,
{
    reveal_strlit("0123456789ABCDEF");
    reveal_strlit("0123456789abcdef");
}

/// A digit alone writes its own value, and the digits of a joined run count as much more as there are
/// digits behind them.
pub proof fn law_digits_count_by_their_place(s: Seq<char>, t: Seq<char>, c: char, radix: nat)
    ensures
        text::digit_value(c) matches Some(v) ==> text::digits_value(seq![c], radix) == v,
        text::digits_value(s + t, radix) == text::digits_value(s, radix) * power::pow(
            radix as int,
            t.len(),
        ) + text::digits_value(t, radix),
    decreases t.len(),
{
    let none = Seq::<char>::empty();
    assert(seq![c].drop_last() == none);
    assert(text::digits_value(none, radix) == 0);
    assert(0 * radix == 0) by (nonlinear_arith);
    let v = text::digits_value(s, radix) as int;
    let r = radix as int;
    reveal(power::pow);
    if t.len() == 0 {
        assert(s + t == s);
        assert(v * power::pow(r, 0) == v) by (nonlinear_arith)
            requires
                power::pow(r, 0) == 1,
        ;
    } else {
        let short = t.drop_last();
        law_digits_count_by_their_place(s, short, c, radix);
        assert((s + t).drop_last() == s + short);
        let p = power::pow(r, short.len());
        let w = text::digits_value(short, radix) as int;
        assert(power::pow(r, t.len()) == r * p);
        assert((v * p + w) * r == v * (r * p) + w * r) by (nonlinear_arith);
    }
}

/// A number in decimal is made of decimal digits, begins with zero only where it is zero, and has the
/// value of the number.
pub proof fn law_decimal_writes_the_number(n: nat)
    ensures
        text::decimal(n).len() > 0,
        forall|i: int|
            0 <= i < text::decimal(n).len() ==> '0' <= #[trigger] text::decimal(n)[i] <= '9',
        text::decimal(n)[0] == '0' ==> n == 0,
        text::digits_value(text::decimal(n), 10) == n,
    decreases n,
{
    text::lemma_decimal(n);
    let d = text::decimal(n);
    assert forall|i: int| 0 <= i < d.len() implies '0' <= #[trigger] d[i] <= '9' by {
        assert(text::is_digit(d[i], 10));
    }
    if n >= 10 {
        law_decimal_writes_the_number(n / 10);
        assert(d[0] == text::decimal(n / 10)[0]);
    }
}

/// `c` is a digit of base `radix`.
pub open spec fn digit_in(c: char, radix: nat) -> bool {
    exists|d: int| 0 <= d < radix && #[trigger] writes(c, d)
}

/// The digits of a base are those with a value below it.
pub proof fn law_digits_of_a_base_are_below_it(c: char, radix: nat)
    ensures
        digit_in(c, radix) <==> text::is_digit(c, radix),
{
    assert forall|d: int| 0 <= d < radix && #[trigger] writes(c, d) implies text::is_digit(
        c,
        radix,
    ) by {
        law_digits_are_the_sixteen_characters(c, d);
    }
    if text::is_digit(c, radix) {
        let d = text::digit_value(c)->0 as int;
        assert(d < 16) by {
            law_digits_are_the_sixteen_characters(c, 0);
        }
        law_digits_are_the_sixteen_characters(c, d);
        assert(writes(c, d));
    }
}

/// A run of digits is read as the number that it writes, and refused only where that exceeds the
/// bound.
pub proof fn law_digits_are_read_as_their_number(s: Seq<char>, radix: nat, max: nat)
    requires
        s.len() > 0,
        forall|i: int| 0 <= i < s.len() ==> digit_in(#[trigger] s[i], radix),
    ensures
        text::unsigned_number(s, radix, max) == if text::digits_value(s, radix) <= max {
            Some(text::digits_value(s, radix))
        } else {
            None
        },
{
    assert forall|i: int| 0 <= i < s.len() implies text::is_digit(#[trigger] s[i], radix) by {
        law_digits_of_a_base_are_below_it(s[i], radix);
    }
    assert(text::is_digit(s[0], radix));
    assert(s[0] != '+');
}

/// One plus sign in front of a number changes nothing; alone it is no number, nor is no text.
pub proof fn law_a_plus_sign_changes_nothing(s: Seq<char>, radix: nat, max: nat)
    requires
        s.len() > 0 ==> s[0] != '+',
    ensures
        text::unsigned_number(seq!['+'] + s, radix, max) == text::unsigned_number(s, radix, max),
        s.len() == 0 ==> text::unsigned_number(s, radix, max) is None,
{
    assert((seq!['+'] + s).skip(1) == s);
}

/// Text with any other character in it is no number.
pub proof fn law_other_characters_make_no_number(s: Seq<char>, i: int, radix: nat, max: nat)
    requires
        0 <= i < s.len(),
        !digit_in(s[i], radix),
        i == 0 ==> s[0] != '+',
    ensures
        text::unsigned_number(s, radix, max) is None,
{
    law_digits_of_a_base_are_below_it(s[i], radix);
    let digits = text::without_plus(s);
    if s[0] == '+' {
        assert(digits[i - 1] == s[i]);
    } else {
        assert(digits[i] == s[i]);
    }
}

/// Names are ordered by the first character in which they differ; a name stands before every longer
/// one that begins with it.
pub proof fn law_first_difference_orders_names(
    start: Seq<char>,
    x: char,
    y: char,
    s: Seq<char>,
    t: Seq<char>,
)
    requires
        x < y,
    ensures
        names::not_after(start + seq![x] + s, start + seq![y] + t),
        !names::not_after(start + seq![y] + t, start + seq![x] + s),
        names::not_after(start, start + s),
        s.len() > 0 ==> !names::not_after(start + s, start),
    decreases start.len(),
{
    let a = start + seq![x] + s;
    let b = start + seq![y] + t;
    let longer = start + s;
    if start.len() == 0 {
        assert(a[0] == x);
        assert(b[0] == y);
        assert(longer == s);
    } else {
        let rest = start.drop_first();
        law_first_difference_orders_names(rest, x, y, s, t);
        assert(a.drop_first() == rest + seq![x] + s);
        assert(b.drop_first() == rest + seq![y] + t);
        assert(longer.drop_first() == rest + s);
        assert(a[0] == start[0]);
        assert(b[0] == start[0]);
        assert(longer[0] == start[0]);
    }
}

} // verus!
