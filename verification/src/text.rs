//! Characters, words and numbers in text.

use vstd::prelude::*;
use vstd::slice::slice_subrange;

verus! {

/// Appends one character to a string.
///
/// Trusted: `String::push` leaves the old contents as they were and puts `ch` behind them.
pub assume_specification[ String::push ](string: &mut String, ch: char)
    ensures
        final(string)@ == old(string)@.push(ch),
;

/// The characters with the Unicode property `White_Space`.
pub open spec fn white_space(c: char) -> bool {
    let n = c as u32;
    ||| 0x9 <= n <= 0xd
    ||| n == 0x20
    ||| n == 0x85
    ||| n == 0xa0
    ||| n == 0x1680
    ||| 0x2000 <= n <= 0x200a
    ||| n == 0x2028
    ||| n == 0x2029
    ||| n == 0x202f
    ||| n == 0x205f
    ||| n == 0x3000
}

/// Whether `c` is white space.
pub fn is_white_space(c: char) -> (result: bool)
    ensures
        result == white_space(c),
{
    let n: u32 = c as u32;
    (0x9 <= n && n <= 0xd) || n == 0x20 || n == 0x85 || n == 0xa0 || n == 0x1680 || (0x2000 <= n
        && n <= 0x200a) || n == 0x2028 || n == 0x2029 || n == 0x202f || n == 0x205f || n == 0x3000
}

/// The characters of `s`, one by one.
pub fn to_chars(s: &str) -> (result: Vec<char>)
    ensures
        result@ == s@,
{
    let mut result: Vec<char> = Vec::new();
    for c in it: s.chars()
        invariant
            it.seq() == s@,
            result@ == s@.take(it.index() as int),
    {
        result.push(c);
    }
    assert(s@.take(s@.len() as int) == s@);
    result
}

/// The string made of `chars`.
pub fn to_text(chars: &[char]) -> (result: String)
    ensures
        result@ == chars@,
{
    let mut result = String::new();
    push_chars(&mut result, chars);
    result
}

/// Appends `chars` to `out`.
pub fn push_chars(out: &mut String, chars: &[char])
    ensures
        final(out)@ == old(out)@ + chars@,
{
    let mut i: usize = 0;
    while i < chars.len()
        invariant
            i <= chars.len(),
            out@ == old(out)@ + chars@.take(i as int),
        decreases chars.len() - i,
    {
        out.push(chars[i]);
        i += 1;
    }
    assert(chars@.take(i as int) == chars@);
}

/// Whether two runs of characters are the same.
pub fn same_chars(a: &[char], b: &[char]) -> (result: bool)
    ensures
        result == (a@ == b@),
{
    if a.len() != b.len() {
        return false;
    }
    let mut i: usize = 0;
    while i < a.len()
        invariant
            i <= a.len(),
            a.len() == b.len(),
            forall|j: int| 0 <= j < i ==> a[j] == b[j],
        decreases a.len() - i,
    {
        if a[i] != b[i] {
            return false;
        }
        i += 1;
    }
    assert(a@ =~= b@);
    true
}

/// `s` without the white space in front.
pub open spec fn trim_start(s: Seq<char>) -> Seq<char>
    decreases s.len(),
{
    if s.len() > 0 && white_space(s[0]) {
        trim_start(s.drop_first())
    } else {
        s
    }
}

/// `s` without the white space behind.
pub open spec fn trim_end(s: Seq<char>) -> Seq<char>
    decreases s.len(),
{
    if s.len() > 0 && white_space(s.last()) {
        trim_end(s.drop_last())
    } else {
        s
    }
}

/// `s` without the white space at both ends.
pub open spec fn trimmed(s: Seq<char>) -> Seq<char> {
    trim_end(trim_start(s))
}

/// `s` holds nothing but white space.
pub open spec fn blank(s: Seq<char>) -> bool {
    forall|i: int| 0 <= i < s.len() ==> white_space(#[trigger] s[i])
}

/// Drops the white space at both ends.
pub fn trim(s: &[char]) -> (result: &[char])
    ensures
        result@ == trimmed(s@),
{
    let mut start: usize = 0;
    assert(s@.skip(0) == s@);
    while start < s.len() && is_white_space(s[start])
        invariant
            start <= s.len(),
            trim_start(s@.skip(start as int)) == trim_start(s@),
        decreases s.len() - start,
    {
        assert(s@.skip(start as int).drop_first() == s@.skip(start + 1));
        start += 1;
    }
    let mut end: usize = s.len();
    assert(s@.subrange(start as int, end as int) == s@.skip(start as int));
    assert(trim_start(s@) == s@.skip(start as int));
    while end > start && is_white_space(s[end - 1])
        invariant
            start <= end <= s.len(),
            trim_end(s@.subrange(start as int, end as int)) == trimmed(s@),
        decreases end,
    {
        assert(s@.subrange(start as int, end as int).drop_last() == s@.subrange(
            start as int,
            end - 1,
        ));
        end -= 1;
    }
    slice_subrange(s, start, end)
}

/// Whether `s` holds nothing but white space.
pub fn is_blank(s: &[char]) -> (result: bool)
    ensures
        result == blank(s@),
{
    let mut i: usize = 0;
    while i < s.len()
        invariant
            i <= s.len(),
            forall|j: int| 0 <= j < i ==> white_space(#[trigger] s@[j]),
        decreases s.len() - i,
    {
        if !is_white_space(s[i]) {
            return false;
        }
        i += 1;
    }
    true
}

/// What lies between the white-space characters of `s`, in order: two such characters side by side
/// have an empty piece between them.
pub open spec fn pieces(s: Seq<char>) -> Seq<Seq<char>>
    decreases s.len(),
{
    if s.len() == 0 {
        seq![Seq::empty()]
    } else {
        let before = pieces(s.drop_last());
        if white_space(s.last()) {
            before.push(Seq::empty())
        } else {
            before.drop_last().push(before.last().push(s.last()))
        }
    }
}

/// Not empty.
pub open spec fn non_empty() -> spec_fn(Seq<char>) -> bool {
    |piece: Seq<char>| piece.len() > 0
}

/// The words of `s`: the non-empty pieces between its white space, in order.
pub open spec fn words(s: Seq<char>) -> Seq<Seq<char>> {
    pieces(s).filter(non_empty())
}

/// The contents of runs of characters.
pub open spec fn runs(list: Seq<&[char]>) -> Seq<Seq<char>> {
    list.map_values(|run: &[char]| run@)
}

/// Filtering `list` with `item` behind it: the item is kept or dropped, the rest is filtered as before.
pub proof fn lemma_filter_push<A>(list: Seq<A>, item: A, keep: spec_fn(A) -> bool)
    ensures
        list.push(item).filter(keep) == if keep(item) {
            list.filter(keep).push(item)
        } else {
            list.filter(keep)
        },
{
    reveal(Seq::filter);
    assert(list.push(item).drop_last() == list);
}

/// Cuts `s` into its words.
pub fn split_words<'a>(s: &'a [char]) -> (result: Vec<&'a [char]>)
    ensures
        runs(result@) == words(s@),
{
    let mut result: Vec<&'a [char]> = Vec::new();
    let mut start: usize = 0;
    let mut i: usize = 0;
    proof {
        assert(s@.subrange(0, 0) == Seq::<char>::empty());
        assert(s@.take(0) == Seq::<char>::empty());
        assert(pieces(s@.take(0)).drop_last() == Seq::<Seq<char>>::empty());
        reveal(Seq::filter);
        assert(runs(result@) == Seq::<Seq<char>>::empty());
    }
    while i < s.len()
        invariant
            start <= i <= s.len(),
            pieces(s@.take(i as int)).len() > 0,
            pieces(s@.take(i as int)).last() == s@.subrange(start as int, i as int),
            runs(result@) == pieces(s@.take(i as int)).drop_last().filter(non_empty()),
        decreases s.len() - i,
    {
        let ghost before = pieces(s@.take(i as int));
        assert(s@.take(i + 1).drop_last() == s@.take(i as int));
        if is_white_space(s[i]) {
            proof {
                assert(before.push(Seq::<char>::empty()).drop_last() == before);
                assert(before.drop_last().push(before.last()) == before);
                lemma_filter_push(before.drop_last(), before.last(), non_empty());
            }
            if start < i {
                let word = slice_subrange(s, start, i);
                let ghost old_runs = runs(result@);
                result.push(word);
                assert(runs(result@) == old_runs.push(word@));
            }
            start = i + 1;
            assert(s@.subrange(i + 1, i + 1) == Seq::<char>::empty());
        } else {
            assert(s@.subrange(start as int, i + 1) == s@.subrange(start as int, i as int).push(
                s@[i as int],
            ));
            assert(before.drop_last().push(before.last().push(s@[i as int])).drop_last()
                == before.drop_last());
        }
        i += 1;
    }
    let ghost all = pieces(s@.take(i as int));
    proof {
        assert(s@.take(i as int) == s@);
        assert(all.drop_last().push(all.last()) == all);
        lemma_filter_push(all.drop_last(), all.last(), non_empty());
    }
    if start < i {
        let word = slice_subrange(s, start, i);
        let ghost old_runs = runs(result@);
        result.push(word);
        assert(runs(result@) == old_runs.push(word@));
    }
    result
}

/// The digit for `d`, upper case from ten on.
pub open spec fn digit(d: nat) -> char
    recommends
        d < 16,
{
    if d < 10 {
        (0x30 + d) as char
    } else {
        (0x41 + d - 10) as char
    }
}

/// The digit for `d`, upper case from ten on.
pub fn digit_char(d: u8) -> (result: char)
    requires
        d < 16,
    ensures
        result == digit(d as nat),
{
    if d < 10 {
        (0x30u8 + d) as char
    } else {
        (0x41u8 + (d - 10)) as char
    }
}

/// `n` in decimal.
pub open spec fn decimal(n: nat) -> Seq<char>
    decreases n,
{
    if n < 10 {
        seq![digit(n)]
    } else {
        decimal(n / 10).push(digit(n % 10))
    }
}

/// Appends `n` in decimal to `out`.
pub fn push_decimal(out: &mut String, n: u64)
    ensures
        final(out)@ == old(out)@ + decimal(n as nat),
    decreases n,
{
    if n >= 10 {
        push_decimal(out, n / 10);
    }
    out.push(digit_char((n % 10) as u8));
    proof {
        let front = if n < 10 {
            Seq::<char>::empty()
        } else {
            decimal((n / 10) as nat)
        };
        assert(old(out)@ + front.push(digit((n % 10) as nat)) == (old(out)@ + front).push(
            digit((n % 10) as nat),
        ));
        assert(seq![digit(n as nat)] == Seq::<char>::empty().push(digit(n as nat)));
    }
}

/// What `c` counts as a digit of a base up to sixteen.
pub open spec fn digit_value(c: char) -> Option<nat> {
    if '0' <= c <= '9' {
        Some((c as nat - 0x30) as nat)
    } else if 'a' <= c <= 'f' {
        Some((c as nat - 0x61 + 10) as nat)
    } else if 'A' <= c <= 'F' {
        Some((c as nat - 0x41 + 10) as nat)
    } else {
        None
    }
}

/// `c` is a digit of base `radix`.
pub open spec fn is_digit(c: char, radix: nat) -> bool {
    digit_value(c) is Some && digit_value(c)->0 < radix
}

/// Every character of `s` is a digit of base `radix`.
pub open spec fn all_digits(s: Seq<char>, radix: nat) -> bool {
    forall|i: int| 0 <= i < s.len() ==> is_digit(#[trigger] s[i], radix)
}

/// The number that the digits `s` write in base `radix`.
pub open spec fn digits_value(s: Seq<char>, radix: nat) -> nat
    decreases s.len(),
{
    if s.len() == 0 {
        0
    } else {
        digits_value(s.drop_last(), radix) * radix + digit_value(s.last())->0
    }
}

/// `s` without the plus sign in front, where it has one.
pub open spec fn without_plus(s: Seq<char>) -> Seq<char> {
    if s.len() > 0 && s[0] == '+' {
        s.skip(1)
    } else {
        s
    }
}

/// The number that `s` writes in base `radix`: an optional plus sign and then at least one digit,
/// nothing else. None where `s` has another form or where the number exceeds `max`.
pub open spec fn unsigned_number(s: Seq<char>, radix: nat, max: nat) -> Option<nat> {
    let digits = without_plus(s);
    if digits.len() > 0 && all_digits(digits, radix) && digits_value(digits, radix) <= max {
        Some(digits_value(digits, radix))
    } else {
        None
    }
}

proof fn lemma_digits_value_grows(s: Seq<char>, radix: nat, i: int)
    requires
        0 <= i <= s.len(),
        radix >= 1,
    ensures
        digits_value(s.take(i), radix) <= digits_value(s, radix),
    decreases s.len(),
{
    if i == s.len() {
        assert(s.take(i) == s);
    } else {
        lemma_digits_value_grows(s.drop_last(), radix, i);
        assert(s.drop_last().take(i) == s.take(i));
        let v = digits_value(s.drop_last(), radix);
        assert(v <= v * radix) by (nonlinear_arith)
            requires
                radix >= 1,
        ;
    }
}

/// What `c` counts as a digit of base `radix`, where it is one.
fn digit_of(c: char, radix: u32) -> (result: Option<u32>)
    ensures
        match result {
            Some(v) => is_digit(c, radix as nat) && digit_value(c) == Some(v as nat),
            None => !is_digit(c, radix as nat),
        },
{
    let n: u32 = c as u32;
    let v: u32 = if '0' <= c && c <= '9' {
        n - 0x30
    } else if 'a' <= c && c <= 'f' {
        n - 0x61 + 10
    } else if 'A' <= c && c <= 'F' {
        n - 0x41 + 10
    } else {
        return None;
    };
    if v < radix {
        Some(v)
    } else {
        None
    }
}

/// Whether `c` is an ASCII hexadecimal digit.
pub fn is_hex_digit(c: char) -> (result: bool)
    ensures
        result == is_digit(c, 16),
{
    digit_of(c, 16).is_some()
}

/// Reads an unsigned number of base `radix`, at most `max`.
pub fn parse_unsigned(s: &[char], radix: u32, max: u32) -> (result: Option<u32>)
    requires
        2 <= radix <= 16,
    ensures
        match result {
            Some(v) => unsigned_number(s@, radix as nat, max as nat) == Some(v as nat),
            None => unsigned_number(s@, radix as nat, max as nat) is None,
        },
{
    let digits = if s.len() > 0 && s[0] == '+' {
        slice_subrange(s, 1, s.len())
    } else {
        s
    };
    assert(digits@ == without_plus(s@));
    if digits.len() == 0 {
        return None;
    }
    let mut value: u32 = 0;
    let mut i: usize = 0;
    while i < digits.len()
        invariant
            2 <= radix <= 16,
            digits@ == without_plus(s@),
            i <= digits.len(),
            forall|j: int| 0 <= j < i ==> is_digit(#[trigger] digits@[j], radix as nat),
            value == digits_value(digits@.take(i as int), radix as nat),
            value <= max,
        decreases digits.len() - i,
    {
        let d: u32 = match digit_of(digits[i], radix) {
            Some(d) => d,
            None => {
                assert(!is_digit(digits@[i as int], radix as nat));
                return None;
            },
        };
        assert(digits@.take(i + 1).drop_last() == digits@.take(i as int));
        assert(value as u64 * radix as u64 <= 0xffff_ffff * 16) by (nonlinear_arith)
            requires
                radix <= 16,
        ;
        let next: u64 = value as u64 * radix as u64 + d as u64;
        assert(next == digits_value(digits@.take(i + 1), radix as nat));
        if next > max as u64 {
            proof {
                lemma_digits_value_grows(digits@, radix as nat, i + 1);
            }
            return None;
        }
        value = next as u32;
        i += 1;
    }
    assert(digits@.take(i as int) == digits@);
    Some(value)
}

/// What lies between the `mark`s of `s`, in order; without a mark, all of `s`.
pub open spec fn sections(s: Seq<char>, mark: char) -> Seq<Seq<char>>
    decreases s.len(),
{
    if s.len() == 0 {
        seq![Seq::empty()]
    } else {
        let before = sections(s.drop_last(), mark);
        if s.last() == mark {
            before.push(Seq::empty())
        } else {
            before.drop_last().push(before.last().push(s.last()))
        }
    }
}

/// Cuts `s` at every `mark`.
pub fn split_sections<'a>(s: &'a [char], mark: char) -> (result: Vec<&'a [char]>)
    ensures
        runs(result@) == sections(s@, mark),
{
    let mut result: Vec<&'a [char]> = Vec::new();
    let mut start: usize = 0;
    let mut i: usize = 0;
    assert(s@.subrange(0, 0) == Seq::<char>::empty());
    assert(s@.take(0) == Seq::<char>::empty());
    assert(runs(result@) == sections(s@.take(0), mark).drop_last());
    while i < s.len()
        invariant
            start <= i <= s.len(),
            sections(s@.take(i as int), mark).len() > 0,
            sections(s@.take(i as int), mark).last() == s@.subrange(start as int, i as int),
            runs(result@) == sections(s@.take(i as int), mark).drop_last(),
        decreases s.len() - i,
    {
        let ghost before = sections(s@.take(i as int), mark);
        assert(s@.take(i + 1).drop_last() == s@.take(i as int));
        if s[i] == mark {
            let section = slice_subrange(s, start, i);
            let ghost old_runs = runs(result@);
            result.push(section);
            assert(runs(result@) == old_runs.push(section@));
            assert(old_runs.push(section@) == before);
            assert(before.push(Seq::<char>::empty()).drop_last() == before);
            start = i + 1;
            assert(s@.subrange(i + 1, i + 1) == Seq::<char>::empty());
        } else {
            assert(s@.subrange(start as int, i + 1) == s@.subrange(start as int, i as int).push(
                s@[i as int],
            ));
            assert(before.drop_last().push(before.last().push(s@[i as int])).drop_last()
                == before.drop_last());
        }
        i += 1;
    }
    let section = slice_subrange(s, start, i);
    let ghost old_runs = runs(result@);
    result.push(section);
    assert(runs(result@) == old_runs.push(section@));
    assert(s@.take(i as int) == s@);
    result
}

/// Where `c` first stands in `s`.
pub fn find_char(s: &[char], c: char) -> (result: Option<usize>)
    ensures
        match result {
            Some(i) => s@.index_of_first(c) == Some(i as int) && i < s.len(),
            None => s@.index_of_first(c) is None,
        },
{
    proof {
        s@.index_of_first_ensures(c);
    }
    let mut i: usize = 0;
    while i < s.len()
        invariant
            i <= s.len(),
            forall|j: int| 0 <= j < i ==> s@[j] != c,
        decreases s.len() - i,
    {
        if s[i] == c {
            proof {
                s@.index_of_first_ensures(c);
                assert(s@.contains(c));
                let k = s@.index_of_first(c)->0;
                assert(k == i) by {
                    if k < i {
                        assert(s@[k] != c);
                    }
                }
            }
            return Some(i);
        }
        i += 1;
    }
    None
}

/// A mark ends one section and starts the next.
pub proof fn lemma_sections_mark(s: Seq<char>, mark: char)
    ensures
        sections(s.push(mark), mark) == sections(s, mark).push(Seq::empty()),
{
    assert(s.push(mark).drop_last() == s);
}

/// Text without a mark lengthens the last section.
pub proof fn lemma_sections_append(s: Seq<char>, t: Seq<char>, mark: char)
    requires
        !t.contains(mark),
    ensures
        sections(s, mark).len() > 0,
        sections(s + t, mark) == sections(s, mark).drop_last().push(sections(s, mark).last() + t),
    decreases s.len() + t.len(),
{
    if s.len() > 0 {
        lemma_sections_append(s.drop_last(), Seq::empty(), mark);
    }
    let before = sections(s, mark);
    if t.len() == 0 {
        assert(s + t == s);
        assert(before.last() + t == before.last());
        assert(before.drop_last().push(before.last()) == before);
    } else {
        let short = t.drop_last();
        assert(!short.contains(mark)) by {
            if short.contains(mark) {
                let i = choose|i: int| 0 <= i < short.len() && short[i] == mark;
                assert(t[i] == mark);
            }
        }
        lemma_sections_append(s, short, mark);
        assert((s + t).drop_last() == s + short);
        assert(t.last() != mark) by {
            assert(t.contains(t[t.len() - 1]));
        }
        let longer = sections(s + short, mark);
        assert(longer.drop_last() == before.drop_last());
        assert(longer.last() == before.last() + short);
        assert((before.last() + short).push(t.last()) == before.last() + t);
    }
}

/// A number in decimal reads back as the number.
pub proof fn lemma_decimal(n: nat)
    ensures
        decimal(n).len() > 0,
        all_digits(decimal(n), 10),
        digits_value(decimal(n), 10) == n,
    decreases n,
{
    let d = decimal(n);
    assert(forall|k: nat| k < 10 ==> #[trigger] digit_value(digit(k)) == Some(k));
    if n < 10 {
        assert(d.drop_last() == Seq::<char>::empty());
        assert(digits_value(d.drop_last(), 10) == 0);
        assert(d.last() == digit(n));
        assert(digit_value(digit(n)) == Some(n));
    } else {
        lemma_decimal(n / 10);
        assert(d.drop_last() == decimal(n / 10));
        assert(digit_value(digit(n % 10)) == Some(n % 10));
    }
}

/// A number in decimal reads back as the number, where it is not too large.
pub proof fn lemma_decimal_read_back(n: nat, max: nat)
    requires
        n <= max,
    ensures
        unsigned_number(decimal(n), 10, max) == Some(n),
{
    lemma_decimal(n);
    assert(is_digit(decimal(n)[0], 10));
    assert(without_plus(decimal(n)) == decimal(n));
}

/// Text has no words exactly where it is blank.
pub proof fn law_blank_text_has_no_words(s: Seq<char>)
    ensures
        words(s).len() == 0 <==> blank(s),
    decreases s.len(),
{
    lemma_pieces_non_empty(s);
    let none = Seq::<char>::empty();
    if s.len() == 0 {
        assert(pieces(s) == Seq::<Seq<char>>::empty().push(none));
        lemma_filter_push(Seq::<Seq<char>>::empty(), none, non_empty());
        reveal(Seq::filter);
        assert(Seq::<Seq<char>>::empty().filter(non_empty()).len() == 0);
    } else {
        let front = s.drop_last();
        let before = pieces(front);
        law_blank_text_has_no_words(front);
        lemma_pieces_non_empty(front);
        if white_space(s.last()) {
            lemma_filter_push(before, none, non_empty());
            if blank(front) {
                assert forall|i: int| 0 <= i < s.len() implies white_space(#[trigger] s[i]) by {
                    if i < front.len() {
                        assert(s[i] == front[i]);
                    }
                }
            }
            if blank(s) {
                assert forall|i: int| 0 <= i < front.len() implies white_space(
                    #[trigger] front[i],
                ) by {
                    assert(s[i] == front[i]);
                }
            }
        } else {
            lemma_filter_push(before.drop_last(), before.last().push(s.last()), non_empty());
            assert(!white_space(s[s.len() - 1]));
        }
    }
}

proof fn lemma_pieces_non_empty(s: Seq<char>)
    ensures
        pieces(s).len() > 0,
    decreases s.len(),
{
    if s.len() > 0 {
        lemma_pieces_non_empty(s.drop_last());
    }
}

/// White space in front of text puts an empty piece in front of its pieces.
proof fn lemma_pieces_front(s: Seq<char>)
    requires
        s.len() > 0,
        white_space(s[0]),
    ensures
        pieces(s) == seq![Seq::<char>::empty()] + pieces(s.drop_first()),
    decreases s.len(),
{
    let none = Seq::<char>::empty();
    let front = s.drop_last();
    let rest = s.drop_first();
    if s.len() == 1 {
        assert(front == none);
        assert(rest == none);
        assert(pieces(none) == seq![none]);
        assert(seq![none].push(none) == seq![none] + seq![none]);
    } else {
        lemma_pieces_front(front);
        lemma_pieces_non_empty(front.drop_first());
        assert(front.drop_first() == rest.drop_last());
        let inner = pieces(rest.drop_last());
        assert(pieces(front) == seq![none] + inner);
        if white_space(s.last()) {
            assert((seq![none] + inner).push(none) == seq![none] + inner.push(none));
        } else {
            let longer = inner.last().push(s.last());
            assert((seq![none] + inner).drop_last().push(longer) == seq![none]
                + inner.drop_last().push(longer));
        }
    }
}

/// Dropping the white space at the ends of text leaves its words as they are.
pub proof fn law_trimming_keeps_the_words(s: Seq<char>)
    ensures
        words(trimmed(s)) == words(s),
{
    lemma_trim_start_keeps_the_words(s);
    lemma_trim_end_keeps_the_words(trim_start(s));
}

proof fn lemma_trim_start_keeps_the_words(s: Seq<char>)
    ensures
        words(trim_start(s)) == words(s),
    decreases s.len(),
{
    if s.len() > 0 && white_space(s[0]) {
        let none = Seq::<char>::empty();
        let rest = s.drop_first();
        lemma_trim_start_keeps_the_words(rest);
        lemma_pieces_front(s);
        let head = Seq::<Seq<char>>::empty().push(none);
        assert(head == seq![none]);
        Seq::filter_distributes_over_add(head, pieces(rest), non_empty());
        lemma_filter_push(Seq::<Seq<char>>::empty(), none, non_empty());
        reveal(Seq::filter);
        assert(head.filter(non_empty()) == Seq::<Seq<char>>::empty());
        assert(Seq::<Seq<char>>::empty() + words(rest) == words(rest));
    }
}

proof fn lemma_trim_end_keeps_the_words(s: Seq<char>)
    ensures
        words(trim_end(s)) == words(s),
    decreases s.len(),
{
    if s.len() > 0 && white_space(s.last()) {
        lemma_trim_end_keeps_the_words(s.drop_last());
        lemma_filter_push(pieces(s.drop_last()), Seq::<char>::empty(), non_empty());
    }
}

/// Nothing is left of text after trimming exactly where it is blank.
pub proof fn law_blank_text_trims_to_nothing(s: Seq<char>)
    ensures
        trimmed(s).len() == 0 <==> blank(s),
{
    lemma_trim_start_blank(s);
    let t = trim_start(s);
    if t.len() > 0 {
        lemma_trim_end_keeps_front(t);
    }
}

proof fn lemma_trim_start_blank(s: Seq<char>)
    ensures
        trim_start(s).len() == 0 <==> blank(s),
        trim_start(s).len() > 0 ==> !white_space(trim_start(s)[0]),
    decreases s.len(),
{
    if s.len() > 0 {
        if white_space(s[0]) {
            let rest = s.drop_first();
            lemma_trim_start_blank(rest);
            if blank(rest) {
                assert forall|i: int| 0 <= i < s.len() implies white_space(#[trigger] s[i]) by {
                    if i > 0 {
                        assert(s[i] == rest[i - 1]);
                    }
                }
            }
            if blank(s) {
                assert forall|i: int| 0 <= i < rest.len() implies white_space(
                    #[trigger] rest[i],
                ) by {
                    assert(rest[i] == s[i + 1]);
                }
            }
        } else {
            assert(!white_space(s[0]));
        }
    }
}

proof fn lemma_trim_end_keeps_front(s: Seq<char>)
    requires
        s.len() > 0,
        !white_space(s[0]),
    ensures
        trim_end(s).len() > 0,
    decreases s.len(),
{
    if white_space(s.last()) {
        lemma_trim_end_keeps_front(s.drop_last());
    }
}

/// White space behind text does not change what is left of it after trimming.
pub proof fn law_trailing_white_space_is_trimmed(s: Seq<char>, c: char)
    requires
        white_space(c),
    ensures
        trimmed(s.push(c)) == trimmed(s),
{
    lemma_trim_start_push(s, c);
    lemma_trim_start_blank(s);
    if blank(s) {
        assert(seq![c].drop_first() == Seq::<char>::empty());
        assert(trim_start(seq![c]) == trim_start(Seq::<char>::empty()));
        assert(trim_start(s) == Seq::<char>::empty());
    } else {
        assert(trim_start(s).push(c).drop_last() == trim_start(s));
    }
}

proof fn lemma_trim_start_push(s: Seq<char>, c: char)
    ensures
        trim_start(s.push(c)) == if blank(s) {
            trim_start(seq![c])
        } else {
            trim_start(s).push(c)
        },
    decreases s.len(),
{
    if s.len() == 0 {
        assert(s.push(c) == seq![c]);
    } else if white_space(s[0]) {
        let rest = s.drop_first();
        lemma_trim_start_push(rest, c);
        assert(s.push(c).drop_first() == rest.push(c));
        lemma_trim_start_blank(s);
        lemma_trim_start_blank(rest);
    } else {
        assert(!white_space(s[0]));
    }
}

} // verus!
