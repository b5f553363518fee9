//! What holds between typed text, bytes and shown text.

use crate::display;
use crate::laws::words;
use crate::send_input;
use crate::send_input::Input;
use crate::text;
use vstd::prelude::*;

verus! {

/// Two hexadecimal digits, each in either case.
pub open spec fn two_digits(word: Seq<char>) -> bool {
    word.len() == 2 && words::digit_in(word[0], 16) && words::digit_in(word[1], 16)
}

proof fn lemma_two_digits(word: Seq<char>)
    ensures
        two_digits(word) <==> send_input::hex_pair()(word),
{
    if word.len() == 2 {
        words::law_digits_of_a_base_are_below_it(word[0], 16);
        words::law_digits_of_a_base_are_below_it(word[1], 16);
        if two_digits(word) {
            assert forall|i: int| 0 <= i < word.len() implies text::is_digit(
                #[trigger] word[i],
                16,
            ) by {
                assert(i == 0 || i == 1);
            }
        } else {
            assert(!text::is_digit(word[0], 16) || !text::is_digit(word[1], 16));
        }
    }
}

/// A hexadecimal input stands for the bytes that its words write with two digits each, whatever the
/// case of a digit, in the order of the words, and nothing is wrong with it.
pub proof fn law_two_digits_write_a_byte(input: Input, bytes: Seq<u8>)
    requires
        input.is_hex,
        text::words(input.text).len() == bytes.len(),
        forall|i: int|
            #![trigger bytes[i]]
            0 <= i < bytes.len() ==> {
                let word = text::words(input.text)[i];
                &&& word.len() == 2
                &&& words::writes(word[0], bytes[i] as int / 16)
                &&& words::writes(word[1], bytes[i] as int % 16)
            },
    ensures
        send_input::input_error(input) is None,
        send_input::payload(input) == Ok::<Seq<u8>, Seq<char>>(bytes),
{
    let list = text::words(input.text);
    assert forall|i: int| 0 <= i < list.len() implies send_input::hex_pair()(#[trigger] list[i])
        && text::unsigned_number(list[i], 16, 255) == Some(bytes[i] as nat) by {
        let word = list[i];
        let b = bytes[i];
        lemma_two_digits_value(word, b);
    }
    send_input::lemma_first_not_none(list, send_input::hex_pair());
    law_each_word_writes_its_byte(input, bytes);
}

proof fn lemma_two_digits_value(word: Seq<char>, byte: u8)
    requires
        word.len() == 2,
        words::writes(word[0], byte as int / 16),
        words::writes(word[1], byte as int % 16),
    ensures
        send_input::hex_pair()(word),
        text::unsigned_number(word, 16, 255) == Some(byte as nat),
{
    let high = byte as int / 16;
    let low = byte as int % 16;
    words::law_digits_are_the_sixteen_characters(word[0], high);
    words::law_digits_are_the_sixteen_characters(word[1], low);
    assert(words::digit_in(word[0], 16));
    assert(words::digit_in(word[1], 16));
    lemma_two_digits(word);
    assert(text::digits_value(word.drop_last().drop_last(), 16) == 0);
    assert(text::digits_value(word.drop_last(), 16) == high);
    assert(text::digits_value(word, 16) == byte);
    assert forall|i: int| 0 <= i < word.len() implies words::digit_in(#[trigger] word[i], 16) by {
        assert(i == 0 || i == 1);
    }
    words::law_digits_are_read_as_their_number(word, 16, 255);
}

/// A hexadecimal input whose words are numbers up to 255 stands for those numbers, in order.
pub proof fn law_each_word_writes_its_byte(input: Input, bytes: Seq<u8>)
    requires
        input.is_hex,
        text::words(input.text).len() == bytes.len(),
        forall|i: int|
            0 <= i < bytes.len() ==> text::unsigned_number(
                #[trigger] text::words(input.text)[i],
                16,
                255,
            ) == Some(bytes[i] as nat),
    ensures
        send_input::payload(input) == Ok::<Seq<u8>, Seq<char>>(bytes),
{
    let list = text::words(input.text);
    send_input::lemma_first_not_none(list, send_input::hex_byte());
    assert(list.map_values(send_input::byte_of()) == bytes);
}

/// A hexadecimal input with a word that is no number up to 255 stands for no bytes; the message names
/// the first such word.
pub proof fn law_first_word_without_a_byte_is_named(input: Input, i: int)
    requires
        input.is_hex,
        0 <= i < text::words(input.text).len(),
        text::unsigned_number(text::words(input.text)[i], 16, 255) is None,
        forall|j: int|
            0 <= j < i ==> text::unsigned_number(
                #[trigger] text::words(input.text)[j],
                16,
                255,
            ) is Some,
    ensures
        send_input::payload(input) == Err::<Seq<u8>, Seq<char>>(
            "'"@ + text::words(input.text)[i] + "' 不是有效的十六进制值"@,
        ),
{
    let list = text::words(input.text);
    lemma_first_not(list, send_input::hex_byte(), i);
}

proof fn lemma_first_not(list: Seq<Seq<char>>, good: spec_fn(Seq<char>) -> bool, i: int)
    requires
        0 <= i < list.len(),
        !good(list[i]),
        forall|j: int| 0 <= j < i ==> good(#[trigger] list[j]),
    ensures
        send_input::first_not(list, good) == Some(list[i]),
    decreases i,
{
    if i > 0 {
        assert(good(list[0]));
        let rest = list.drop_first();
        assert forall|j: int| 0 <= j < i - 1 implies good(#[trigger] rest[j]) by {
            assert(rest[j] == list[j + 1]);
        }
        assert(rest[i - 1] == list[i]);
        lemma_first_not(rest, good, i - 1);
    }
}

/// A hexadecimal input with a word other than two hexadecimal digits has an error, which names the
/// first such word.
pub proof fn law_first_word_of_another_form_is_named(input: Input, i: int)
    requires
        input.is_hex,
        0 <= i < text::words(input.text).len(),
        !two_digits(text::words(input.text)[i]),
        forall|j: int| 0 <= j < i ==> two_digits(#[trigger] text::words(input.text)[j]),
    ensures
        send_input::input_error(input) == Some(
            "'"@ + text::words(input.text)[i]
                + "' 不是有效的 HEX 字节（需要恰好两位十六进制字符，格式示例: 01 A5 FF）"@,
        ),
{
    let list = text::words(input.text);
    lemma_two_digits(list[i]);
    assert forall|j: int| 0 <= j < i implies send_input::hex_pair()(#[trigger] list[j]) by {
        lemma_two_digits(list[j]);
    }
    lemma_first_not(list, send_input::hex_pair(), i);
}

/// Nothing is wrong with a text input, nor with a hexadecimal input of words of two digits.
pub proof fn law_inputs_of_the_right_form_have_no_error(input: Input)
    requires
        input.is_hex ==> forall|i: int|
            0 <= i < text::words(input.text).len() ==> two_digits(
                #[trigger] text::words(input.text)[i],
            ),
    ensures
        send_input::input_error(input) is None,
{
    if input.is_hex {
        let list = text::words(input.text);
        assert forall|i: int| 0 <= i < list.len() implies send_input::hex_pair()(
            #[trigger] list[i],
        ) by {
            lemma_two_digits(list[i]);
        }
        send_input::lemma_first_not_none(list, send_input::hex_pair());
    }
}

/// Text is shown piece by piece: what stands in one place does not change how the rest is shown.
pub proof fn law_text_is_shown_piece_by_piece(s: Seq<char>, t: Seq<char>)
    ensures
        display::visible(s + t) == display::visible(s) + display::visible(t),
    decreases s.len(),
{
    if s.len() == 0 {
        assert(s + t == t);
        assert(display::visible(s) + display::visible(t) == display::visible(t));
    } else {
        let rest = s.drop_first();
        law_text_is_shown_piece_by_piece(rest, t);
        assert((s + t).drop_first() == rest + t);
        let first = display::visible_char(s[0]);
        assert(first + (display::visible(rest) + display::visible(t)) == first + display::visible(
            rest,
        ) + display::visible(t));
    }
}

/// Text without carriage return and line feed is shown unchanged, every character as itself.
pub proof fn law_other_characters_are_shown_unchanged(s: Seq<char>)
    requires
        !s.contains('\r'),
        !s.contains('\n'),
    ensures
        display::visible(s) == s,
    decreases s.len(),
{
    if s.len() > 0 {
        let rest = s.drop_first();
        assert(s.contains(s[0]));
        assert forall|c: char| rest.contains(c) implies #[trigger] s.contains(c) by {
            let i = choose|i: int| 0 <= i < rest.len() && rest[i] == c;
            assert(s[i + 1] == c);
        }
        law_other_characters_are_shown_unchanged(rest);
        assert(seq![s[0]] + rest == s);
    }
}

/// A carriage return is shown as a backslash and an `r`, a line feed as a backslash and an `n`.
pub proof fn law_line_breaks_are_shown_as_escapes()
    ensures
        display::visible(seq!['\r']) == "\\r"@,
        display::visible(seq!['\n']) == "\\n"@,
{
    reveal_strlit("\\r");
    reveal_strlit("\\n");
    let none = Seq::<char>::empty();
    assert(seq!['\r'].drop_first() == none);
    assert(seq!['\n'].drop_first() == none);
    assert(display::visible(none) == none);
    assert(seq!['\\', 'r'] + none == "\\r"@);
    assert(seq!['\\', 'n'] + none == "\\n"@);
}

/// A dump has three characters for each byte but the last, which has two: the upper-case digits of
/// the byte and a space.
pub proof fn law_dump_shows_each_byte_in_two_digits(bytes: Seq<u8>)
    ensures
        display::hex_dump(bytes).len() == if bytes.len() == 0 {
            0
        } else {
            3 * bytes.len() - 1
        },
        forall|i: int|
            #![trigger bytes[i]]
            0 <= i < bytes.len() ==> {
                let dump = display::hex_dump(bytes);
                &&& dump[3 * i] == "0123456789ABCDEF"@[bytes[i] as int / 16]
                &&& dump[3 * i + 1] == "0123456789ABCDEF"@[bytes[i] as int % 16]
                &&& i < bytes.len() - 1 ==> dump[3 * i + 2] == ' '
            },
    decreases bytes.len(),
{
    if bytes.len() > 0 {
        let front = bytes.drop_last();
        law_dump_shows_each_byte_in_two_digits(front);
        let dump = display::hex_dump(bytes);
        let before = display::hex_dump(front);
        let last = bytes.last();
        words::law_digits_are_the_sixteen_characters('0', last as int / 16);
        words::law_digits_are_the_sixteen_characters('0', last as int % 16);
        assert forall|i: int|
            #![trigger bytes[i]]
            0 <= i < bytes.len() implies {
            &&& dump[3 * i] == "0123456789ABCDEF"@[bytes[i] as int / 16]
            &&& dump[3 * i + 1] == "0123456789ABCDEF"@[bytes[i] as int % 16]
            &&& i < bytes.len() - 1 ==> dump[3 * i + 2] == ' '
        } by {
            if i < front.len() {
                assert(front[i] == bytes[i]);
                assert(dump[3 * i] == before[3 * i]);
                assert(dump[3 * i + 1] == before[3 * i + 1]);
            }
        }
    }
}

/// A line of a log is the time stamp in brackets, a space, and the data as it is.
pub proof fn law_line_holds_stamp_and_data(stamp: Seq<char>, data: Seq<char>)
    ensures
        ({
            let line = display::log_line(stamp, data);
            let n = stamp.len() as int;
            &&& line.len() == n + 3 + data.len()
            &&& line[0] == '['
            &&& line.subrange(1, n + 1) == stamp
            &&& line[n + 1] == ']'
            &&& line[n + 2] == ' '
            &&& line.skip(n + 3) == data
        }),
{
    reveal_strlit("[");
    reveal_strlit("] ");
    let line = display::log_line(stamp, data);
    let n = stamp.len() as int;
    assert(line.subrange(1, n + 1) == stamp);
    assert(line.skip(n + 3) == data);
}

} // verus!
