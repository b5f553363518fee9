//! How logged data is shown: a time stamp and the bytes, as hexadecimal or as text.

use crate::send_input;
use crate::text;
use vstd::prelude::*;

verus! {

/// The two upper-case hexadecimal digits of a byte.
pub open spec fn hex_of(byte: u8) -> Seq<char> {
    seq![text::digit((byte / 16) as nat), text::digit((byte % 16) as nat)]
}

/// The bytes in hexadecimal, a space between each two.
pub open spec fn hex_dump(bytes: Seq<u8>) -> Seq<char>
    decreases bytes.len(),
{
    if bytes.len() == 0 {
        Seq::empty()
    } else if bytes.len() == 1 {
        hex_of(bytes[0])
    } else {
        hex_dump(bytes.drop_last()) + seq![' '] + hex_of(bytes.last())
    }
}

/// A line of a log: the time stamp in brackets, a space and the data.
pub open spec fn log_line(timestamp: Seq<char>, data: Seq<char>) -> Seq<char> {
    "["@ + timestamp + "] "@ + data
}

/// The line that shows `bytes` in hexadecimal.
pub fn format_receive_hex(timestamp: &str, bytes: &[u8]) -> (result: String)
    ensures
        result@ == log_line(timestamp@, hex_dump(bytes@)),
{
    let mut line = String::new();
    line.append("[");
    line.append(timestamp);
    line.append("] ");
    let ghost head = line@;
    assert(head == "["@ + timestamp@ + "] "@);
    let mut i: usize = 0;
    assert(bytes@.take(0) == Seq::<u8>::empty());
    assert(head + hex_dump(bytes@.take(0)) == head);
    while i < bytes.len()
        invariant
            i <= bytes.len(),
            line@ == head + hex_dump(bytes@.take(i as int)),
        decreases bytes.len() - i,
    {
        if i > 0 {
            line.push(' ');
        }
        let byte: u8 = bytes[i];
        line.push(text::digit_char(byte / 16));
        line.push(text::digit_char(byte % 16));
        proof {
            let shown = bytes@.take(i + 1);
            assert(shown.drop_last() == bytes@.take(i as int));
            if i == 0 {
                assert(bytes@.take(0) == Seq::<u8>::empty());
                assert(line@ == head + hex_of(byte));
            } else {
                assert(line@ == head + (hex_dump(bytes@.take(i as int)) + seq![' '] + hex_of(
                    byte,
                )));
            }
        }
        i += 1;
    }
    assert(bytes@.take(i as int) == bytes@);
    line
}

/// The text that `String::from_utf8_lossy` makes of bytes: what they encode in UTF-8, with U+FFFD in
/// place of what is not UTF-8.
pub uninterp spec fn lossy_text(bytes: Seq<u8>) -> Seq<char>;

/// Decodes UTF-8 as far as the bytes are UTF-8.
///
/// Trusted: `String::from_utf8_lossy`. Its result depends on the bytes alone, and valid UTF-8 gives
/// the text that it encodes. Which bytes each U+FFFD stands for in other input is left to the name.
#[verifier::external_body]
fn decode_lossy(bytes: &[u8]) -> (result: String)
    ensures
        result@ == lossy_text(bytes@),
        vstd::utf8::valid_utf8(bytes@) ==> result@ == vstd::utf8::decode_utf8(bytes@),
{
    String::from_utf8_lossy(bytes).into_owned()
}

/// How a character of logged text is shown: carriage return and line feed as escapes.
pub open spec fn visible_char(c: char) -> Seq<char> {
    if c == '\r' {
        seq!['\\', 'r']
    } else if c == '\n' {
        seq!['\\', 'n']
    } else {
        seq![c]
    }
}

/// How logged text is shown, character by character.
pub open spec fn visible(s: Seq<char>) -> Seq<char>
    decreases s.len(),
{
    if s.len() == 0 {
        Seq::empty()
    } else {
        visible_char(s[0]) + visible(s.drop_first())
    }
}

/// The line that shows `content`, with its line breaks made visible.
pub fn format_text(timestamp: &str, content: &str) -> (result: String)
    ensures
        result@ == log_line(timestamp@, visible(content@)),
{
    let mut line = String::new();
    line.append("[");
    line.append(timestamp);
    line.append("] ");
    let ghost head = line@;
    assert(head == "["@ + timestamp@ + "] "@);
    let chars = text::to_chars(content);
    let mut i: usize = 0;
    assert(chars@.skip(0) == chars@);
    while i < chars.len()
        invariant
            i <= chars.len(),
            line@ + visible(chars@.skip(i as int)) == head + visible(chars@),
        decreases chars.len() - i,
    {
        let ghost before = line@;
        let c = chars[i];
        if c == '\r' {
            line.push('\\');
            line.push('r');
        } else if c == '\n' {
            line.push('\\');
            line.push('n');
        } else {
            line.push(c);
        }
        assert(line@ == before + visible_char(c));
        assert(chars@.skip(i as int).drop_first() == chars@.skip(i + 1));
        assert(before + (visible_char(c) + visible(chars@.skip(i + 1))) == line@ + visible(
            chars@.skip(i + 1),
        ));
        i += 1;
    }
    assert(chars@.skip(i as int) == Seq::<char>::empty());
    assert(line@ + Seq::<char>::empty() == line@);
    line
}

/// The line that shows `bytes` as text.
pub fn format_receive_text(timestamp: &str, bytes: &[u8]) -> (result: String)
    ensures
        result@ == log_line(timestamp@, visible(lossy_text(bytes@))),
        vstd::utf8::valid_utf8(bytes@) ==> result@ == log_line(
            timestamp@,
            visible(vstd::utf8::decode_utf8(bytes@)),
        ),
{
    let content = decode_lossy(bytes);
    format_text(timestamp, content.as_str())
}

/// Text is shown on one line: neither carriage return nor line feed is left in it.
pub proof fn law_shown_text_stays_on_one_line(s: Seq<char>)
    ensures
        forall|i: int|
            #![trigger visible(s)[i]]
            0 <= i < visible(s).len() ==> visible(s)[i] != '\r' && visible(s)[i] != '\n',
    decreases s.len(),
{
    if s.len() > 0 {
        let first = visible_char(s[0]);
        let rest = visible(s.drop_first());
        law_shown_text_stays_on_one_line(s.drop_first());
        assert forall|i: int|
            #![trigger visible(s)[i]]
            0 <= i < visible(s).len() implies visible(s)[i] != '\r' && visible(s)[i] != '\n' by {
            if i < first.len() {
                assert(visible(s)[i] == first[i]);
            } else {
                assert(visible(s)[i] == rest[i - first.len()]);
            }
        }
    }
}

/// The bytes of a text input decode to the text that was typed, so the log shows them as typed.
pub proof fn law_text_payload_decodes_to_the_text(input: send_input::Input)
    requires
        !input.is_hex,
    ensures
        send_input::payload(input) is Ok,
        vstd::utf8::valid_utf8(send_input::payload(input)->Ok_0),
        vstd::utf8::decode_utf8(send_input::payload(input)->Ok_0) == input.text,
{
    vstd::utf8::encode_utf8_valid_utf8(input.text);
    vstd::utf8::encode_utf8_decode_utf8(input.text);
}

/// The two digits of a byte write that byte, and neither is white space or a sign.
proof fn lemma_hex_of(byte: u8)
    ensures
        send_input::hex_pair()(hex_of(byte)),
        text::unsigned_number(hex_of(byte), 16, 255) == Some(byte as nat),
        !text::white_space(hex_of(byte)[0]),
        !text::white_space(hex_of(byte)[1]),
{
    let h = hex_of(byte);
    let high = (byte / 16) as nat;
    let low = (byte % 16) as nat;
    assert(text::digit_value(text::digit(high)) == Some(high));
    assert(text::digit_value(text::digit(low)) == Some(low));
    assert(h.drop_last() == seq![text::digit(high)]);
    assert(h.drop_last().drop_last() == Seq::<char>::empty());
    assert(text::digits_value(h.drop_last().drop_last(), 16) == 0);
    assert(text::digits_value(h.drop_last(), 16) == high);
    assert(text::digits_value(h, 16) == high * 16 + low);
    assert(text::all_digits(h, 16));
    assert(text::without_plus(h) == h);
}

/// The words of a hexadecimal dump are the digits of its bytes.
proof fn lemma_hex_dump_pieces(bytes: Seq<u8>)
    requires
        bytes.len() > 0,
    ensures
        text::pieces(hex_dump(bytes)) == bytes.map_values(|b: u8| hex_of(b)),
    decreases bytes.len(),
{
    let none = Seq::<char>::empty();
    let b = bytes.last();
    let h = hex_of(b);
    lemma_hex_of(b);
    let before = if bytes.len() == 1 {
        none
    } else {
        hex_dump(bytes.drop_last()) + seq![' ']
    };
    let front = bytes.drop_last().map_values(|b: u8| hex_of(b));
    assert(text::pieces(before) == front.push(none)) by {
        if bytes.len() == 1 {
            assert(front == Seq::<Seq<char>>::empty());
        } else {
            lemma_hex_dump_pieces(bytes.drop_last());
            assert(before.drop_last() == hex_dump(bytes.drop_last()));
            assert(text::white_space(before.last()));
        }
    }
    let dump = hex_dump(bytes);
    assert(dump == before.push(h[0]).push(h[1]));
    assert(dump.drop_last() == before.push(h[0]));
    assert(before.push(h[0]).drop_last() == before);
    assert(front.push(none).drop_last() == front);
    assert(text::pieces(before.push(h[0])) == front.push(none.push(h[0])));
    assert(front.push(none.push(h[0])).drop_last() == front);
    assert(none.push(h[0]).push(h[1]) == h);
    assert(text::pieces(dump) == front.push(h));
    assert(front.push(h) == bytes.map_values(|b: u8| hex_of(b)));
}

proof fn lemma_filter_keeps_all(list: Seq<Seq<char>>, keep: spec_fn(Seq<char>) -> bool)
    requires
        forall|i: int| 0 <= i < list.len() ==> keep(#[trigger] list[i]),
    ensures
        list.filter(keep) == list,
    decreases list.len(),
{
    reveal(Seq::filter);
    if list.len() > 0 {
        lemma_filter_keeps_all(list.drop_last(), keep);
        assert(keep(list[list.len() - 1]));
        assert(list.drop_last().push(list.last()) == list);
    }
}

/// Bytes as the log shows them in hexadecimal can be typed into a hexadecimal input: it has no error
/// and stands for exactly those bytes.
pub proof fn law_shown_hex_can_be_sent(bytes: Seq<u8>, input: send_input::Input)
    requires
        input.is_hex,
        input.text == hex_dump(bytes),
    ensures
        send_input::input_error(input) is None,
        send_input::payload(input) == Ok::<Seq<u8>, Seq<char>>(bytes),
{
    let list = bytes.map_values(|b: u8| hex_of(b));
    assert(text::words(input.text) == list) by {
        if bytes.len() == 0 {
            text::law_blank_text_has_no_words(input.text);
        } else {
            lemma_hex_dump_pieces(bytes);
            lemma_filter_keeps_all(list, text::non_empty());
        }
    }
    assert forall|i: int| 0 <= i < list.len() implies send_input::hex_pair()(#[trigger] list[i])
        && send_input::hex_byte()(list[i]) && send_input::byte_of()(list[i]) == bytes[i] by {
        lemma_hex_of(bytes[i]);
    }
    send_input::lemma_first_not_none(list, send_input::hex_pair());
    send_input::lemma_first_not_none(list, send_input::hex_byte());
    assert(list.map_values(send_input::byte_of()) == bytes);
}

} // verus!
