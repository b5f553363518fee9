//! One line of data to send, typed as text or as hexadecimal bytes.

use crate::config;
use crate::text;
use vstd::prelude::*;

verus! {

/// What is typed into one input line.
pub struct SendInput {
    pub text: String,
    pub is_hex: bool,
    pub hex_error: Option<String>,
}

/// What a [`SendInput`] holds.
#[verifier::ext_equal]
pub struct Input {
    pub text: Seq<char>,
    pub is_hex: bool,
    pub hex_error: Option<Seq<char>>,
}

impl View for SendInput {
    type V = Input;

    open spec fn view(&self) -> Input {
        Input {
            text: self.text@,
            is_hex: self.is_hex,
            hex_error: config::text_of(self.hex_error),
        }
    }
}

/// A fresh input line: empty text.
pub open spec fn empty_input() -> Input {
    Input { text: Seq::empty(), is_hex: false, hex_error: None }
}

/// The first of `list` that is not `good`.
pub open spec fn first_not(
    list: Seq<Seq<char>>,
    good: spec_fn(Seq<char>) -> bool,
) -> Option<Seq<char>>
    decreases list.len(),
{
    if list.len() == 0 {
        None
    } else if !good(list[0]) {
        Some(list[0])
    } else {
        first_not(list.drop_first(), good)
    }
}

/// Exactly two hexadecimal digits.
pub open spec fn hex_pair() -> spec_fn(Seq<char>) -> bool {
    |word: Seq<char>| word.len() == 2 && text::all_digits(word, 16)
}

/// A hexadecimal number that fits a byte.
pub open spec fn hex_byte() -> spec_fn(Seq<char>) -> bool {
    |word: Seq<char>| text::unsigned_number(word, 16, 255) is Some
}

/// The byte that a word writes in hexadecimal.
pub open spec fn byte_of() -> spec_fn(Seq<char>) -> u8 {
    |word: Seq<char>| text::unsigned_number(word, 16, 255)->0 as u8
}

/// The message about a word that is not two hexadecimal digits.
pub open spec fn bad_pair_message(word: Seq<char>) -> Seq<char> {
    "'"@ + word
        + "' 不是有效的 HEX 字节（需要恰好两位十六进制字符，格式示例: 01 A5 FF）"@
}

/// The message about a word that is no hexadecimal byte.
pub open spec fn bad_byte_message(word: Seq<char>) -> Seq<char> {
    "'"@ + word + "' 不是有效的十六进制值"@
}

/// What is wrong with the text of a hexadecimal input: its first word that is not two hexadecimal
/// digits. Nothing is wrong with other inputs.
pub open spec fn input_error(input: Input) -> Option<Seq<char>> {
    if input.is_hex {
        match first_not(text::words(input.text), hex_pair()) {
            Some(word) => Some(bad_pair_message(word)),
            None => None,
        }
    } else {
        None
    }
}

/// The error that the input shows is the one that its text has.
pub open spec fn validated(input: Input) -> bool {
    input.hex_error == input_error(input)
}

/// The bytes that the input stands for: the UTF-8 encoding of a text, a byte for each word of a
/// hexadecimal input. The error names the first word that is no byte.
pub open spec fn payload(input: Input) -> Result<Seq<u8>, Seq<char>> {
    if input.is_hex {
        match first_not(text::words(input.text), hex_byte()) {
            Some(word) => Err(bad_byte_message(word)),
            None => Ok(text::words(input.text).map_values(byte_of())),
        }
    } else {
        Ok(vstd::utf8::encode_utf8(input.text))
    }
}

/// `result` reports what `expected` says.
pub open spec fn reports(
    result: Result<Vec<u8>, String>,
    expected: Result<Seq<u8>, Seq<char>>,
) -> bool {
    match result {
        Ok(bytes) => expected == Ok::<Seq<u8>, Seq<char>>(bytes@),
        Err(message) => expected == Err::<Seq<u8>, Seq<char>>(message@),
    }
}

/// Where the words before `i` are good, the first word that is not lies from `i` on.
proof fn lemma_first_not_skip(list: Seq<Seq<char>>, good: spec_fn(Seq<char>) -> bool, i: int)
    requires
        0 <= i <= list.len(),
        forall|j: int| 0 <= j < i ==> good(#[trigger] list[j]),
    ensures
        first_not(list, good) == first_not(list.skip(i), good),
    decreases i,
{
    if i == 0 {
        assert(list.skip(0) == list);
    } else {
        assert(good(list[0]));
        let rest = list.drop_first();
        assert forall|j: int| 0 <= j < i - 1 implies good(#[trigger] rest[j]) by {
            assert(rest[j] == list[j + 1]);
        }
        lemma_first_not_skip(rest, good, i - 1);
        assert(rest.skip(i - 1) == list.skip(i));
    }
}

impl SendInput {
    /// A fresh input line.
    pub fn new() -> (result: Self)
        ensures
            result@ == empty_input(),
    {
        SendInput { text: String::new(), is_hex: false, hex_error: None }
    }

    /// Checks the text and notes what is wrong with it.
    pub fn validate(&mut self)
        ensures
            final(self)@ == (Input { hex_error: input_error(old(self)@), ..old(self)@ }),
    {
        if !self.is_hex {
            self.hex_error = None;
            return;
        }
        let chars = text::to_chars(self.text.as_str());
        let words = text::split_words(chars.as_slice());
        let mut i: usize = 0;
        while i < words.len()
            invariant
                i <= words.len(),
                self == old(self),
                self.is_hex,
                text::runs(words@) == text::words(self.text@),
                forall|j: int| 0 <= j < i ==> hex_pair()(#[trigger] text::words(self.text@)[j]),
            decreases words.len() - i,
        {
            let ghost list = text::words(self.text@);
            let word = words[i];
            assert(text::runs(words@)[i as int] == word@);
            if word.len() != 2 || !text::is_hex_digit(word[0]) || !text::is_hex_digit(word[1]) {
                let mut message = String::new();
                message.append("'");
                text::push_chars(&mut message, word);
                message.append(
                    "' 不是有效的 HEX 字节（需要恰好两位十六进制字符，格式示例: 01 A5 FF）",
                );
                proof {
                    if word.len() == 2 {
                        assert(!text::is_digit(word@[0], 16) || !text::is_digit(word@[1], 16));
                    }
                    assert(!hex_pair()(list[i as int]));
                    lemma_first_not_skip(list, hex_pair(), i as int);
                    assert(message@ == bad_pair_message(word@));
                }
                self.hex_error = Some(message);
                return;
            }
            i += 1;
        }
        proof {
            let list = text::words(self.text@);
            lemma_first_not_skip(list, hex_pair(), i as int);
            assert(list.skip(i as int) == Seq::<Seq<char>>::empty());
        }
        self.hex_error = None;
    }

    /// Replaces the text, as typing does.
    pub fn set_text(&mut self, text: String)
        ensures
            final(self)@ == (Input {
                text: text@,
                hex_error: input_error(Input { text: text@, ..old(self)@ }),
                ..old(self)@
            }),
    {
        self.text = text;
        self.validate();
    }

    /// Switches between text and hexadecimal.
    pub fn set_hex(&mut self, is_hex: bool)
        ensures
            final(self)@ == (Input {
                is_hex,
                hex_error: input_error(Input { is_hex, ..old(self)@ }),
                ..old(self)@
            }),
    {
        self.is_hex = is_hex;
        self.validate();
    }

    /// Whether there is nothing to send: no text but white space.
    pub fn is_empty(&self) -> (result: bool)
        ensures
            result == text::blank(self@.text),
    {
        let chars = text::to_chars(self.text.as_str());
        text::is_blank(chars.as_slice())
    }

    /// The bytes that the input stands for.
    pub fn to_bytes(&self) -> (result: Result<Vec<u8>, String>)
        ensures
            reports(result, payload(self@)),
    {
        if !self.is_hex {
            return Ok(self.text.as_str().as_bytes_vec());
        }
        let chars = text::to_chars(self.text.as_str());
        let words = text::split_words(chars.as_slice());
        let mut bytes: Vec<u8> = Vec::new();
        let mut i: usize = 0;
        while i < words.len()
            invariant
                i <= words.len(),
                self.is_hex,
                text::runs(words@) == text::words(self.text@),
                forall|j: int| 0 <= j < i ==> hex_byte()(#[trigger] text::words(self.text@)[j]),
                bytes@ == text::words(self.text@).take(i as int).map_values(byte_of()),
            decreases words.len() - i,
        {
            let ghost list = text::words(self.text@);
            let word = words[i];
            assert(text::runs(words@)[i as int] == word@);
            match text::parse_unsigned(word, 16, 255) {
                Some(value) => {
                    bytes.push(value as u8);
                    assert(list.take(i + 1) == list.take(i as int).push(word@));
                    assert(bytes@ == list.take(i + 1).map_values(byte_of()));
                },
                None => {
                    let mut message = String::new();
                    message.append("'");
                    text::push_chars(&mut message, word);
                    message.append("' 不是有效的十六进制值");
                    proof {
                        assert(!hex_byte()(list[i as int]));
                        lemma_first_not_skip(list, hex_byte(), i as int);
                        assert(message@ == bad_byte_message(word@));
                    }
                    return Err(message);
                },
            }
            i += 1;
        }
        proof {
            let list = text::words(self.text@);
            lemma_first_not_skip(list, hex_byte(), i as int);
            assert(list.skip(i as int) == Seq::<Seq<char>>::empty());
            assert(list.take(i as int) == list);
        }
        Ok(bytes)
    }
}

/// Where every word is good, there is none that is not.
pub proof fn lemma_first_not_none(list: Seq<Seq<char>>, good: spec_fn(Seq<char>) -> bool)
    requires
        forall|i: int| 0 <= i < list.len() ==> good(#[trigger] list[i]),
    ensures
        first_not(list, good) is None,
    decreases list.len(),
{
    if list.len() > 0 {
        assert(good(list[0]));
        let rest = list.drop_first();
        assert forall|i: int| 0 <= i < rest.len() implies good(#[trigger] rest[i]) by {
            assert(rest[i] == list[i + 1]);
        }
        lemma_first_not_none(rest, good);
    }
}

/// A hexadecimal input without an error always stands for bytes, one for each of its words.
pub proof fn law_validated_hex_always_converts(input: Input)
    requires
        input.is_hex,
        input_error(input) is None,
    ensures
        payload(input) is Ok,
        payload(input)->Ok_0.len() == text::words(input.text).len(),
{
    let list = text::words(input.text);
    lemma_no_first_not(list, hex_pair());
    assert forall|i: int| 0 <= i < list.len() implies hex_byte()(#[trigger] list[i]) by {
        lemma_hex_pair_fits(list[i]);
    }
    lemma_first_not_none(list, hex_byte());
}

/// Where no word is not good, every word is.
proof fn lemma_no_first_not(list: Seq<Seq<char>>, good: spec_fn(Seq<char>) -> bool)
    requires
        first_not(list, good) is None,
    ensures
        forall|i: int| 0 <= i < list.len() ==> good(#[trigger] list[i]),
    decreases list.len(),
{
    if list.len() > 0 {
        lemma_no_first_not(list.drop_first(), good);
        assert forall|i: int| 0 <= i < list.len() implies good(#[trigger] list[i]) by {
            if i > 0 {
                assert(list[i] == list.drop_first()[i - 1]);
            }
        }
    }
}

/// Two hexadecimal digits write a byte.
proof fn lemma_hex_pair_fits(word: Seq<char>)
    requires
        hex_pair()(word),
    ensures
        hex_byte()(word),
{
    assert(text::is_digit(word[0], 16));
    assert(text::is_digit(word[1], 16));
    assert(text::without_plus(word) == word);
    assert(word.drop_last().drop_last() == Seq::<char>::empty());
    assert(text::digits_value(word.drop_last().drop_last(), 16) == 0);
    assert(text::digits_value(word.drop_last(), 16) == text::digit_value(word[0])->0);
    assert(text::digits_value(word, 16) == text::digit_value(word[0])->0 * 16 + text::digit_value(
        word[1],
    )->0);
}

} // verus!
