use serial_tool::display::{format_receive_hex, format_receive_text, format_text};
use serial_tool::send_input::SendInput;

fn hex(text: &str) -> SendInput {
    let mut input = SendInput::new();
    input.set_hex(true);
    input.set_text(text.to_owned());
    input
}

#[test]
fn a_fresh_input_is_empty_text() {
    let input = SendInput::new();
    assert_eq!(input.text, "");
    assert!(!input.is_hex);
    assert_eq!(input.hex_error, None);
    assert!(input.is_empty());
    assert_eq!(input.to_bytes(), Ok(vec![]));
}

#[test]
fn hexadecimal_input_is_checked_word_by_word() {
    assert_eq!(hex("01 A5 ff").hex_error, None);
    assert_eq!(hex("").hex_error, None);
    assert_eq!(hex("  \t").hex_error, None);
    for (text, word) in [("1", "1"), ("01 123 4", "123"), ("0g", "0g"), ("00 é", "é"), ("+1", "+1")] {
        assert_eq!(
            hex(text).hex_error,
            Some(format!(
                "'{word}' 不是有效的 HEX 字节（需要恰好两位十六进制字符，格式示例: 01 A5 FF）"
            ))
        );
    }
}

#[test]
fn text_input_has_no_error() {
    let mut input = hex("zz");
    assert!(input.hex_error.is_some());
    input.set_hex(false);
    assert_eq!(input.hex_error, None);
    input.is_hex = true;
    input.validate();
    assert!(input.hex_error.is_some());
}

#[test]
fn text_is_sent_as_utf8() {
    let mut input = SendInput::new();
    input.set_text(" Aé串\n".to_owned());
    assert_eq!(input.to_bytes(), Ok(" Aé串\n".as_bytes().to_vec()));
}

#[test]
fn hexadecimal_is_sent_byte_by_byte() {
    assert_eq!(hex(" 01 a5\tFF\n").to_bytes(), Ok(vec![0x01, 0xa5, 0xff]));
    assert_eq!(hex("").to_bytes(), Ok(vec![]));
    // Longer and shorter words are bytes too, though the check objects to them.
    assert_eq!(hex("1 +a 00ff").to_bytes(), Ok(vec![1, 10, 255]));
}

#[test]
fn the_first_word_that_is_no_byte_is_named() {
    assert_eq!(hex("01 100 zz").to_bytes(), Err("'100' 不是有效的十六进制值".to_owned()));
    assert_eq!(hex("zz").to_bytes(), Err("'zz' 不是有效的十六进制值".to_owned()));
    assert_eq!(hex("-1").to_bytes(), Err("'-1' 不是有效的十六进制值".to_owned()));
}

#[test]
fn checked_hexadecimal_always_converts() {
    for text in ["00", "0A fF 10", " ab\ncd "] {
        let input = hex(text);
        assert_eq!(input.hex_error, None);
        assert_eq!(input.to_bytes().unwrap().len(), text.split_whitespace().count());
    }
}

#[test]
fn blank_inputs_are_empty() {
    assert!(hex(" \u{3000}").is_empty());
    assert!(!hex(" x").is_empty());
}

#[test]
fn bytes_are_shown_in_hexadecimal() {
    assert_eq!(format_receive_hex("12:00:00.000", &[0, 0x0a, 0xff]), "[12:00:00.000] 00 0A FF");
    assert_eq!(format_receive_hex("t", &[]), "[t] ");
}

#[test]
fn bytes_are_shown_as_text() {
    assert_eq!(format_receive_text("t", b"ok\r\n\\n"), "[t] ok\\r\\n\\n");
    assert_eq!(format_receive_text("t", "串口".as_bytes()), "[t] 串口");
    assert_eq!(format_receive_text("t", b""), "[t] ");
}

#[test]
fn bytes_that_are_no_text_are_replaced() {
    assert_eq!(format_receive_text("t", &[0x41, 0xff, 0x42]), "[t] A\u{fffd}B");
    assert_eq!(format_receive_text("t", &[0xe4, 0xb8]), "[t] \u{fffd}");
}

#[test]
fn shown_text_has_no_line_breaks() {
    let line = format_text("t", "a\r\n\tb");
    assert_eq!(line, "[t] a\\r\\n\tb");
    assert!(!line.contains('\n') && !line.contains('\r'));
}

#[test]
fn shown_hexadecimal_can_be_sent_again() {
    let bytes: Vec<u8> = (0..=255).collect();
    let line = format_receive_hex("", &bytes);
    let input = hex(&line[3..]);
    assert_eq!(input.hex_error, None);
    assert_eq!(input.to_bytes(), Ok(bytes));
}

#[test]
fn sent_text_is_shown_as_typed() {
    let mut input = SendInput::new();
    input.set_text("温度 25°C".to_owned());
    assert_eq!(format_receive_text("t", &input.to_bytes().unwrap()), "[t] 温度 25°C");
}
