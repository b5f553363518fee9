use serial_tool::config::{
    escape_toml_string, is_readable, parse_config, parse_toml_string, AppConfig,
};
use serial_tool::platform::{config_file_path, font_paths, BaseVariable, Platform};

#[test]
fn parse_config_reads_saved_values() {
    let config = parse_config("selected_port = \"COM3\"\nselected_baud = 57600\n");

    assert_eq!(config.selected_port.as_deref(), Some("COM3"));
    assert_eq!(config.selected_baud, Some(57600));
}

#[test]
fn parse_config_unescapes_port_name() {
    let config = parse_config("selected_port = \"tty\\\"USB0\\\\A\"\n");

    assert_eq!(config.selected_port.as_deref(), Some("tty\"USB0\\A"));
}

#[test]
fn escape_toml_string_escapes_reserved_characters() {
    assert_eq!(
        escape_toml_string("tty\"USB0\\A"),
        "tty\\\"USB0\\\\A".to_owned()
    );
}

#[test]
fn escape_covers_control_characters() {
    assert_eq!(escape_toml_string("a\nb\rc\td"), "a\\nb\\rc\\td");
    assert_eq!(escape_toml_string("串口"), "串口");
    assert_eq!(escape_toml_string(""), "");
}

#[test]
fn quoted_strings_are_unescaped() {
    assert_eq!(parse_toml_string("\"a\\nb\\rc\\td\"").as_deref(), Some("a\nb\rc\td"));
    assert_eq!(parse_toml_string("  \"x\"\t").as_deref(), Some("x"));
    assert_eq!(parse_toml_string("\"\"").as_deref(), Some(""));
    assert_eq!(parse_toml_string("\"a\\qb\"").as_deref(), Some("a\\qb"));
    assert_eq!(parse_toml_string("\"a\\\"").as_deref(), Some("a\\"));
    assert_eq!(parse_toml_string("\"a\"b\"").as_deref(), Some("a\"b"));
}

#[test]
fn strings_without_quotes_are_none() {
    assert_eq!(parse_toml_string("COM3"), None);
    assert_eq!(parse_toml_string("\"COM3"), None);
    assert_eq!(parse_toml_string("COM3\""), None);
    assert_eq!(parse_toml_string(""), None);
    assert_eq!(parse_toml_string("'COM3'"), None);
}

#[test]
fn comments_blank_lines_and_unknown_keys_are_ignored() {
    let text = "# selected_baud = 1\n\n   \nother = 5\nno equals sign\n selected_baud=9600 ";
    let config = parse_config(text);
    assert_eq!(config.selected_port, None);
    assert_eq!(config.selected_baud, Some(9600));
}

#[test]
fn windows_line_ends_are_accepted() {
    let config = parse_config("selected_port = \"COM3\"\r\nselected_baud = 57600\r\n");
    assert_eq!(config.selected_port.as_deref(), Some("COM3"));
    assert_eq!(config.selected_baud, Some(57600));
}

#[test]
fn the_last_line_of_a_key_counts() {
    let config = parse_config("selected_baud = 1\nselected_baud = 2\n");
    assert_eq!(config.selected_baud, Some(2));
    let config = parse_config("selected_baud = 1\nselected_baud = x\nselected_port = \"a\"\nselected_port = b");
    assert_eq!(config.selected_baud, None);
    assert_eq!(config.selected_port, None);
}

#[test]
fn a_value_may_hold_an_equals_sign() {
    let config = parse_config("selected_port = \"a=b\"");
    assert_eq!(config.selected_port.as_deref(), Some("a=b"));
}

#[test]
fn baud_rates_are_read_as_unsigned_numbers() {
    for value in [
        "0", "9600", "+9600", "4294967295", "4294967296", "99999999999999999999", "-1", "+", "",
        "1_000", "0009600", "1 2", "12a", "٣",
    ] {
        let config = parse_config(&format!("selected_baud = {value}"));
        assert_eq!(config.selected_baud, value.parse::<u32>().ok(), "{value}");
    }
}

#[test]
fn a_lone_quote_cannot_be_read() {
    assert!(!is_readable("selected_port = \""));
    assert!(!is_readable("selected_baud = 1\n selected_port=\" \n"));
    assert!(is_readable("selected_port = \"\""));
    assert!(is_readable("# selected_port = \""));
    assert!(is_readable("other = \""));
    assert!(is_readable(""));
}

#[test]
fn settings_survive_saving() {
    for port in [None, Some("COM3"), Some(""), Some("a\"b\\c\n\r\t= #串口\u{2028} "), Some("\\")] {
        for baud in [None, Some(0), Some(115200), Some(u32::MAX)] {
            let config = AppConfig {
                selected_port: port.map(str::to_owned),
                selected_baud: baud,
            };
            let text = config.to_toml();
            assert!(is_readable(&text));
            assert_eq!(parse_config(&text), config);
            assert_eq!(AppConfig::load(Some(&text)), config);
        }
    }
}

#[test]
fn settings_are_written_line_by_line() {
    let config = AppConfig {
        selected_port: Some("COM\"3".to_owned()),
        selected_baud: Some(57600),
    };
    assert_eq!(config.to_toml(), "selected_port = \"COM\\\"3\"\nselected_baud = 57600\n");
    assert_eq!(AppConfig::default().to_toml(), "");
}

#[test]
fn without_a_file_there_are_no_settings() {
    assert_eq!(AppConfig::load(None), AppConfig::default());
    assert_eq!(AppConfig::default().selected_port, None);
    assert_eq!(AppConfig::default().selected_baud, None);
}

#[test]
fn settings_file_lies_below_the_platforms_directory() {
    let path = config_file_path(Platform::Windows, true, false, false).unwrap();
    assert_eq!(path.base, BaseVariable::AppData);
    assert_eq!(path.components, vec!["serial_tool", "config.toml"]);
    assert_eq!(config_file_path(Platform::Windows, false, true, true), None);

    let path = config_file_path(Platform::MacOs, false, true, true).unwrap();
    assert_eq!(path.base, BaseVariable::Home);
    assert_eq!(
        path.components,
        vec!["Library", "Application Support", "serial_tool", "config.toml"]
    );
    assert_eq!(config_file_path(Platform::MacOs, true, false, true), None);

    let path = config_file_path(Platform::Other, false, true, true).unwrap();
    assert_eq!(path.base, BaseVariable::XdgConfigHome);
    assert_eq!(path.components, vec!["serial_tool", "config.toml"]);
    let path = config_file_path(Platform::Other, false, true, false).unwrap();
    assert_eq!(path.base, BaseVariable::Home);
    assert_eq!(path.components, vec![".config", "serial_tool", "config.toml"]);
    assert_eq!(config_file_path(Platform::Other, true, false, false), None);
}

#[test]
fn fonts_are_looked_for_in_order() {
    assert_eq!(
        font_paths(Platform::Windows),
        vec![
            "C:/Windows/Fonts/msyh.ttc",
            "C:/Windows/Fonts/simsun.ttc",
            "C:/Windows/Fonts/simhei.ttf",
        ]
    );
    assert_eq!(font_paths(Platform::MacOs)[0], "/System/Library/Fonts/PingFang.ttc");
    assert_eq!(font_paths(Platform::MacOs).len(), 2);
    assert_eq!(font_paths(Platform::Other).len(), 7);
    assert_eq!(
        font_paths(Platform::Other)[6],
        "/usr/share/fonts/noto/NotoSansCJK-Regular.ttc"
    );
}

#[test]
fn the_last_line_end_is_optional() {
    let text = "selected_port = \"a\"\nselected_baud = 5";
    assert_eq!(parse_config(text), parse_config(&format!("{text}\n")));
}
