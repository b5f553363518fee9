//! What holds of the text of a settings file.

use crate::config;
use crate::config::Config;
use crate::laws::words;
use crate::platform;
use crate::platform::{BaseVariable, Platform};
use crate::text;
use vstd::prelude::*;

verus! {

/// Text is escaped piece by piece: what stands in one place does not change how the rest is written.
pub proof fn law_text_is_escaped_piece_by_piece(s: Seq<char>, t: Seq<char>)
    ensures
        config::escaped(s + t) == config::escaped(s) + config::escaped(t),
    decreases s.len(),
{
    if s.len() == 0 {
        assert(s + t == t);
        assert(config::escaped(s) + config::escaped(t) == config::escaped(t));
    } else {
        let rest = s.drop_first();
        law_text_is_escaped_piece_by_piece(rest, t);
        assert((s + t).drop_first() == rest + t);
        let first = config::escaped_char(s[0]);
        assert(first + (config::escaped(rest) + config::escaped(t)) == first + config::escaped(rest)
            + config::escaped(t));
    }
}

/// Only five characters are escaped, each by a backslash and one character; any other is written as
/// itself.
pub proof fn law_five_characters_are_escaped(c: char)
    ensures
        config::escaped(seq!['\\']) == "\\\\"@,
        config::escaped(seq!['"']) == "\\\""@,
        config::escaped(seq!['\n']) == "\\n"@,
        config::escaped(seq!['\r']) == "\\r"@,
        config::escaped(seq!['\t']) == "\\t"@,
        !"\\\"\n\r\t"@.contains(c) ==> config::escaped(seq![c]) == seq![c],
        config::escaped(Seq::empty()) == Seq::<char>::empty(),
{
    reveal_strlit("\\\\");
    reveal_strlit("\\\"");
    reveal_strlit("\\n");
    reveal_strlit("\\r");
    reveal_strlit("\\t");
    reveal_strlit("\\\"\n\r\t");
    let five = "\\\"\n\r\t"@;
    assert(five[0] == '\\' && five[1] == '"' && five[2] == '\n' && five[3] == '\r' && five[4]
        == '\t');
    lemma_escaped_one('\\');
    lemma_escaped_one('"');
    lemma_escaped_one('\n');
    lemma_escaped_one('\r');
    lemma_escaped_one('\t');
    lemma_escaped_one(c);
    assert(seq!['\\', '\\'] == "\\\\"@);
    assert(seq!['\\', '"'] == "\\\""@);
    assert(seq!['\\', 'n'] == "\\n"@);
    assert(seq!['\\', 'r'] == "\\r"@);
    assert(seq!['\\', 't'] == "\\t"@);
}

proof fn lemma_escaped_one(c: char)
    ensures
        config::escaped(seq![c]) == config::escaped_char(c),
{
    let none = Seq::<char>::empty();
    assert(seq![c].drop_first() == none);
    assert(config::escaped(none) == none);
    assert(config::escaped_char(c) + none == config::escaped_char(c));
}

/// Inside quotes, text up to the first backslash stands for itself, and so does a backslash at the
/// end.
pub proof fn law_text_without_escapes_stands_for_itself(s: Seq<char>, t: Seq<char>)
    requires
        !s.contains('\\'),
    ensures
        config::unescaped(s + t) == s + config::unescaped(t),
        config::unescaped(s) == s,
        config::unescaped(seq!['\\']) == seq!['\\'],
    decreases s.len(),
{
    if s.len() == 0 {
        assert(s + t == t);
        assert(s + config::unescaped(t) == config::unescaped(t));
        assert(config::unescaped(s) == s);
    } else {
        let rest = s.skip(1);
        assert(s.contains(s[0]));
        assert(!rest.contains('\\')) by {
            if rest.contains('\\') {
                let i = choose|i: int| 0 <= i < rest.len() && rest[i] == '\\';
                assert(s[i + 1] == '\\');
            }
        }
        law_text_without_escapes_stands_for_itself(rest, t);
        assert((s + t).skip(1) == rest + t);
        assert(seq![s[0]] + (rest + config::unescaped(t)) == s + config::unescaped(t));
        assert(seq![s[0]] + rest == s);
    }
}

/// Inside quotes, a backslash and one of five characters stand for one character; before any other
/// character the backslash stands for itself, and so does the character.
pub proof fn law_escapes_stand_for_one_character(c: char, t: Seq<char>)
    ensures
        config::unescaped(seq!['\\', '\\'] + t) == seq!['\\'] + config::unescaped(t),
        config::unescaped(seq!['\\', '"'] + t) == seq!['"'] + config::unescaped(t),
        config::unescaped(seq!['\\', 'n'] + t) == seq!['\n'] + config::unescaped(t),
        config::unescaped(seq!['\\', 'r'] + t) == seq!['\r'] + config::unescaped(t),
        config::unescaped(seq!['\\', 't'] + t) == seq!['\t'] + config::unescaped(t),
        !"\\\"nrt"@.contains(c) ==> config::unescaped(seq!['\\', c] + t) == seq!['\\', c]
            + config::unescaped(t),
{
    reveal_strlit("\\\"nrt");
    let five = "\\\"nrt"@;
    assert(five[0] == '\\' && five[1] == '"' && five[2] == 'n' && five[3] == 'r' && five[4] == 't');
    lemma_unescaped_pair('\\', t);
    lemma_unescaped_pair('"', t);
    lemma_unescaped_pair('n', t);
    lemma_unescaped_pair('r', t);
    lemma_unescaped_pair('t', t);
    lemma_unescaped_pair(c, t);
}

proof fn lemma_unescaped_pair(c: char, t: Seq<char>)
    ensures
        config::unescaped(seq!['\\', c] + t) == config::unescaped_pair(c) + config::unescaped(t),
{
    let s = seq!['\\', c] + t;
    assert(s[0] == '\\');
    assert(s[1] == c);
    assert(s.skip(2) == t);
}

/// What stands between quotes is read, whatever white space is around them.
pub proof fn law_quotes_hold_the_text(a: Seq<char>, inner: Seq<char>, b: Seq<char>)
    requires
        words::all_white(a),
        words::all_white(b),
    ensures
        config::quoted(a + (seq!['"'] + inner + seq!['"']) + b) == Some(config::unescaped(inner)),
        !config::lone_quote(a + (seq!['"'] + inner + seq!['"']) + b),
        config::lone_quote(a + seq!['"'] + b),
{
    let t = seq!['"'] + inner + seq!['"'];
    words::law_trimming_uncovers_the_middle(a, t, b);
    words::law_trimming_uncovers_the_middle(a, seq!['"'], b);
    assert(t.subrange(1, t.len() - 1) == inner);
    assert(t.len() >= 2);
}

/// Text without a quote at both ends is no quoted string, whatever white space is around it.
pub proof fn law_text_without_quotes_is_not_read(a: Seq<char>, middle: Seq<char>, b: Seq<char>)
    requires
        words::all_white(a),
        words::all_white(b),
        words::solid_ends(middle),
        middle.len() > 0 ==> middle[0] != '"' || middle[middle.len() - 1] != '"',
    ensures
        config::quoted(a + middle + b) is None,
        !config::lone_quote(a + middle + b),
{
    words::law_trimming_uncovers_the_middle(a, middle, b);
}

proof fn lemma_trim_start_solid(s: Seq<char>)
    ensures
        text::trim_start(s).len() > 0 ==> !text::white_space(text::trim_start(s)[0]),
    decreases s.len(),
{
    if s.len() > 0 && text::white_space(s[0]) {
        lemma_trim_start_solid(s.drop_first());
    }
}

proof fn lemma_trim_end_solid(s: Seq<char>)
    ensures
        text::trim_end(s).len() <= s.len(),
        text::trim_end(s) == s.take(text::trim_end(s).len() as int),
        text::trim_end(s).len() > 0 ==> !text::white_space(
            text::trim_end(s)[text::trim_end(s).len() - 1],
        ),
    decreases s.len(),
{
    if s.len() > 0 && text::white_space(s.last()) {
        lemma_trim_end_solid(s.drop_last());
        let n = text::trim_end(s).len() as int;
        assert(s.drop_last().take(n) == s.take(n));
    } else {
        assert(s.take(s.len() as int) == s);
    }
}

/// What is trimmed has no white space left at its ends, so trimming it again changes nothing.
proof fn lemma_trimmed_twice(s: Seq<char>)
    ensures
        words::solid_ends(text::trimmed(s)),
        text::trimmed(text::trimmed(s)) == text::trimmed(s),
{
    let t = text::trim_start(s);
    let m = text::trimmed(s);
    lemma_trim_start_solid(s);
    lemma_trim_end_solid(t);
    let none = Seq::<char>::empty();
    words::law_trimming_uncovers_the_middle(none, m, none);
    assert(none + m + none == m);
}

proof fn lemma_trim_end_first(v: Seq<char>)
    ensures
        text::trimmed(text::trim_end(v)) == text::trimmed(v),
    decreases v.len(),
{
    if v.len() > 0 && text::white_space(v.last()) {
        lemma_trim_end_first(v.drop_last());
        text::law_trailing_white_space_is_trimmed(v.drop_last(), v.last());
        assert(v.drop_last().push(v.last()) == v);
    }
}

proof fn lemma_trim_end_behind(x: Seq<char>, v: Seq<char>)
    requires
        x.len() > 0,
        !text::white_space(x[x.len() - 1]),
    ensures
        text::trim_end(x + v) == x + text::trim_end(v),
    decreases v.len(),
{
    if v.len() == 0 {
        assert(x + v == x);
        assert(x + text::trim_end(v) == x);
    } else if text::white_space(v.last()) {
        lemma_trim_end_behind(x, v.drop_last());
        assert((x + v).drop_last() == x + v.drop_last());
    }
}

proof fn lemma_setting(a: Seq<char>, key: Seq<char>, v: Seq<char>)
    requires
        words::all_white(a),
        key.len() > 0 ==> !text::white_space(key[0]) && key[0] != '#',
        !key.contains('='),
    ensures
        config::setting(a + key + seq!['='] + v) == Some((text::trimmed(key), text::trimmed(v))),
{
    let x = key + seq!['='];
    let line = a + key + seq!['='] + v;
    assert(line == a + (x + v));
    words::lemma_trim_start_over(a, x + v);
    assert((x + v)[0] == x[0]);
    assert(text::trim_start(x + v) == x + v);
    lemma_trim_end_behind(x, v);
    let l = x + text::trim_end(v);
    assert(text::trimmed(line) == l);
    let n = key.len() as int;
    l.index_of_first_ensures('=');
    assert(l[n] == '=');
    assert(l.contains('='));
    let at = l.index_of_first('=')->0;
    assert(at == n) by {
        if at < n {
            assert(l[at] == key[at]);
            assert(key.contains('='));
        }
    }
    assert(l.take(n) == key);
    assert(l.skip(n + 1) == text::trim_end(v));
    lemma_trim_end_first(v);
}

proof fn lemma_key(name: Seq<char>, b: Seq<char>)
    requires
        words::all_white(b),
        words::solid_ends(name),
    ensures
        text::trimmed(name + b) == name,
{
    let none = Seq::<char>::empty();
    assert(none + name + b == name + b);
    words::law_trimming_uncovers_the_middle(none, name, b);
}

proof fn lemma_no_equals(name: Seq<char>, b: Seq<char>)
    requires
        words::all_white(b),
        !name.contains('='),
    ensures
        !(name + b).contains('='),
{
    let key = name + b;
    if key.contains('=') {
        let i = choose|i: int| 0 <= i < key.len() && key[i] == '=';
        if i < name.len() {
            assert(name[i] == '=');
        } else {
            assert(text::white_space(b[i - name.len()]));
            assert(key[i] == b[i - name.len()]);
        }
    }
}

/// A line that names the port sets it to the quoted string behind the first equals sign, or clears it
/// where there is none; white space around the name does not matter, and the baud rate stays.
pub proof fn law_port_line_sets_the_port(config: Config, a: Seq<char>, b: Seq<char>, v: Seq<char>)
    requires
        words::all_white(a),
        words::all_white(b),
    ensures
        ({
            let line = a + ("selected_port"@ + b) + seq!['='] + v;
            &&& config::with_line(config, line) == (Config {
                selected_port: config::quoted(v),
                ..config
            })
            &&& config::broken_line(line) == config::lone_quote(v)
        }),
{
    reveal_strlit("selected_port");
    let name = "selected_port"@;
    lemma_no_equals(name, b);
    assert((name + b)[0] == 's');
    lemma_setting(a, name + b, v);
    lemma_key(name, b);
    lemma_trimmed_twice(v);
}

/// A line that names the baud rate sets it to the decimal number behind the first equals sign, or
/// clears it where that is no number of 32 bits; white space around either does not matter, and the
/// port stays.
pub proof fn law_baud_line_sets_the_baud_rate(
    config: Config,
    a: Seq<char>,
    b: Seq<char>,
    c: Seq<char>,
    value: Seq<char>,
    d: Seq<char>,
)
    requires
        words::all_white(a),
        words::all_white(b),
        words::all_white(c),
        words::solid_ends(value),
        words::all_white(d),
    ensures
        ({
            let line = a + ("selected_baud"@ + b) + seq!['='] + (c + value + d);
            let after = config::with_line(config, line);
            &&& after.selected_port == config.selected_port
            &&& match text::unsigned_number(value, 10, 0xffff_ffff) {
                Some(n) => after.selected_baud matches Some(rate) && rate == n,
                None => after.selected_baud is None,
            }
            &&& !config::broken_line(line)
        }),
{
    reveal_strlit("selected_port");
    reveal_strlit("selected_baud");
    let name = "selected_baud"@;
    assert(name[9] != "selected_port"@[9]);
    lemma_no_equals(name, b);
    assert((name + b)[0] == 's');
    lemma_setting(a, name + b, c + value + d);
    lemma_key(name, b);
    words::law_trimming_uncovers_the_middle(c, value, d);
}

/// A line with any other name changes nothing.
pub proof fn law_other_names_change_nothing(
    config: Config,
    a: Seq<char>,
    name: Seq<char>,
    b: Seq<char>,
    v: Seq<char>,
)
    requires
        words::all_white(a),
        words::all_white(b),
        words::solid_ends(name),
        !name.contains('='),
        name != "selected_port"@,
        name != "selected_baud"@,
    ensures
        ({
            let line = a + name + b + seq!['='] + v;
            &&& config::with_line(config, line) == config
            &&& !config::broken_line(line)
        }),
{
    let line = a + name + b + seq!['='] + v;
    let none = Seq::<char>::empty();
    if name.len() == 0 {
        let front = a + name + b;
        assert forall|i: int| 0 <= i < front.len() implies text::white_space(
            #[trigger] front[i],
        ) by {
            if i < a.len() {
                assert(front[i] == a[i]);
            } else {
                assert(front[i] == b[i - a.len()]);
            }
        }
        assert(line == front + none + seq!['='] + v);
        lemma_setting(front, none, v);
        assert(none + none == none);
        lemma_key(none, none);
        assert(name == none);
    } else if name[0] == '#' {
        let rest = name.skip(1) + b + seq!['='] + v;
        assert(line == a + (seq!['#'] + rest));
        law_comments_change_nothing(config, a, rest);
    } else {
        assert(line == a + (name + b) + seq!['='] + v);
        lemma_no_equals(name, b);
        assert((name + b)[0] == name[0]);
        lemma_setting(a, name + b, v);
        lemma_key(name, b);
    }
}

/// A line whose first character is a hash sign, white space apart, changes nothing.
pub proof fn law_comments_change_nothing(config: Config, a: Seq<char>, comment: Seq<char>)
    requires
        words::all_white(a),
    ensures
        config::with_line(config, a + (seq!['#'] + comment)) == config,
        !config::broken_line(a + (seq!['#'] + comment)),
{
    let s = seq!['#'] + comment;
    words::lemma_trim_start_over(a, s);
    assert(s[0] == '#');
    assert(text::trim_start(s) == s);
    lemma_trim_end_behind(seq!['#'], comment);
}

/// A line without an equals sign changes nothing.
pub proof fn law_lines_without_equals_sign_change_nothing(config: Config, line: Seq<char>)
    requires
        !line.contains('='),
    ensures
        config::with_line(config, line) == config,
        !config::broken_line(line),
{
    let l = text::trimmed(line);
    let t = text::trim_start(line);
    lemma_trim_start_within(line);
    lemma_trim_end_solid(t);
    l.index_of_first_ensures('=');
    if l.contains('=') {
        let i = choose|i: int| 0 <= i < l.len() && l[i] == '=';
        assert(t[i] == '=');
        assert(t.contains('='));
    }
}

proof fn lemma_trim_start_within(s: Seq<char>)
    ensures
        text::trim_start(s).contains('=') ==> s.contains('='),
    decreases s.len(),
{
    if s.len() > 0 && text::white_space(s[0]) {
        let rest = s.drop_first();
        lemma_trim_start_within(rest);
        if rest.contains('=') {
            let i = choose|i: int| 0 <= i < rest.len() && rest[i] == '=';
            assert(s[i + 1] == '=');
        }
    }
}

/// The settings of a file are those of its lines, one after the other: a later line changes what the
/// lines before it left. An empty file holds no settings.
pub proof fn law_lines_are_read_in_order(contents: Seq<char>, line: Seq<char>)
    requires
        !line.contains('\n'),
    ensures
        config::settings(contents + seq!['\n'] + line) == config::with_line(
            config::settings(contents),
            line,
        ),
        config::readable(contents + seq!['\n'] + line) <==> config::readable(contents)
            && !config::broken_line(line),
        config::settings(line) == config::with_line(
            Config { selected_port: None, selected_baud: None },
            line,
        ),
        config::readable(line) <==> !config::broken_line(line),
        config::settings(Seq::empty()) == (Config { selected_port: None, selected_baud: None }),
{
    let none = Seq::<char>::empty();
    words::law_text_without_a_mark_is_one_section(line, '\n');
    words::law_text_without_a_mark_is_one_section(none, '\n');
    words::law_marks_part_sections(contents, '\n', line);
    let before = text::sections(contents, '\n');
    let all = before + seq![line];
    let nothing = Seq::<Seq<char>>::empty();
    assert(all.drop_last() == before);
    assert(all.last() == line);
    assert(seq![line].drop_last() == nothing);
    assert(seq![none].drop_last() == nothing);
    assert(config::with_lines(nothing) == config::no_settings());
    law_lines_without_equals_sign_change_nothing(config::no_settings(), none);
    if config::readable(contents) && !config::broken_line(line) {
        assert forall|i: int| 0 <= i < all.len() implies !config::broken_line(#[trigger] all[i]) by {
            if i < before.len() {
                assert(all[i] == before[i]);
            }
        }
    }
    if config::readable(contents + seq!['\n'] + line) {
        assert(!config::broken_line(all[before.len() as int]));
        assert forall|i: int| 0 <= i < before.len() implies !config::broken_line(
            #[trigger] before[i],
        ) by {
            assert(all[i] == before[i]);
        }
    }
    assert(seq![line][0] == line);
}

/// What is saved is a line for the port, quoted and escaped, and a line for the baud rate, in decimal,
/// in this order, each where there is such a setting.
pub proof fn law_settings_are_saved_line_by_line(port: Seq<char>, rate: u32, config: Config)
    ensures
        config::toml(Config { selected_port: Some(port), selected_baud: None })
            == "selected_port = \""@ + config::escaped(port) + "\"\n"@,
        config::toml(Config { selected_port: None, selected_baud: Some(rate) })
            == "selected_baud = "@ + text::decimal(rate as nat) + "\n"@,
        config::toml(Config { selected_port: None, selected_baud: None }).len() == 0,
        config::toml(config) == config::toml(Config { selected_baud: None, ..config })
            + config::toml(Config { selected_port: None, ..config }),
{
    let none = Seq::<char>::empty();
    assert(config::port_line(port) + none == config::port_line(port));
    assert(none + config::baud_line(rate) == config::baud_line(rate));
    let first = config::port_text(config.selected_port);
    let second = config::baud_text(config.selected_baud);
    assert((first + none) + (none + second) == first + second);
}

/// The settings file lies in a directory of the program's own below the directory that the platform
/// keeps settings in; there is no such file exactly where no variable names that directory.
pub proof fn law_settings_file_lies_below_the_named_directory(
    has_app_data: bool,
    has_home: bool,
    has_xdg: bool,
)
    ensures
        platform::config_location(Platform::Windows, has_app_data, has_home, has_xdg) is Some
            <==> has_app_data,
        platform::config_location(Platform::MacOs, has_app_data, has_home, has_xdg) is Some
            <==> has_home,
        platform::config_location(Platform::Other, has_app_data, has_home, has_xdg) is Some
            <==> has_xdg || has_home,
        platform::config_location(
            Platform::Windows,
            has_app_data,
            has_home,
            has_xdg,
        ) matches Some((base, path)) ==> base == BaseVariable::AppData && path
            == seq!["serial_tool"@, "config.toml"@],
        platform::config_location(
            Platform::MacOs,
            has_app_data,
            has_home,
            has_xdg,
        ) matches Some((base, path)) ==> base == BaseVariable::Home && path
            == seq!["Library"@, "Application Support"@, "serial_tool"@, "config.toml"@],
        has_xdg ==> platform::config_location(Platform::Other, has_app_data, has_home, has_xdg)
            == Some((BaseVariable::XdgConfigHome, seq!["serial_tool"@, "config.toml"@])),
        !has_xdg && has_home ==> platform::config_location(
            Platform::Other,
            has_app_data,
            has_home,
            has_xdg,
        ) == Some((BaseVariable::Home, seq![".config"@, "serial_tool"@, "config.toml"@])),
{
    let file = seq!["serial_tool"@, "config.toml"@];
    assert(seq!["Library"@, "Application Support"@] + file
        == seq!["Library"@, "Application Support"@, "serial_tool"@, "config.toml"@]);
    assert(seq![".config"@] + file == seq![".config"@, "serial_tool"@, "config.toml"@]);
}

/// Fonts are looked for in this order: on Windows YaHei, SimSun and SimHei; on macOS PingFang and
/// Heiti; elsewhere MicroHei in its two places and then Noto Sans CJK in its five.
pub proof fn law_fonts_are_tried_in_order()
    ensures
        platform::font_files(Platform::Windows).len() == 3,
        platform::font_files(Platform::Windows)[0] == "C:/Windows/Fonts/msyh.ttc"@,
        platform::font_files(Platform::Windows)[1] == "C:/Windows/Fonts/simsun.ttc"@,
        platform::font_files(Platform::Windows)[2] == "C:/Windows/Fonts/simhei.ttf"@,
        platform::font_files(Platform::MacOs).len() == 2,
        platform::font_files(Platform::MacOs)[0] == "/System/Library/Fonts/PingFang.ttc"@,
        platform::font_files(Platform::MacOs)[1] == "/System/Library/Fonts/STHeiti Light.ttc"@,
        platform::font_files(Platform::Other).len() == 7,
        platform::font_files(Platform::Other)[0]
            == "/usr/share/fonts/truetype/wqy/wqy-microhei.ttc"@,
        platform::font_files(Platform::Other)[1]
            == "/usr/share/fonts/wqy-microhei/wqy-microhei.ttc"@,
        platform::font_files(Platform::Other)[2]
            == "/usr/share/fonts/truetype/noto/NotoSansCJK-Regular.ttc"@,
        platform::font_files(Platform::Other)[3]
            == "/usr/share/fonts/noto-cjk/NotoSansCJK-Regular.ttc"@,
        platform::font_files(Platform::Other)[4]
            == "/usr/share/fonts/google-noto-cjk/NotoSansCJK-Regular.ttc"@,
        platform::font_files(Platform::Other)[5]
            == "/usr/share/fonts/opentype/noto/NotoSansCJK-Regular.ttc"@,
        platform::font_files(Platform::Other)[6]
            == "/usr/share/fonts/noto/NotoSansCJK-Regular.ttc"@,
{
}

} // verus!
