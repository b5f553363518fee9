//! The saved settings: which port and which baud rate were selected last.
//!
//! They are kept in a small subset of TOML: one `key = value` per line, `#` starts a comment line.

use crate::text;
use vstd::prelude::*;
use vstd::slice::slice_subrange;

verus! {

/// The settings that outlive the program.
#[derive(Debug, PartialEq, Eq)]
pub struct AppConfig {
    pub selected_port: Option<String>,
    pub selected_baud: Option<u32>,
}

/// What an [`AppConfig`] holds.
#[verifier::ext_equal]
pub struct Config {
    pub selected_port: Option<Seq<char>>,
    pub selected_baud: Option<u32>,
}

/// The contents of an optional string.
pub open spec fn text_of(s: Option<String>) -> Option<Seq<char>> {
    match s {
        Some(text) => Some(text@),
        None => None,
    }
}

impl View for AppConfig {
    type V = Config;

    open spec fn view(&self) -> Config {
        Config { selected_port: text_of(self.selected_port), selected_baud: self.selected_baud }
    }
}

/// No setting at all.
pub open spec fn no_settings() -> Config {
    Config { selected_port: None, selected_baud: None }
}

impl Default for AppConfig {
    /// No setting at all.
    fn default() -> (result: Self)
        ensures
            result@ == no_settings(),
    {
        AppConfig { selected_port: None, selected_baud: None }
    }
}

/// How `c` is written inside a quoted string.
pub open spec fn escaped_char(c: char) -> Seq<char> {
    if c == '\\' {
        seq!['\\', '\\']
    } else if c == '"' {
        seq!['\\', '"']
    } else if c == '\n' {
        seq!['\\', 'n']
    } else if c == '\r' {
        seq!['\\', 'r']
    } else if c == '\t' {
        seq!['\\', 't']
    } else {
        seq![c]
    }
}

/// How `s` is written inside a quoted string, character by character.
pub open spec fn escaped(s: Seq<char>) -> Seq<char>
    decreases s.len(),
{
    if s.len() == 0 {
        Seq::empty()
    } else {
        escaped_char(s[0]) + escaped(s.drop_first())
    }
}

/// Writes `value` as it stands inside a quoted string.
pub fn escape_toml_string(value: &str) -> (result: String)
    ensures
        result@ == escaped(value@),
{
    let chars = text::to_chars(value);
    let mut result = String::new();
    let mut i: usize = 0;
    assert(chars@.skip(0) == chars@);
    while i < chars.len()
        invariant
            i <= chars.len(),
            result@ + escaped(chars@.skip(i as int)) == escaped(chars@),
        decreases chars.len() - i,
    {
        let c = chars[i];
        let ghost before = result@;
        assert(chars@.skip(i as int).drop_first() == chars@.skip(i + 1));
        if c == '\\' {
            result.push('\\');
            result.push('\\');
        } else if c == '"' {
            result.push('\\');
            result.push('"');
        } else if c == '\n' {
            result.push('\\');
            result.push('n');
        } else if c == '\r' {
            result.push('\\');
            result.push('r');
        } else if c == '\t' {
            result.push('\\');
            result.push('t');
        } else {
            result.push(c);
        }
        assert(result@ == before + escaped_char(c));
        assert(before + (escaped_char(c) + escaped(chars@.skip(i + 1))) == before + escaped_char(c)
            + escaped(chars@.skip(i + 1)));
        i += 1;
    }
    assert(chars@.skip(i as int) == Seq::<char>::empty());
    assert(result@ + Seq::<char>::empty() == result@);
    result
}

/// What a backslash and the character `c` behind it stand for inside a quoted string.
pub open spec fn unescaped_pair(c: char) -> Seq<char> {
    if c == '\\' {
        seq!['\\']
    } else if c == '"' {
        seq!['"']
    } else if c == 'n' {
        seq!['\n']
    } else if c == 'r' {
        seq!['\r']
    } else if c == 't' {
        seq!['\t']
    } else {
        seq!['\\', c]
    }
}

/// What `s`, taken from inside a quoted string, stands for. An unknown escape and a backslash at the
/// end stand for themselves.
pub open spec fn unescaped(s: Seq<char>) -> Seq<char>
    decreases s.len(),
{
    if s.len() == 0 {
        Seq::empty()
    } else if s[0] != '\\' {
        seq![s[0]] + unescaped(s.skip(1))
    } else if s.len() == 1 {
        seq!['\\']
    } else {
        unescaped_pair(s[1]) + unescaped(s.skip(2))
    }
}

/// What a quoted string `value` stands for, white space around it apart. None where it is not
/// between quotes.
pub open spec fn quoted(value: Seq<char>) -> Option<Seq<char>> {
    let t = text::trimmed(value);
    if t.len() >= 2 && t[0] == '"' && t.last() == '"' {
        Some(unescaped(t.subrange(1, t.len() - 1)))
    } else {
        None
    }
}

/// A single quote mark, which neither is nor lacks a quoted string.
pub open spec fn lone_quote(value: Seq<char>) -> bool {
    text::trimmed(value) == seq!['"']
}

/// Reads the inside of a quoted string.
fn unescape(s: &[char]) -> (result: String)
    ensures
        result@ == unescaped(s@),
{
    let mut result = String::new();
    let mut i: usize = 0;
    assert(s@.skip(0) == s@);
    while i < s.len()
        invariant
            i <= s.len(),
            result@ + unescaped(s@.skip(i as int)) == unescaped(s@),
        decreases s.len() - i,
    {
        let ghost before = result@;
        let ghost rest = s@.skip(i as int);
        let c = s[i];
        if c != '\\' {
            result.push(c);
            assert(rest.skip(1) == s@.skip(i + 1));
            assert(result@ + unescaped(s@.skip(i + 1)) == before + (seq![c] + unescaped(
                s@.skip(i + 1),
            )));
            i += 1;
        } else if i + 1 == s.len() {
            result.push('\\');
            assert(s@.skip(i + 1) == Seq::<char>::empty());
            assert(result@ + Seq::<char>::empty() == before + seq!['\\']);
            i += 1;
        } else {
            let other = s[i + 1];
            if other == '\\' {
                result.push('\\');
            } else if other == '"' {
                result.push('"');
            } else if other == 'n' {
                result.push('\n');
            } else if other == 'r' {
                result.push('\r');
            } else if other == 't' {
                result.push('\t');
            } else {
                result.push('\\');
                result.push(other);
            }
            assert(result@ == before + unescaped_pair(other));
            assert(rest.skip(2) == s@.skip(i + 2));
            assert(result@ + unescaped(s@.skip(i + 2)) == before + (unescaped_pair(other)
                + unescaped(s@.skip(i + 2))));
            i += 2;
        }
    }
    assert(s@.skip(i as int) == Seq::<char>::empty());
    assert(result@ + Seq::<char>::empty() == result@);
    result
}

/// Reads a quoted string.
fn quoted_string(value: &[char]) -> (result: Option<String>)
    requires
        !lone_quote(value@),
    ensures
        text_of(result) == quoted(value@),
{
    let t = text::trim(value);
    if t.len() == 0 || t[0] != '"' || t[t.len() - 1] != '"' {
        return None;
    }
    assert(t.len() == 1 ==> t@ == seq!['"']);
    Some(unescape(slice_subrange(t, 1, t.len() - 1)))
}

/// Reads a quoted string, with or without white space around it.
pub fn parse_toml_string(value: &str) -> (result: Option<String>)
    requires
        !lone_quote(value@),
    ensures
        text_of(result) == quoted(value@),
{
    let chars = text::to_chars(value);
    quoted_string(chars.as_slice())
}

/// The key and the value of a line, without the white space around them. None for an empty line, a
/// comment and a line without an equals sign.
pub open spec fn setting(line: Seq<char>) -> Option<(Seq<char>, Seq<char>)> {
    let l = text::trimmed(line);
    if l.len() == 0 || l[0] == '#' {
        None
    } else {
        match l.index_of_first('=') {
            Some(i) => Some((text::trimmed(l.take(i)), text::trimmed(l.skip(i + 1)))),
            None => None,
        }
    }
}

/// The baud rate that `value` writes, where it writes one.
pub open spec fn baud(value: Seq<char>) -> Option<u32> {
    match text::unsigned_number(value, 10, u32::MAX as nat) {
        Some(n) => Some(n as u32),
        None => None,
    }
}

/// The settings after one more line: a known key sets or clears its setting, anything else changes
/// nothing.
pub open spec fn with_line(config: Config, line: Seq<char>) -> Config {
    match setting(line) {
        Some((key, value)) => if key == "selected_port"@ {
            Config { selected_port: quoted(value), ..config }
        } else if key == "selected_baud"@ {
            Config { selected_baud: baud(value), ..config }
        } else {
            config
        },
        None => config,
    }
}

/// The settings that `lines`, read in order, leave.
pub open spec fn with_lines(lines: Seq<Seq<char>>) -> Config
    decreases lines.len(),
{
    if lines.len() == 0 {
        no_settings()
    } else {
        with_line(with_lines(lines.drop_last()), lines.last())
    }
}

/// The settings that the text of a settings file holds.
pub open spec fn settings(contents: Seq<char>) -> Config {
    with_lines(text::sections(contents, '\n'))
}

/// The line sets the port to a single quote mark.
pub open spec fn broken_line(line: Seq<char>) -> bool {
    match setting(line) {
        Some((key, value)) => key == "selected_port"@ && lone_quote(value),
        None => false,
    }
}

/// No line of the text sets the port to a single quote mark.
pub open spec fn readable(contents: Seq<char>) -> bool {
    let lines = text::sections(contents, '\n');
    forall|i: int| 0 <= i < lines.len() ==> !broken_line(#[trigger] lines[i])
}

/// Cuts a line into its key and its value.
fn split_setting<'a>(line: &'a [char]) -> (result: Option<(&'a [char], &'a [char])>)
    ensures
        match result {
            Some((key, value)) => setting(line@) == Some((key@, value@)),
            None => setting(line@) is None,
        },
{
    let l = text::trim(line);
    if l.len() == 0 || l[0] == '#' {
        return None;
    }
    match text::find_char(l, '=') {
        Some(i) => {
            let key = slice_subrange(l, 0, i);
            let value = slice_subrange(l, i + 1, l.len());
            assert(l@.take(i as int) == key@);
            assert(l@.skip(i + 1) == value@);
            Some((text::trim(key), text::trim(value)))
        },
        None => None,
    }
}

/// Whether `key` is the word `name`.
fn is_key(key: &[char], name: &str) -> (result: bool)
    ensures
        result == (key@ == name@),
{
    let chars = text::to_chars(name);
    text::same_chars(key, chars.as_slice())
}

/// Whether the text can be read: no line sets the port to a single quote mark.
pub fn is_readable(contents: &str) -> (result: bool)
    ensures
        result == readable(contents@),
{
    let chars = text::to_chars(contents);
    let lines = text::split_sections(chars.as_slice(), '\n');
    let mut i: usize = 0;
    while i < lines.len()
        invariant
            i <= lines.len(),
            text::runs(lines@) == text::sections(contents@, '\n'),
            forall|j: int|
                0 <= j < i ==> !broken_line(#[trigger] text::sections(contents@, '\n')[j]),
        decreases lines.len() - i,
    {
        assert(text::runs(lines@)[i as int] == lines@[i as int]@);
        match split_setting(lines[i]) {
            Some((key, value)) => {
                if is_key(key, "selected_port") {
                    let t = text::trim(value);
                    if t.len() == 1 && t[0] == '"' {
                        assert(t@ == seq!['"']);
                        return false;
                    }
                }
            },
            None => {},
        }
        i += 1;
    }
    true
}

/// Reads the text of a settings file.
pub fn parse_config(contents: &str) -> (result: AppConfig)
    requires
        readable(contents@),
    ensures
        result@ == settings(contents@),
{
    let mut config = AppConfig::default();
    let chars = text::to_chars(contents);
    let lines = text::split_sections(chars.as_slice(), '\n');
    let mut i: usize = 0;
    while i < lines.len()
        invariant
            i <= lines.len(),
            text::runs(lines@) == text::sections(contents@, '\n'),
            readable(contents@),
            config@ == with_lines(text::sections(contents@, '\n').take(i as int)),
        decreases lines.len() - i,
    {
        let ghost all = text::sections(contents@, '\n');
        assert(text::runs(lines@)[i as int] == lines@[i as int]@);
        assert(!broken_line(all[i as int]));
        assert(all.take(i + 1).drop_last() == all.take(i as int));
        match split_setting(lines[i]) {
            Some((key, value)) => {
                if is_key(key, "selected_port") {
                    config.selected_port = quoted_string(value);
                } else if is_key(key, "selected_baud") {
                    config.selected_baud = text::parse_unsigned(value, 10, u32::MAX);
                }
            },
            None => {},
        }
        i += 1;
    }
    assert(text::sections(contents@, '\n').take(i as int) == text::sections(contents@, '\n'));
    config
}

/// The line that saves the port.
pub open spec fn port_line(port: Seq<char>) -> Seq<char> {
    "selected_port = \""@ + escaped(port) + "\"\n"@
}

/// The line that saves the baud rate.
pub open spec fn baud_line(rate: u32) -> Seq<char> {
    "selected_baud = "@ + text::decimal(rate as nat) + "\n"@
}

/// The text that saves a port, where there is one.
pub open spec fn port_text(port: Option<Seq<char>>) -> Seq<char> {
    match port {
        Some(name) => port_line(name),
        None => Seq::empty(),
    }
}

/// The text that saves a baud rate, where there is one.
pub open spec fn baud_text(rate: Option<u32>) -> Seq<char> {
    match rate {
        Some(number) => baud_line(number),
        None => Seq::empty(),
    }
}

/// The text of a settings file that holds `config`: a line for each setting that is there.
pub open spec fn toml(config: Config) -> Seq<char> {
    port_text(config.selected_port) + baud_text(config.selected_baud)
}

impl AppConfig {
    /// The settings that a start of the program begins with: those of the settings file, or none
    /// where there was no file to read.
    pub fn load(contents: Option<&str>) -> (result: Self)
        requires
            contents is Some ==> readable(contents->0@),
        ensures
            result@ == match contents {
                Some(text) => settings(text@),
                None => no_settings(),
            },
    {
        match contents {
            Some(text) => parse_config(text),
            None => AppConfig::default(),
        }
    }

    /// The text of a settings file that holds these settings.
    pub fn to_toml(&self) -> (result: String)
        ensures
            result@ == toml(self@),
    {
        let mut content = String::new();
        if let Some(port) = &self.selected_port {
            content.append("selected_port = \"");
            content.append(escape_toml_string(port.as_str()).as_str());
            content.append("\"\n");
            assert(content@ == port_line(port@));
        }
        let ghost first = content@;
        if let Some(rate) = self.selected_baud {
            content.append("selected_baud = ");
            text::push_decimal(&mut content, rate as u64);
            content.append("\n");
            assert(content@ == first + baud_line(rate));
        }
        assert(content@ == toml(self@));
        content
    }
}

/// Reading what was written between quotes gives back the text: no character is lost or changed.
pub proof fn law_unescape_undoes_escape(s: Seq<char>)
    ensures
        unescaped(escaped(s)) == s,
    decreases s.len(),
{
    if s.len() > 0 {
        let rest = s.drop_first();
        law_unescape_undoes_escape(rest);
        let e = escaped(s);
        let first = escaped_char(s[0]);
        assert(e.skip(first.len() as int) == escaped(rest));
        assert(e[0] == first[0]);
        if first.len() == 2 {
            assert(e[1] == first[1]);
            assert(unescaped_pair(first[1]) == seq![s[0]]);
        }
        assert(seq![s[0]] + rest == s);
    }
}

/// Text written between quotes stays on one line: it holds no line feed, carriage return or tab.
pub proof fn law_escaped_stays_on_one_line(s: Seq<char>)
    ensures
        forall|i: int|
            #![trigger escaped(s)[i]]
            0 <= i < escaped(s).len() ==> escaped(s)[i] != '\n' && escaped(s)[i] != '\r'
                && escaped(s)[i] != '\t',
    decreases s.len(),
{
    if s.len() > 0 {
        let rest = escaped(s.drop_first());
        let first = escaped_char(s[0]);
        law_escaped_stays_on_one_line(s.drop_first());
        assert forall|i: int|
            #![trigger escaped(s)[i]]
            0 <= i < escaped(s).len() implies escaped(s)[i] != '\n' && escaped(s)[i] != '\r'
            && escaped(s)[i] != '\t' by {
            if i < first.len() {
                assert(escaped(s)[i] == first[i]);
            } else {
                assert(escaped(s)[i] == rest[i - first.len()]);
            }
        }
    }
}

/// Nothing is trimmed from text that begins and ends with other characters than white space.
proof fn lemma_trimmed_solid(s: Seq<char>)
    requires
        s.len() > 0,
        !text::white_space(s[0]),
        !text::white_space(s.last()),
    ensures
        text::trimmed(s) == s,
{
}

/// The line that saves the port, without its line feed, sets the port.
proof fn lemma_port_line(config: Config, port: Seq<char>)
    ensures
        ({
            let line = "selected_port = \""@ + escaped(port) + "\""@;
            &&& with_line(config, line) == (Config { selected_port: Some(port), ..config })
            &&& !broken_line(line)
            &&& !line.contains('\n')
        }),
{
    reveal_strlit("selected_port = \"");
    reveal_strlit("\"");
    reveal_strlit("selected_port");
    let e = escaped(port);
    let line = "selected_port = \""@ + e + "\""@;
    lemma_trimmed_solid(line);
    line.index_of_first_ensures('=');
    assert(line[14] == '=');
    assert(line.contains('='));
    let at = line.index_of_first('=')->0;
    assert(at == 14) by {
        assert forall|j: int| 0 <= j < 14 implies line[j] != '=' by {
            assert(line[j] == "selected_port = \""@[j]);
        }
    }
    let key = line.take(14);
    assert(key.drop_last() == "selected_port"@);
    assert(text::white_space(key.last()));
    assert(text::trim_start(key) == key);
    assert(text::trim_end(key.drop_last()) == key.drop_last());
    assert(text::trimmed(key) == "selected_port"@);
    let value = line.skip(15);
    let inner = seq!['"'] + e + seq!['"'];
    assert(value.drop_first() == inner);
    assert(text::white_space(value[0]));
    lemma_trimmed_solid(inner);
    assert(text::trim_start(value) == text::trim_start(inner));
    assert(text::trimmed(value) == inner);
    assert(inner.subrange(1, inner.len() - 1) == e);
    law_unescape_undoes_escape(port);
    assert(quoted(inner) == Some(port));
    assert(inner.len() >= 2);
    law_escaped_stays_on_one_line(port);
    if line.contains('\n') {
        let i = choose|i: int| 0 <= i < line.len() && line[i] == '\n';
        if i < 17 {
            assert(line[i] == "selected_port = \""@[i]);
        } else if i < 17 + e.len() {
            assert(line[i] == e[i - 17]);
        }
    }
}

/// The line that saves the baud rate, without its line feed, sets the baud rate.
proof fn lemma_baud_line(config: Config, rate: u32)
    ensures
        ({
            let line = "selected_baud = "@ + text::decimal(rate as nat);
            &&& with_line(config, line) == (Config { selected_baud: Some(rate), ..config })
            &&& !broken_line(line)
            &&& !line.contains('\n')
        }),
{
    reveal_strlit("selected_baud = ");
    reveal_strlit("selected_baud");
    reveal_strlit("selected_port");
    let d = text::decimal(rate as nat);
    text::lemma_decimal(rate as nat);
    text::lemma_decimal_read_back(rate as nat, u32::MAX as nat);
    let line = "selected_baud = "@ + d;
    assert(line.last() == d.last());
    assert(text::is_digit(d.last(), 10));
    assert(text::is_digit(d[0], 10));
    lemma_trimmed_solid(line);
    line.index_of_first_ensures('=');
    assert(line[14] == '=');
    assert(line.contains('='));
    let at = line.index_of_first('=')->0;
    assert(at == 14) by {
        assert forall|j: int| 0 <= j < 14 implies line[j] != '=' by {
            assert(line[j] == "selected_baud = "@[j]);
        }
    }
    let key = line.take(14);
    assert(key.drop_last() == "selected_baud"@);
    assert(text::white_space(key.last()));
    assert(text::trim_start(key) == key);
    assert(text::trim_end(key.drop_last()) == key.drop_last());
    assert(text::trimmed(key) == "selected_baud"@);
    assert("selected_baud"@[9] != "selected_port"@[9]);
    let value = line.skip(15);
    assert(value.drop_first() == d);
    assert(text::white_space(value[0]));
    lemma_trimmed_solid(d);
    assert(text::trim_start(value) == text::trim_start(d));
    assert(text::trimmed(value) == d);
    if line.contains('\n') {
        let i = choose|i: int| 0 <= i < line.len() && line[i] == '\n';
        if i < 16 {
            assert(line[i] == "selected_baud = "@[i]);
        } else {
            assert(line[i] == d[i - 16]);
            assert(text::is_digit(d[i - 16], 10));
        }
    }
}

/// The text that saves a port, or none, sets exactly that and ends with an empty line.
proof fn lemma_port_text(port: Option<Seq<char>>)
    ensures
        ({
            let lines = text::sections(port_text(port), '\n');
            let config = Config { selected_port: port, selected_baud: None };
            &&& lines.len() > 0
            &&& lines.last() == Seq::<char>::empty()
            &&& with_lines(lines) == config
            &&& with_lines(lines.drop_last()) == config
            &&& forall|i: int| 0 <= i < lines.len() ==> !broken_line(#[trigger] lines[i])
        }),
{
    let none = Seq::<char>::empty();
    assert(text::trimmed(none) == none);
    assert(setting(none) is None);
    let no_lines = Seq::<Seq<char>>::empty();
    assert(with_lines(no_lines) == no_settings());
    match port {
        Some(name) => {
            reveal_strlit("\"\n");
            reveal_strlit("\"");
            let line = "selected_port = \""@ + escaped(name) + "\""@;
            lemma_port_line(no_settings(), name);
            assert(port_line(name) == line.push('\n'));
            text::lemma_sections_append(none, line, '\n');
            assert(none + line == line);
            assert(text::sections(none, '\n') == seq![none]);
            assert(seq![none].drop_last() == no_lines);
            assert(text::sections(line, '\n') == seq![line]);
            text::lemma_sections_mark(line, '\n');
            let lines = seq![line, none];
            assert(text::sections(port_line(name), '\n') == lines);
            assert(lines.drop_last() == seq![line]);
            assert(seq![line].drop_last() == no_lines);
            assert(with_lines(seq![line]) == with_line(no_settings(), line));
        },
        None => {
            assert(text::sections(none, '\n') == seq![none]);
            assert(seq![none].drop_last() == no_lines);
        },
    }
}

/// Reading a settings file that was written from settings gives back those settings, whatever they
/// are, and such a file can always be read.
pub proof fn law_settings_survive_saving(config: Config)
    ensures
        readable(toml(config)),
        settings(toml(config)) == config,
{
    let none = Seq::<char>::empty();
    assert(text::trimmed(none) == none);
    assert(setting(none) is None);
    let first = port_text(config.selected_port);
    lemma_port_text(config.selected_port);
    let lines1 = text::sections(first, '\n');
    match config.selected_baud {
        Some(rate) => {
            reveal_strlit("\n");
            let line = "selected_baud = "@ + text::decimal(rate as nat);
            lemma_baud_line(Config { selected_baud: None, ..config }, rate);
            assert(toml(config) == (first + line).push('\n'));
            text::lemma_sections_append(first, line, '\n');
            text::lemma_sections_mark(first + line, '\n');
            assert(none + line == line);
            let lines2 = lines1.drop_last().push(line);
            assert(text::sections(toml(config), '\n') == lines2.push(none));
            assert(lines2.push(none).drop_last() == lines2);
            assert(lines2.drop_last() == lines1.drop_last());
            assert(with_lines(lines2) == config);
            let all = lines2.push(none);
            assert forall|i: int| 0 <= i < all.len() implies !broken_line(#[trigger] all[i]) by {
                if i < lines1.len() - 1 {
                    assert(all[i] == lines1[i]);
                } else if i == lines1.len() - 1 {
                    assert(all[i] == line);
                } else {
                    assert(all[i] == none);
                }
            }
        },
        None => {
            assert(toml(config) == first);
        },
    }
}

/// Lines may end with a carriage return and a line feed: the carriage return changes nothing.
pub proof fn law_carriage_return_before_the_line_end_is_ignored(config: Config, line: Seq<char>)
    ensures
        with_line(config, line.push('\r')) == with_line(config, line),
        broken_line(line.push('\r')) == broken_line(line),
{
    text::law_trailing_white_space_is_trimmed(line, '\r');
}

/// The line feed behind the last line can be left out.
pub proof fn law_last_line_end_is_optional(contents: Seq<char>)
    ensures
        settings(contents.push('\n')) == settings(contents),
        readable(contents.push('\n')) == readable(contents),
{
    let none = Seq::<char>::empty();
    let lines = text::sections(contents, '\n');
    let more = lines.push(none);
    text::lemma_sections_mark(contents, '\n');
    assert(text::trimmed(none) == none);
    assert(setting(none) is None);
    assert(more.drop_last() == lines);
    if readable(contents) {
        assert forall|i: int| 0 <= i < more.len() implies !broken_line(#[trigger] more[i]) by {
            if i < lines.len() {
                assert(more[i] == lines[i]);
            }
        }
    }
    if readable(contents.push('\n')) {
        assert forall|i: int| 0 <= i < lines.len() implies !broken_line(#[trigger] lines[i]) by {
            assert(more[i] == lines[i]);
        }
    }
}

} // verus!
