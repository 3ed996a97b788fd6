//! The crosshair configuration: the crosshair type names, the `config.ini`
//! grammar, and the colour code.

use vstd::prelude::*;
use crate::text::{
    chars_eq_ignore_ascii_case, chars_equal, chars_of, eq_ignore_ascii_case, find_char, lowercase,
    lowercase_chars, slice_chars, string_of, trim, trim_chars,
};

verus! {

/// The shape of the crosshair.
#[derive(Clone, Copy, PartialEq, Eq, Debug, Structural)]
pub enum CrosshairType {
    Dot,
    Cross,
    T,
    Circle,
}

impl CrosshairType {
    /// The name under which the type is written in `config.ini`.
    pub open spec fn name(self) -> Seq<char> {
        match self {
            CrosshairType::Dot => seq!['d', 'o', 't'],
            CrosshairType::Cross => seq!['c', 'r', 'o', 's', 's'],
            CrosshairType::T => seq!['t'],
            CrosshairType::Circle => seq!['c', 'i', 'r', 'c', 'l', 'e'],
        }
    }

    /// The type a normalised (trimmed, lowercase) name stands for: `dot`,
    /// `t` and `circle` name their types, anything else is a cross.
    pub open spec fn from_name(n: Seq<char>) -> CrosshairType {
        if n == CrosshairType::Dot.name() {
            CrosshairType::Dot
        } else if n == CrosshairType::T.name() {
            CrosshairType::T
        } else if n == CrosshairType::Circle.name() {
            CrosshairType::Circle
        } else {
            CrosshairType::Cross
        }
    }

    /// The type that the text `s` names, ignoring surrounding white space and
    /// letter case; text that names no type gives `Cross`.
    pub fn from_str(s: &str) -> (t: Self)
        ensures
            t == Self::from_name(lowercase(trim(s@))),
    {
        Self::from_chars(&chars_of(s))
    }

    /// The type that the characters `v` name, as `from_str` reads them.
    pub fn from_chars(v: &[char]) -> (t: Self)
        ensures
            t == Self::from_name(lowercase(trim(v@))),
    {
        let trimmed = trim_chars(v);
        let name = lowercase_chars(&trimmed);
        if chars_equal(&name, &chars_of(CrosshairType::Dot.as_str())) {
            CrosshairType::Dot
        } else if chars_equal(&name, &chars_of(CrosshairType::T.as_str())) {
            CrosshairType::T
        } else if chars_equal(&name, &chars_of(CrosshairType::Circle.as_str())) {
            CrosshairType::Circle
        } else {
            CrosshairType::Cross
        }
    }

    /// The name of the type, as `config.ini` writes it.
    pub fn as_str(&self) -> (s: &'static str)
        ensures
            s@ == self.name(),
    {
        match self {
            CrosshairType::Dot => {
                proof {
                    reveal_strlit("dot");
                }
                "dot"
            },
            CrosshairType::Cross => {
                proof {
                    reveal_strlit("cross");
                }
                "cross"
            },
            CrosshairType::T => {
                proof {
                    reveal_strlit("t");
                }
                "t"
            },
            CrosshairType::Circle => {
                proof {
                    reveal_strlit("circle");
                }
                "circle"
            },
        }
    }
}

/// One setting of the `[crosshair]` section of `config.ini`.
#[derive(Clone, Copy, PartialEq, Eq, Debug, Structural)]
pub enum Setting {
    Type,
    Size,
    Thickness,
    Color,
    DotCenter,
    Opacity,
    Border,
    SpaceWidth,
}

impl Setting {
    /// The key that names the setting.
    pub open spec fn name(self) -> Seq<char> {
        match self {
            Setting::Type => seq!['t', 'y', 'p', 'e'],
            Setting::Size => seq!['s', 'i', 'z', 'e'],
            Setting::Thickness => seq!['t', 'h', 'i', 'c', 'k', 'n', 'e', 's', 's'],
            Setting::Color => seq!['c', 'o', 'l', 'o', 'r'],
            Setting::DotCenter => seq!['d', 'o', 't', '_', 'c', 'e', 'n', 't', 'e', 'r'],
            Setting::Opacity => seq!['o', 'p', 'a', 'c', 'i', 't', 'y'],
            Setting::Border => seq!['b', 'o', 'r', 'd', 'e', 'r'],
            Setting::SpaceWidth => seq!['s', 'p', 'a', 'c', 'e', '_', 'w', 'i', 'd', 't', 'h'],
        }
    }

    /// The setting that a normalised (trimmed, lowercase) key names, if any.
    pub open spec fn named(key: Seq<char>) -> Option<Setting> {
        if key == Setting::Type.name() {
            Some(Setting::Type)
        } else if key == Setting::Size.name() {
            Some(Setting::Size)
        } else if key == Setting::Thickness.name() {
            Some(Setting::Thickness)
        } else if key == Setting::Color.name() {
            Some(Setting::Color)
        } else if key == Setting::DotCenter.name() {
            Some(Setting::DotCenter)
        } else if key == Setting::Opacity.name() {
            Some(Setting::Opacity)
        } else if key == Setting::Border.name() {
            Some(Setting::Border)
        } else if key == Setting::SpaceWidth.name() {
            Some(Setting::SpaceWidth)
        } else {
            None
        }
    }

    /// The key that names the setting.
    pub fn key(&self) -> (s: &'static str)
        ensures
            s@ == self.name(),
    {
        match self {
            Setting::Type => {
                proof {
                    reveal_strlit("type");
                }
                "type"
            },
            Setting::Size => {
                proof {
                    reveal_strlit("size");
                }
                "size"
            },
            Setting::Thickness => {
                proof {
                    reveal_strlit("thickness");
                }
                "thickness"
            },
            Setting::Color => {
                proof {
                    reveal_strlit("color");
                }
                "color"
            },
            Setting::DotCenter => {
                proof {
                    reveal_strlit("dot_center");
                }
                "dot_center"
            },
            Setting::Opacity => {
                proof {
                    reveal_strlit("opacity");
                }
                "opacity"
            },
            Setting::Border => {
                proof {
                    reveal_strlit("border");
                }
                "border"
            },
            Setting::SpaceWidth => {
                proof {
                    reveal_strlit("space_width");
                }
                "space_width"
            },
        }
    }

    /// The setting that the normalised key `key` names, if any.
    pub fn from_key(key: &[char]) -> (r: Option<Setting>)
        ensures
            r == Setting::named(key@),
    {
        if chars_equal(key, &chars_of(Setting::Type.key())) {
            Some(Setting::Type)
        } else if chars_equal(key, &chars_of(Setting::Size.key())) {
            Some(Setting::Size)
        } else if chars_equal(key, &chars_of(Setting::Thickness.key())) {
            Some(Setting::Thickness)
        } else if chars_equal(key, &chars_of(Setting::Color.key())) {
            Some(Setting::Color)
        } else if chars_equal(key, &chars_of(Setting::DotCenter.key())) {
            Some(Setting::DotCenter)
        } else if chars_equal(key, &chars_of(Setting::Opacity.key())) {
            Some(Setting::Opacity)
        } else if chars_equal(key, &chars_of(Setting::Border.key())) {
            Some(Setting::Border)
        } else if chars_equal(key, &chars_of(Setting::SpaceWidth.key())) {
            Some(Setting::SpaceWidth)
        } else {
            None
        }
    }
}

/// The name of the only section of `config.ini` that holds settings.
pub open spec fn crosshair_section() -> Seq<char> {
    seq!['c', 'r', 'o', 's', 's', 'h', 'a', 'i', 'r']
}

/// What an on/off value says: `true` in any letter case or `1` is on,
/// `false` in any letter case or `0` is off; `None` for any other value,
/// which is not valid.
pub open spec fn switch_word(v: Seq<char>) -> Option<bool> {
    if eq_ignore_ascii_case(v, seq!['t', 'r', 'u', 'e']) || v == seq!['1'] {
        Some(true)
    } else if eq_ignore_ascii_case(v, seq!['f', 'a', 'l', 's', 'e']) || v == seq!['0'] {
        Some(false)
    } else {
        None
    }
}

/// The value of an on/off setting written as `v`: what `v` says, or `default`
/// when `v` is not valid.
pub open spec fn switch_value(v: Seq<char>, default: bool) -> bool {
    match switch_word(v) {
        Some(b) => b,
        None => default,
    }
}

/// The value of an on/off setting written as `v`, `default` when `v` is not
/// valid.
pub fn parse_switch(v: &[char], default: bool) -> (b: bool)
    ensures
        b == switch_value(v@, default),
{
    let t = chars_of("true");
    let one = chars_of("1");
    let f = chars_of("false");
    let zero = chars_of("0");
    proof {
        reveal_strlit("true");
        reveal_strlit("1");
        reveal_strlit("false");
        reveal_strlit("0");
        assert(t@ =~= seq!['t', 'r', 'u', 'e']);
        assert(one@ =~= seq!['1']);
        assert(f@ =~= seq!['f', 'a', 'l', 's', 'e']);
        assert(zero@ =~= seq!['0']);
    }
    if chars_eq_ignore_ascii_case(v, &t) || chars_equal(v, &one) {
        true
    } else if chars_eq_ignore_ascii_case(v, &f) || chars_equal(v, &zero) {
        false
    } else {
        default
    }
}

/// What a `Config` holds, as mathematical values.
#[verifier::ext_equal]
pub struct ConfigView {
    pub crosshair_type: CrosshairType,
    pub size: Option<Seq<char>>,
    pub thickness: Option<Seq<char>>,
    pub color_hex: Seq<char>,
    pub dot_center: bool,
    pub opacity: Option<Seq<char>>,
    pub border: bool,
    pub space_width: Option<Seq<char>>,
}

/// The crosshair settings read from `config.ini`. The numeric settings (size,
/// thickness, opacity, gap) are held as the text of their last entry, `None`
/// where the file gives none; turning that text into a number, and the
/// default number where it is missing or not a number, is the overlay's work.
#[derive(Debug)]
pub struct Config {
    pub crosshair_type: CrosshairType,
    pub size: Option<String>,
    pub thickness: Option<String>,
    pub color_hex: String,
    pub dot_center: bool,
    pub opacity: Option<String>,
    pub border: bool,
    pub space_width: Option<String>,
}

/// The view of an optional text.
pub open spec fn opt_text(o: Option<String>) -> Option<Seq<char>> {
    match o {
        Some(s) => Some(s@),
        None => None,
    }
}

impl View for Config {
    type V = ConfigView;

    open spec fn view(&self) -> ConfigView {
        ConfigView {
            crosshair_type: self.crosshair_type,
            size: opt_text(self.size),
            thickness: opt_text(self.thickness),
            color_hex: self.color_hex@,
            dot_center: self.dot_center,
            opacity: opt_text(self.opacity),
            border: self.border,
            space_width: opt_text(self.space_width),
        }
    }
}

/// The default colour code, red.
pub open spec fn default_color() -> Seq<char> {
    seq!['#', 'F', 'F', '0', '0', '0', '0']
}

/// The settings that apply where `config.ini` says nothing: a cross in red,
/// with a centre dot and a border, and the default numbers.
pub open spec fn default_config() -> ConfigView {
    ConfigView {
        crosshair_type: CrosshairType::Cross,
        size: None,
        thickness: None,
        color_hex: default_color(),
        dot_center: true,
        opacity: None,
        border: true,
        space_width: None,
    }
}

impl Default for Config {
    fn default() -> (c: Self)
        ensures
            c@ == default_config(),
    {
        proof {
            reveal_strlit("#FF0000");
        }
        Config {
            crosshair_type: CrosshairType::Cross,
            size: None,
            thickness: None,
            color_hex: "#FF0000".to_owned(),
            dot_center: true,
            opacity: None,
            border: true,
            space_width: None,
        }
    }
}

/// `cfg` after the entry `key = value` of the `[crosshair]` section, with
/// `key` normalised (trimmed, lowercase) and `value` trimmed. Unknown keys
/// change nothing.
pub open spec fn apply_setting(cfg: ConfigView, key: Seq<char>, value: Seq<char>) -> ConfigView {
    match Setting::named(key) {
        Some(Setting::Type) => ConfigView {
            crosshair_type: CrosshairType::from_name(lowercase(trim(value))),
            ..cfg
        },
        Some(Setting::Size) => ConfigView { size: Some(value), ..cfg },
        Some(Setting::Thickness) => ConfigView { thickness: Some(value), ..cfg },
        Some(Setting::Color) => ConfigView { color_hex: value, ..cfg },
        Some(Setting::DotCenter) => ConfigView {
            dot_center: switch_value(value, default_config().dot_center),
            ..cfg
        },
        Some(Setting::Opacity) => ConfigView { opacity: Some(value), ..cfg },
        Some(Setting::Border) => ConfigView {
            border: switch_value(value, default_config().border),
            ..cfg
        },
        Some(Setting::SpaceWidth) => ConfigView { space_width: Some(value), ..cfg },
        None => cfg,
    }
}

/// Where the reading of `config.ini` stands between two lines: the current
/// section (normalised) and the settings read so far.
pub struct ParseState {
    pub section: Seq<char>,
    pub config: ConfigView,
}

/// The value of an entry, from the text `after` its `=`: cut at the first
/// `;`, which starts a comment, and trimmed.
pub open spec fn entry_value(after: Seq<char>) -> Seq<char> {
    match after.index_of_first(';') {
        Some(q) => trim(after.take(q)),
        None => trim(after),
    }
}

/// The state after one line of `config.ini`. The trimmed line is a comment
/// when it is empty or starts with `;` or `#`; `[name]` opens a section;
/// otherwise a line with an `=` is an entry `key = value`, split at its first
/// `=`, with the key trimmed and lowercase and the value as `entry_value`
/// gives it, which sets a value when the current section is `crosshair`; any
/// other line is ignored.
pub open spec fn apply_line(st: ParseState, raw: Seq<char>) -> ParseState {
    let line = trim(raw);
    if line.len() == 0 || line[0] == ';' || line[0] == '#' {
        st
    } else if line[0] == '[' && line.last() == ']' {
        ParseState { section: lowercase(trim(line.subrange(1, line.len() - 1))), config: st.config }
    } else {
        match raw.index_of_first('=') {
            Some(p) => if st.section == crosshair_section() {
                ParseState {
                    section: st.section,
                    config: apply_setting(
                        st.config,
                        lowercase(trim(raw.take(p))),
                        entry_value(raw.skip(p + 1)),
                    ),
                }
            } else {
                st
            },
            None => st,
        }
    }
}

/// The lines of `text`: the pieces between `\n` characters. A carriage return
/// before the `\n` stays on the line, where trimming removes it.
pub open spec fn split_lines(text: Seq<char>) -> Seq<Seq<char>>
    decreases text.len(),
{
    if text.len() == 0 {
        seq![Seq::empty()]
    } else {
        let ls = split_lines(text.drop_last());
        if text.last() == '\n' {
            ls.push(Seq::empty())
        } else {
            ls.update(ls.len() - 1, ls.last().push(text.last()))
        }
    }
}

/// The state after the lines `lines`, one after the other, from `st`.
pub open spec fn apply_lines(st: ParseState, lines: Seq<Seq<char>>) -> ParseState
    decreases lines.len(),
{
    if lines.len() == 0 {
        st
    } else {
        apply_line(apply_lines(st, lines.drop_last()), lines.last())
    }
}

/// The state before the first line: no section, default settings.
pub open spec fn initial_state() -> ParseState {
    ParseState { section: Seq::empty(), config: default_config() }
}

/// The settings that the text of `config.ini` gives.
pub open spec fn parse_config(text: Seq<char>) -> ConfigView {
    apply_lines(initial_state(), split_lines(text)).config
}

/// The value of an entry from the text `after` its `=` (see `entry_value`).
pub fn entry_text(after: &[char]) -> (v: Vec<char>)
    ensures
        v@ == entry_value(after@),
{
    match find_char(after, ';') {
        Some(q) => {
            assert(after@.take(q as int) =~= after@.subrange(0, q as int));
            trim_chars(&slice_chars(after, 0, q))
        },
        None => trim_chars(after),
    }
}

impl Config {
    /// Applies the entry `key = value` of the `[crosshair]` section, `key`
    /// normalised (trimmed, lowercase) and `value` trimmed.
    fn apply_setting(&mut self, key: &[char], value: &[char])
        ensures
            final(self)@ == apply_setting(old(self)@, key@, value@),
    {
        match Setting::from_key(key) {
            Some(Setting::Type) => {
                self.crosshair_type = CrosshairType::from_chars(value);
            },
            Some(Setting::Size) => {
                self.size = Some(string_of(value));
            },
            Some(Setting::Thickness) => {
                self.thickness = Some(string_of(value));
            },
            Some(Setting::Color) => {
                self.color_hex = string_of(value);
            },
            Some(Setting::DotCenter) => {
                self.dot_center = parse_switch(value, true);
            },
            Some(Setting::Opacity) => {
                self.opacity = Some(string_of(value));
            },
            Some(Setting::Border) => {
                self.border = parse_switch(value, true);
            },
            Some(Setting::SpaceWidth) => {
                self.space_width = Some(string_of(value));
            },
            None => {},
        }
    }

    /// Reads one line of `config.ini`, with `section` the current section.
    fn apply_line(&mut self, section: &mut Vec<char>, raw: &[char])
        ensures
            (ParseState { section: final(section)@, config: final(self)@ }) == apply_line(
                ParseState { section: old(section)@, config: old(self)@ },
                raw@,
            ),
    {
        let line = trim_chars(raw);
        let n: usize = line.len();
        if n == 0 || line[0] == ';' || line[0] == '#' {
            return ;
        }
        if line[0] == '[' && line[n - 1] == ']' {
            let inner = slice_chars(&line, 1, n - 1);
            *section = lowercase_chars(&trim_chars(&inner));
            return ;
        }
        match find_char(raw, '=') {
            Some(p) => {
                let len: usize = raw.len();
                let key = lowercase_chars(&trim_chars(&slice_chars(raw, 0, p)));
                let value = entry_text(&slice_chars(raw, p + 1, len));
                let crosshair = chars_of("crosshair");
                proof {
                    reveal_strlit("crosshair");
                    assert(crosshair@ =~= crosshair_section());
                    assert(raw@.take(p as int) =~= raw@.subrange(0, p as int));
                    assert(raw@.skip(p + 1) =~= raw@.subrange(p + 1, raw@.len() as int));
                }
                if chars_equal(section, &crosshair) {
                    self.apply_setting(&key, &value);
                }
            },
            None => {},
        }
    }

    /// The settings that the text `content` of `config.ini` gives, starting
    /// from the defaults.
    pub fn parse(content: &str) -> (c: Config)
        ensures
            c@ == parse_config(content@),
    {
        let text = chars_of(content);
        let mut config = Config::default();
        let mut section: Vec<char> = Vec::new();
        let mut line: Vec<char> = Vec::new();
        let mut i: usize = 0;
        while i < text.len()
            invariant
                i <= text@.len(),
                ({
                    let ls = split_lines(text@.take(i as int));
                    &&& ls.len() >= 1
                    &&& line@ == ls.last()
                    &&& (ParseState { section: section@, config: config@ }) == apply_lines(
                        initial_state(),
                        ls.drop_last(),
                    )
                }),
            decreases text@.len() - i,
        {
            let ghost prev = split_lines(text@.take(i as int));
            assert(text@.take(i + 1).drop_last() =~= text@.take(i as int));
            let c = text[i];
            if c == '\n' {
                config.apply_line(&mut section, &line);
                line = Vec::new();
                proof {
                    let next = split_lines(text@.take(i + 1));
                    assert(next == prev.push(Seq::empty()));
                    assert(next.drop_last() =~= prev);
                    assert(prev =~= prev.drop_last().push(prev.last()));
                }
            } else {
                line.push(c);
                proof {
                    let next = split_lines(text@.take(i + 1));
                    assert(next == prev.update(prev.len() - 1, prev.last().push(c)));
                    assert(next.drop_last() =~= prev.drop_last());
                }
            }
            i = i + 1;
        }
        config.apply_line(&mut section, &line);
        proof {
            let ls = split_lines(text@);
            assert(text@.take(text@.len() as int) =~= text@);
            assert(ls =~= ls.drop_last().push(ls.last()));
        }
        config
    }
}

/// `s` without its leading `#` characters.
pub open spec fn strip_hashes(s: Seq<char>) -> Seq<char>
    decreases s.len(),
{
    if s.len() > 0 && s[0] == '#' {
        strip_hashes(s.drop_first())
    } else {
        s
    }
}

/// The value of a hexadecimal digit: `0`-`9`, `a`-`f`, `A`-`F`.
pub open spec fn hex_digit_value(c: char) -> Option<u8> {
    if '0' <= c <= '9' {
        Some((c as u32 - '0' as u32) as u8)
    } else if 'a' <= c <= 'f' {
        Some((c as u32 - 'a' as u32 + 10) as u8)
    } else if 'A' <= c <= 'F' {
        Some((c as u32 - 'A' as u32 + 10) as u8)
    } else {
        None
    }
}

/// The byte that the two hexadecimal digits `a b` write, if both are digits.
pub open spec fn hex_byte(a: char, b: char) -> Option<u8> {
    match (hex_digit_value(a), hex_digit_value(b)) {
        (Some(x), Some(y)) => Some((16 * x + y) as u8),
        _ => None,
    }
}

/// The red, green and blue bytes of a colour code: after any leading `#`,
/// three groups of two hexadecimal digits (characters after the sixth are
/// ignored). `None` when the text is not such a code.
pub open spec fn color_components(s: Seq<char>) -> Option<(u8, u8, u8)> {
    let h = strip_hashes(s);
    if h.len() >= 6 {
        match (hex_byte(h[0], h[1]), hex_byte(h[2], h[3]), hex_byte(h[4], h[5])) {
            (Some(r), Some(g), Some(b)) => Some((r, g, b)),
            _ => None,
        }
    } else {
        None
    }
}

/// The colour used where the colour code is not valid: red.
pub open spec fn fallback_color() -> (u8, u8, u8) {
    (255, 0, 0)
}

/// The colour that the code `s` gives: its components, or red where it is
/// not a valid code.
pub open spec fn color_of(s: Seq<char>) -> (u8, u8, u8) {
    match color_components(s) {
        Some(rgb) => rgb,
        None => fallback_color(),
    }
}

proof fn lemma_strip_hashes_skip(s: Seq<char>, i: int)
    requires
        0 <= i <= s.len(),
        forall|k: int| 0 <= k < i ==> #[trigger] s[k] == '#',
    ensures
        strip_hashes(s) == strip_hashes(s.subrange(i, s.len() as int)),
    decreases i,
{
    if i > 0 {
        assert(s.drop_first() =~= s.subrange(1, s.len() as int));
        lemma_strip_hashes_skip(s.drop_first(), i - 1);
        assert(s.drop_first().subrange(i - 1, s.drop_first().len() as int) =~= s.subrange(
            i,
            s.len() as int,
        ));
    } else {
        assert(s.subrange(0, s.len() as int) =~= s);
    }
}

/// The value of the hexadecimal digit `c`, if it is one.
pub fn hex_digit(c: char) -> (r: Option<u8>)
    ensures
        r == hex_digit_value(c),
{
    if '0' <= c && c <= '9' {
        Some((c as u32 - '0' as u32) as u8)
    } else if 'a' <= c && c <= 'f' {
        Some((c as u32 - 'a' as u32 + 10) as u8)
    } else if 'A' <= c && c <= 'F' {
        Some((c as u32 - 'A' as u32 + 10) as u8)
    } else {
        None
    }
}

/// The byte that the hexadecimal digits `a b` write, if both are digits.
pub fn parse_hex_byte(a: char, b: char) -> (r: Option<u8>)
    ensures
        r == hex_byte(a, b),
{
    match (hex_digit(a), hex_digit(b)) {
        (Some(x), Some(y)) => Some(16 * x + y),
        _ => None,
    }
}

impl Config {
    /// The red, green and blue bytes of the colour code; red where the code is
    /// not valid.
    pub fn parse_color(&self) -> (rgb: (u8, u8, u8))
        ensures
            rgb == color_of(self.color_hex@),
    {
        let v = chars_of(self.color_hex.as_str());
        let n: usize = v.len();
        let mut i: usize = 0;
        while i < n && v[i] == '#'
            invariant
                n == v@.len(),
                i <= n,
                forall|k: int| 0 <= k < i ==> #[trigger] v@[k] == '#',
            decreases n - i,
        {
            i = i + 1;
        }
        proof {
            lemma_strip_hashes_skip(v@, i as int);
            let h = v@.subrange(i as int, n as int);
            if h.len() > 0 {
                assert(h[0] == v@[i as int]);
            }
            assert(strip_hashes(h) == h);
        }
        if n - i >= 6 {
            let r = parse_hex_byte(v[i], v[i + 1]);
            let g = parse_hex_byte(v[i + 2], v[i + 3]);
            let b = parse_hex_byte(v[i + 4], v[i + 5]);
            match (r, g, b) {
                (Some(r), Some(g), Some(b)) => (r, g, b),
                _ => (255, 0, 0),
            }
        } else {
            (255, 0, 0)
        }
    }
}

} // verus!
