//! Properties of the configuration that hold for every input.

use vstd::prelude::*;
use crate::config::{
    entry_value,
    apply_line, apply_lines, apply_setting, color_components, color_of, crosshair_section,
    default_color, default_config, fallback_color, initial_state, parse_config, split_lines,
    strip_hashes, switch_value, switch_word, ConfigView, CrosshairType, ParseState, Setting,
};
use crate::shapes::{
    arm_parts, circle_border, circle_main, outlined, painted, shape_plan, Paint, Part, Shape,
};
use crate::text::{
    ascii_lower, is_ascii_text, is_white_space, lowercase, trim, trim_end, trim_start,
};

verus! {

proof fn lemma_no_white_space_trim(s: Seq<char>)
    requires
        s.len() > 0,
        !is_white_space(s[0]),
        !is_white_space(s.last()),
    ensures
        trim(s) == s,
{
}

/// Every type name reads back as its own type: `from_str(t.as_str()) == t`.
pub proof fn lemma_type_name_round_trip(t: CrosshairType)
    ensures
        CrosshairType::from_name(lowercase(trim(t.name()))) == t,
{
    let n = t.name();
    assert(n.len() > 0);
    assert('a' as u32 == 97 && 'z' as u32 == 122);
    lemma_no_white_space_trim(n);
    assert forall|i: int| 0 <= i < n.len() implies {
        let c = #[trigger] n[i];
        ('a' <= c <= 'z') || ('0' <= c <= '9') || c == '_'
    } by {
        match t {
            CrosshairType::Dot => {},
            CrosshairType::Cross => {},
            CrosshairType::T => {},
            CrosshairType::Circle => {},
        }
    }
    assert(lowercase(n) == n);
    assert(CrosshairType::Dot.name() != CrosshairType::T.name());
    assert(CrosshairType::Circle.name() != CrosshairType::T.name());
    assert(CrosshairType::Circle.name() != CrosshairType::Dot.name());
    assert(CrosshairType::Cross.name() != CrosshairType::Dot.name());
    assert(CrosshairType::Cross.name() != CrosshairType::T.name());
    assert(CrosshairType::Cross.name() != CrosshairType::Circle.name());
}

/// Whether `raw` is a section header that opens the `[crosshair]` section.
pub open spec fn opens_crosshair_section(raw: Seq<char>) -> bool {
    let line = trim(raw);
    &&& line.len() > 0
    &&& line[0] == '['
    &&& line.last() == ']'
    &&& lowercase(trim(line.subrange(1, line.len() - 1))) == crosshair_section()
}

/// Outside the `[crosshair]` section a line changes no setting, and it leaves
/// the reader outside that section unless it is the `[crosshair]` header.
pub proof fn lemma_line_outside_section(st: ParseState, raw: Seq<char>)
    requires
        st.section != crosshair_section(),
    ensures
        apply_line(st, raw).config == st.config,
        !opens_crosshair_section(raw) ==> apply_line(st, raw).section != crosshair_section(),
{
}

/// Lines read outside the `[crosshair]` section, none of which opens it,
/// change no setting.
pub proof fn lemma_lines_outside_section(st: ParseState, lines: Seq<Seq<char>>)
    requires
        st.section != crosshair_section(),
        forall|i: int| 0 <= i < lines.len() ==> !opens_crosshair_section(#[trigger] lines[i]),
    ensures
        apply_lines(st, lines).config == st.config,
        apply_lines(st, lines).section != crosshair_section(),
    decreases lines.len(),
{
    if lines.len() > 0 {
        let rest = lines.drop_last();
        assert forall|i: int| 0 <= i < rest.len() implies !opens_crosshair_section(
            #[trigger] rest[i],
        ) by {
            assert(rest[i] == lines[i]);
        }
        lemma_lines_outside_section(st, rest);
        lemma_line_outside_section(apply_lines(st, rest), lines.last());
    }
}

/// A file without a `[crosshair]` section gives the default settings.
pub proof fn lemma_no_crosshair_section_gives_defaults(text: Seq<char>)
    requires
        forall|i: int|
            0 <= i < split_lines(text).len() ==> !opens_crosshair_section(
                #[trigger] split_lines(text)[i],
            ),
    ensures
        parse_config(text) == default_config(),
        parse_config(text) == (ConfigView {
            crosshair_type: CrosshairType::Cross,
            size: None,
            thickness: None,
            color_hex: seq!['#', 'F', 'F', '0', '0', '0', '0'],
            dot_center: true,
            opacity: None,
            border: true,
            space_width: None,
        }),
{
    assert(initial_state().section != crosshair_section()) by {
        assert(initial_state().section.len() == 0);
    }
    lemma_lines_outside_section(initial_state(), split_lines(text));
}

/// The last entry for a setting is the one that counts: a later entry for
/// the same key replaces what an earlier one set.
pub proof fn lemma_later_entry_wins(cfg: ConfigView, key: Seq<char>, first: Seq<char>, second: Seq<char>)
    ensures
        apply_setting(apply_setting(cfg, key, first), key, second) == apply_setting(
            cfg,
            key,
            second,
        ),
{
    assert(apply_setting(apply_setting(cfg, key, first), key, second) =~= apply_setting(
        cfg,
        key,
        second,
    ));
}

/// A value that is not valid leaves its setting at the default: a type name
/// that names no type gives the default type, an on/off value that is neither
/// on nor off gives the default, and a colour code that cannot be read gives
/// the default colour.
pub proof fn lemma_invalid_values_give_defaults(value: Seq<char>)
    ensures
        (forall|t: CrosshairType| value != #[trigger] t.name()) ==> CrosshairType::from_name(value)
            == default_config().crosshair_type,
        switch_word(value) is None ==> switch_value(value, default_config().dot_center)
            == default_config().dot_center && switch_value(value, default_config().border)
            == default_config().border,
        color_components(value) is None ==> color_of(value) == color_of(default_color()),
        (forall|t: CrosshairType| value != #[trigger] t.name()) ==> CrosshairType::from_name(value)
            == CrosshairType::Cross,
        switch_word(value) is None ==> forall|cfg: ConfigView|
            #![trigger apply_setting(cfg, Setting::DotCenter.name(), value)]
            #![trigger apply_setting(cfg, Setting::Border.name(), value)]
            apply_setting(cfg, Setting::DotCenter.name(), value).dot_center && apply_setting(
                cfg,
                Setting::Border.name(),
                value,
            ).border,
        color_components(value) is None ==> color_of(value) == (255u8, 0u8, 0u8),
{
    lemma_default_color_is_fallback();
    lemma_keys_name_their_settings(Setting::DotCenter, Setting::DotCenter.name());
    lemma_keys_name_their_settings(Setting::Border, Setting::Border.name());
    if forall|t: CrosshairType| value != #[trigger] t.name() {
        assert(value != CrosshairType::Dot.name());
        assert(value != CrosshairType::T.name());
        assert(value != CrosshairType::Circle.name());
    }
}

/// The default colour code, `#FF0000`, is red, the colour that replaces a
/// code that cannot be read.
pub proof fn lemma_default_color_is_fallback()
    ensures
        color_of(default_color()) == fallback_color(),
{
    let c = default_color();
    assert(strip_hashes(c.drop_first()) == c.drop_first());
    assert(strip_hashes(c) == c.drop_first());
}

/// The leading `#` of a colour code is optional.
pub proof fn lemma_hash_prefix_optional(code: Seq<char>)
    ensures
        color_of(seq!['#'] + code) == color_of(code),
{
    let s = seq!['#'] + code;
    assert(s.drop_first() =~= code);
}

proof fn lemma_trim_start_push(s: Seq<char>, c: char)
    ensures
        trim_start(s.push(c)) == if trim_start(s).len() == 0 {
            trim_start(seq![c])
        } else {
            trim_start(s).push(c)
        },
    decreases s.len(),
{
    if s.len() == 0 {
        assert(s.push(c) =~= seq![c]);
    } else {
        assert(s.push(c).drop_first() =~= s.drop_first().push(c));
        assert(s.push(c)[0] == s[0]);
        lemma_trim_start_push(s.drop_first(), c);
    }
}

/// A carriage return at the end of a line is trimmed with the rest of the
/// white space.
proof fn lemma_trim_drops_carriage_return(l: Seq<char>)
    ensures
        trim(l.push('\r')) == trim(l),
{
    lemma_trim_start_push(l, '\r');
    let t = trim_start(l);
    if t.len() == 0 {
        assert(seq!['\r'].drop_first() =~= Seq::<char>::empty());
        assert(trim_start(seq!['\r']) == trim_start(Seq::<char>::empty()));
    } else {
        assert(t.push('\r').drop_last() =~= t);
    }
}

/// Adding a character other than `c` at the end of `s` does not move the
/// first `c`.
proof fn lemma_index_of_first_push(s: Seq<char>, c: char, x: char)
    requires
        x != c,
    ensures
        s.push(x).index_of_first(c) == s.index_of_first(c),
{
    let t = s.push(x);
    s.index_of_first_ensures(c);
    t.index_of_first_ensures(c);
    match s.index_of_first(c) {
        Some(p) => {
            assert(t[p] == c);
            let q = t.index_of_first(c)->0;
            if q < p {
                assert(t[q] == s[q]);
            }
        },
        None => {
            if t.contains(c) {
                let k = choose|k: int| 0 <= k < t.len() && t[k] == c;
                assert(s[k] == c);
            }
        },
    }
}

/// A carriage return at the end of a line changes nothing that the line does.
proof fn lemma_apply_line_ignores_carriage_return(st: ParseState, l: Seq<char>)
    ensures
        apply_line(st, l.push('\r')) == apply_line(st, l),
{
    lemma_trim_drops_carriage_return(l);
    let lr = l.push('\r');
    lemma_index_of_first_push(l, '=', '\r');
    l.index_of_first_ensures('=');
    match l.index_of_first('=') {
        Some(p) => {
            assert(lr.take(p) =~= l.take(p));
            let v = l.skip(p + 1);
            assert(lr.skip(p + 1) =~= v.push('\r'));
            lemma_index_of_first_push(v, ';', '\r');
            v.index_of_first_ensures(';');
            match v.index_of_first(';') {
                Some(q) => {
                    assert(v.push('\r').take(q) =~= v.take(q));
                },
                None => {
                    lemma_trim_drops_carriage_return(v);
                },
            }
            assert(entry_value(lr.skip(p + 1)) == entry_value(v));
        },
        None => {},
    }
}

/// `text` with every `\n` written as `\r\n`, the Windows line ending.
pub open spec fn with_crlf(text: Seq<char>) -> Seq<char>
    decreases text.len(),
{
    if text.len() == 0 {
        text
    } else if text.last() == '\n' {
        with_crlf(text.drop_last()) + seq!['\r', '\n']
    } else {
        with_crlf(text.drop_last()).push(text.last())
    }
}

proof fn lemma_split_lines_crlf(text: Seq<char>)
    ensures
        ({
            let a = split_lines(text);
            let b = split_lines(with_crlf(text));
            &&& a.len() == b.len()
            &&& a.len() >= 1
            &&& b.last() == a.last()
            &&& forall|i: int| 0 <= i < a.len() - 1 ==> #[trigger] b[i] == a[i].push('\r')
        }),
    decreases text.len(),
{
    if text.len() > 0 {
        let t0 = text.drop_last();
        lemma_split_lines_crlf(t0);
        let x = with_crlf(t0);
        let a0 = split_lines(t0);
        let b0 = split_lines(x);
        if text.last() == '\n' {
            let y = x.push('\r');
            assert(with_crlf(text) =~= y.push('\n'));
            assert(y.push('\n').drop_last() =~= y);
            assert(y.drop_last() =~= x);
            let by = split_lines(y);
            assert(by == b0.update(b0.len() - 1, b0.last().push('\r')));
            assert(split_lines(with_crlf(text)) == by.push(Seq::<char>::empty()));
            assert(split_lines(text) == a0.push(Seq::<char>::empty()));
        } else {
            let c = text.last();
            assert(with_crlf(text) == x.push(c));
            assert(x.push(c).drop_last() =~= x);
            assert(split_lines(with_crlf(text)) == b0.update(b0.len() - 1, b0.last().push(c)));
        }
    }
}

proof fn lemma_apply_lines_ignore_carriage_returns(
    st: ParseState,
    a: Seq<Seq<char>>,
    b: Seq<Seq<char>>,
)
    requires
        a.len() == b.len(),
        forall|i: int| 0 <= i < a.len() ==> #[trigger] b[i] == a[i] || b[i] == a[i].push('\r'),
    ensures
        apply_lines(st, a) == apply_lines(st, b),
    decreases a.len(),
{
    if a.len() > 0 {
        let a0 = a.drop_last();
        let b0 = b.drop_last();
        assert forall|i: int| 0 <= i < a0.len() implies #[trigger] b0[i] == a0[i] || b0[i]
            == a0[i].push('\r') by {
            assert(b0[i] == b[i] && a0[i] == a[i]);
        }
        lemma_apply_lines_ignore_carriage_returns(st, a0, b0);
        assert(b.last() == a.last() || b.last() == a.last().push('\r'));
        lemma_apply_line_ignores_carriage_return(apply_lines(st, a0), a.last());
    }
}

/// A `config.ini` written with Windows line endings (`\r\n`) gives the same
/// settings as the same file written with `\n` alone.
pub proof fn lemma_windows_line_endings(text: Seq<char>)
    ensures
        parse_config(with_crlf(text)) == parse_config(text),
{
    lemma_split_lines_crlf(text);
    let a = split_lines(text);
    let b = split_lines(with_crlf(text));
    assert forall|i: int| 0 <= i < a.len() implies #[trigger] b[i] == a[i] || b[i] == a[i].push(
        '\r',
    ) by {
        if i < a.len() - 1 {
            assert(b[i] == a[i].push('\r'));
        } else {
            assert(b[i] == a[i]);
        }
    }
    lemma_apply_lines_ignore_carriage_returns(initial_state(), a, b);
}

proof fn lemma_trim_start_shape(s: Seq<char>)
    ensures
        trim_start(s).len() <= s.len(),
        trim_start(s) == s.subrange(s.len() - trim_start(s).len(), s.len() as int),
        trim_start(s).len() > 0 ==> !is_white_space(trim_start(s)[0]),
    decreases s.len(),
{
    if s.len() > 0 && is_white_space(s[0]) {
        lemma_trim_start_shape(s.drop_first());
        let t = trim_start(s.drop_first());
        let d = s.drop_first();
        assert(t == d.subrange(d.len() - t.len(), d.len() as int));
        assert(trim_start(s) == t);
        assert(t =~= s.subrange(s.len() - t.len(), s.len() as int));
    } else {
        assert(s.subrange(0, s.len() as int) =~= s);
    }
}

proof fn lemma_trim_end_shape(s: Seq<char>)
    ensures
        trim_end(s).len() <= s.len(),
        trim_end(s) == s.subrange(0, trim_end(s).len() as int),
        trim_end(s).len() > 0 ==> !is_white_space(trim_end(s).last()),
        s.len() > 0 && !is_white_space(s[0]) ==> trim_end(s).len() > 0,
    decreases s.len(),
{
    if s.len() > 0 && is_white_space(s.last()) {
        lemma_trim_end_shape(s.drop_last());
        let t = trim_end(s.drop_last());
        assert(trim_end(s) == t);
        assert(t =~= s.subrange(0, t.len() as int));
        if s.len() > 1 {
            assert(s.drop_last()[0] == s[0]);
        }
    } else {
        assert(s.subrange(0, s.len() as int) =~= s);
    }
}

/// `trim(s)` is a piece of `s` whose first and last characters are not white
/// space.
proof fn lemma_trim_shape(s: Seq<char>)
    ensures
        exists|i: int, j: int| 0 <= i <= j <= s.len() && trim(s) == s.subrange(i, j),
        trim(s).len() > 0 ==> !is_white_space(trim(s)[0]) && !is_white_space(trim(s).last()),
{
    let a = trim_start(s);
    lemma_trim_start_shape(s);
    lemma_trim_end_shape(a);
    let i = s.len() - a.len();
    let j = i + trim_end(a).len();
    assert(trim(s) == trim_end(a));
    assert(trim(s) =~= s.subrange(i, j));
    if trim(s).len() > 0 {
        assert(trim(s)[0] == a[0]);
    }
}

proof fn lemma_ascii_lower_idempotent(c: char)
    ensures
        ascii_lower(ascii_lower(c)) == ascii_lower(c),
        is_white_space(ascii_lower(c)) == is_white_space(c),
        (ascii_lower(c) as u32) < 128 <== (c as u32) < 128,
{
    if 'A' <= c <= 'Z' {
        assert(ascii_lower(c) as u32 == c as u32 + 32);
    }
}

/// For ASCII text, surrounding white space and letter case never change the
/// crosshair type it names: the text reads as its own trimmed, lowercase form
/// does. (The Unicode lowercase mapping of other text is only named, so the
/// same is not stated of it.)
pub proof fn lemma_type_ignores_space_and_case(s: Seq<char>)
    requires
        is_ascii_text(s),
    ensures
        CrosshairType::from_name(lowercase(trim(s))) == CrosshairType::from_name(
            lowercase(trim(lowercase(trim(s)))),
        ),
{
    let t = trim(s);
    lemma_trim_shape(s);
    let (i, j) = choose|i: int, j: int| 0 <= i <= j <= s.len() && trim(s) == s.subrange(i, j);
    assert forall|k: int| 0 <= k < t.len() implies (#[trigger] t[k] as u32) < 128 by {
        assert(t[k] == s[i + k]);
    }
    let l = lowercase(t);
    assert(l == t.map_values(|c: char| ascii_lower(c)));
    assert forall|k: int| 0 <= k < l.len() implies (#[trigger] l[k] as u32) < 128 by {
        lemma_ascii_lower_idempotent(t[k]);
    }
    if l.len() > 0 {
        lemma_ascii_lower_idempotent(t[0]);
        lemma_ascii_lower_idempotent(t.last());
        assert(l.last() == ascii_lower(t.last()));
        lemma_no_white_space_trim(l);
    } else {
        assert(trim(l) =~= l);
    }
    assert(lowercase(l) =~= l) by {
        assert forall|k: int| 0 <= k < l.len() implies #[trigger] ascii_lower(l[k]) == l[k] by {
            lemma_ascii_lower_idempotent(t[k]);
        }
    }
}

proof fn lemma_split_lines_nonempty(t: Seq<char>)
    ensures
        split_lines(t).len() >= 1,
    decreases t.len(),
{
    if t.len() > 0 {
        lemma_split_lines_nonempty(t.drop_last());
    }
}

/// A text without `\n` is one line.
proof fn lemma_split_lines_one_line(l: Seq<char>)
    requires
        forall|k: int| 0 <= k < l.len() ==> #[trigger] l[k] != '\n',
    ensures
        split_lines(l) == seq![l],
    decreases l.len(),
{
    if l.len() > 0 {
        let l0 = l.drop_last();
        lemma_split_lines_one_line(l0);
        assert(l0.push(l.last()) =~= l);
        assert(seq![l0].update(0, l0.push(l.last())) =~= seq![l]);
    } else {
        assert(l =~= Seq::<char>::empty());
    }
}

/// The lines of two texts joined by `\n` are the lines of the first followed
/// by the lines of the second.
proof fn lemma_split_lines_join(a: Seq<char>, b: Seq<char>)
    ensures
        split_lines(a + seq!['\n'] + b) == split_lines(a) + split_lines(b),
    decreases b.len(),
{
    let t = a + seq!['\n'] + b;
    lemma_split_lines_nonempty(a);
    if b.len() == 0 {
        assert(t.drop_last() =~= a);
        assert(split_lines(b) =~= seq![Seq::<char>::empty()]);
        assert(split_lines(a).push(Seq::<char>::empty()) =~= split_lines(a) + split_lines(b));
    } else {
        let b0 = b.drop_last();
        let x = b.last();
        lemma_split_lines_join(a, b0);
        lemma_split_lines_nonempty(b0);
        assert(t.drop_last() =~= a + seq!['\n'] + b0);
        assert(t.last() == x);
        let sa = split_lines(a);
        let sb0 = split_lines(b0);
        if x == '\n' {
            assert((sa + sb0).push(Seq::<char>::empty()) =~= sa + sb0.push(Seq::<char>::empty()));
        } else {
            let u = sa + sb0;
            assert(u.update(u.len() - 1, u.last().push(x)) =~= sa + sb0.update(
                sb0.len() - 1,
                sb0.last().push(x),
            ));
        }
    }
}

/// Reading lines `a` then lines `b` is reading `a + b`.
proof fn lemma_apply_lines_join(st: ParseState, a: Seq<Seq<char>>, b: Seq<Seq<char>>)
    ensures
        apply_lines(st, a + b) == apply_lines(apply_lines(st, a), b),
    decreases b.len(),
{
    if b.len() == 0 {
        assert(a + b =~= a);
    } else {
        lemma_apply_lines_join(st, a, b.drop_last());
        assert((a + b).drop_last() =~= a + b.drop_last());
        assert((a + b).last() == b.last());
    }
}

/// The header line `[crosshair]`.
pub open spec fn crosshair_header() -> Seq<char> {
    seq!['[', 'c', 'r', 'o', 's', 's', 'h', 'a', 'i', 'r', ']']
}

proof fn lemma_header_opens_section(st: ParseState)
    ensures
        apply_line(st, crosshair_header()) == (ParseState {
            section: crosshair_section(),
            config: st.config,
        }),
{
    let h = crosshair_header();
    lemma_no_white_space_trim(h);
    let inner = h.subrange(1, h.len() - 1);
    assert(inner =~= crosshair_section());
    lemma_no_white_space_trim(inner);
    assert(is_ascii_text(inner));
    assert(inner.map_values(|c: char| ascii_lower(c)) =~= inner);
}

proof fn lemma_trim_start_join(a: Seq<char>, b: Seq<char>)
    ensures
        trim_start(a + b) == if trim_start(a).len() > 0 {
            trim_start(a) + b
        } else {
            trim_start(b)
        },
    decreases a.len(),
{
    if a.len() == 0 {
        assert(a + b =~= b);
    } else {
        assert((a + b)[0] == a[0]);
        if is_white_space(a[0]) {
            assert((a + b).drop_first() =~= a.drop_first() + b);
            lemma_trim_start_join(a.drop_first(), b);
        }
    }
}

/// Whether `key = value` is an entry line: no line break in it, no `=` in the
/// key, and a key that does not start like a comment or a section header.
pub open spec fn is_entry_line(key: Seq<char>, value: Seq<char>) -> bool {
    &&& forall|k: int| 0 <= k < key.len() ==> #[trigger] key[k] != '\n' && key[k] != '='
    &&& forall|k: int| 0 <= k < value.len() ==> #[trigger] value[k] != '\n'
    &&& trim(key).len() > 0 ==> trim(key)[0] != ';' && trim(key)[0] != '#' && trim(key)[0]
        != '['
}

proof fn lemma_entry_line(st: ParseState, key: Seq<char>, value: Seq<char>)
    requires
        is_entry_line(key, value),
        st.section == crosshair_section(),
    ensures
        apply_line(st, key + seq!['='] + value).config == apply_setting(
            st.config,
            lowercase(trim(key)),
            entry_value(value),
        ),
{
    let l = key + seq!['='] + value;
    let ts = trim_start(key);
    lemma_trim_start_join(key, seq!['='] + value);
    assert(l =~= key + (seq!['='] + value));
    lemma_trim_start_shape(key);
    lemma_trim_end_shape(ts);
    let first = trim_start(l);
    if ts.len() > 0 {
        assert(first[0] == ts[0]);
        assert(trim(key)[0] == ts[0]);
    } else {
        lemma_trim_start_join(seq!['='], value);
        assert(trim_start(seq!['=']) =~= seq!['=']);
        assert(first[0] == '=');
    }
    lemma_trim_end_shape(first);
    assert(trim(l)[0] == first[0]);
    l.index_of_first_ensures('=');
    assert(l[key.len() as int] == '=');
    let p = l.index_of_first('=')->0;
    if p < key.len() {
        assert(l[p] == key[p]);
    }
    if p > key.len() {
        assert(l[key.len() as int] != '=');
    }
    assert(l.take(key.len() as int) =~= key);
    assert(l.skip(key.len() + 1int) =~= value);
}

/// Appending a `[crosshair]` section with one entry to a `config.ini` applies
/// that entry to the settings the file gave before: the setting it names gets
/// the new value and nothing else changes.
pub proof fn lemma_appended_entry(text: Seq<char>, key: Seq<char>, value: Seq<char>)
    requires
        is_entry_line(key, value),
    ensures
        parse_config(
            text + seq!['\n'] + crosshair_header() + seq!['\n'] + (key + seq!['='] + value)
                + seq!['\n'],
        ) == apply_setting(parse_config(text), lowercase(trim(key)), entry_value(value)),
{
    let h = crosshair_header();
    let l = key + seq!['='] + value;
    let empty = Seq::<char>::empty();
    let full = text + seq!['\n'] + h + seq!['\n'] + l + seq!['\n'];
    let tail = l + seq!['\n'] + empty;
    let rest = h + seq!['\n'] + tail;
    assert(full =~= text + seq!['\n'] + rest);
    lemma_split_lines_join(text, rest);
    lemma_split_lines_join(h, tail);
    lemma_split_lines_join(l, empty);
    assert forall|k: int| 0 <= k < h.len() implies #[trigger] h[k] != '\n' by {}
    lemma_split_lines_one_line(h);
    assert forall|k: int| 0 <= k < l.len() implies #[trigger] l[k] != '\n' by {
        if k < key.len() {
            assert(l[k] == key[k]);
        } else if k > key.len() {
            assert(l[k] == value[k - key.len() - 1]);
        }
    }
    lemma_split_lines_one_line(l);
    assert(split_lines(empty) == seq![empty]);
    let sa = split_lines(text);
    assert(split_lines(full) =~= sa + seq![h, l, empty]);
    lemma_apply_lines_join(initial_state(), sa, seq![h, l, empty]);
    let st = apply_lines(initial_state(), sa);
    lemma_header_opens_section(st);
    let st1 = apply_line(st, h);
    lemma_entry_line(st1, key, value);
    let st2 = apply_line(st1, l);
    assert(seq![h, l, empty].drop_last() =~= seq![h, l]);
    assert(seq![h, l].drop_last() =~= seq![h]);
    assert(seq![h].drop_last() =~= Seq::<Seq<char>>::empty());
    assert(apply_lines(st, Seq::<Seq<char>>::empty()) == st);
    assert(seq![h].last() == h);
    assert(seq![h, l].last() == l);
    assert(seq![h, l, empty].last() == empty);
    assert(apply_lines(st, seq![h]) == st1);
    assert(apply_lines(st, seq![h, l]) == st2);
    assert(trim(empty) =~= empty);
    assert(apply_lines(st, seq![h, l, empty]) == st2);
}

proof fn lemma_plan_layers(
    ctype: CrosshairType,
    dot_center: bool,
    border: bool,
    border_paint: bool,
) -> (k: int)
    ensures
        ({
            let plan = shape_plan(ctype, dot_center, border, border_paint);
            &&& 0 <= k < plan.len()
            &&& forall|i: int| 0 <= i < k ==> (#[trigger] plan[i]).paint == Paint::Border
            &&& forall|i: int| k <= i < plan.len() ==> (#[trigger] plan[i]).paint == Paint::Main
            &&& (k > 0 ==> border_paint)
        }),
{
    let plan = shape_plan(ctype, dot_center, border, border_paint);
    let (under, main) = match ctype {
        CrosshairType::Dot => (
            if border && border_paint {
                seq![Part::Disc]
            } else {
                Seq::empty()
            },
            seq![Part::Disc],
        ),
        CrosshairType::Cross => (
            if border && border_paint {
                arm_parts(false, dot_center)
            } else {
                Seq::empty()
            },
            arm_parts(false, dot_center),
        ),
        CrosshairType::T => (
            if border && border_paint {
                arm_parts(true, dot_center)
            } else {
                Seq::empty()
            },
            arm_parts(true, dot_center),
        ),
        CrosshairType::Circle => (
            if border_paint {
                circle_border(dot_center, border)
            } else {
                Seq::empty()
            },
            circle_main(dot_center, border),
        ),
    };
    assert(plan =~= painted(Paint::Border, under) + painted(Paint::Main, main));
    under.len() as int
}

/// The border is painted underneath: once a shape in the main paint has been
/// painted, every later shape is in the main paint too.
pub proof fn lemma_border_underneath(
    ctype: CrosshairType,
    dot_center: bool,
    border: bool,
    border_paint: bool,
    i: int,
    j: int,
)
    requires
        0 <= i < j < shape_plan(ctype, dot_center, border, border_paint).len(),
        shape_plan(ctype, dot_center, border, border_paint)[i].paint == Paint::Main,
    ensures
        shape_plan(ctype, dot_center, border, border_paint)[j].paint == Paint::Main,
{
    let k: int = lemma_plan_layers(ctype, dot_center, border, border_paint);
    let plan = shape_plan(ctype, dot_center, border, border_paint);
    assert(plan[i].paint == Paint::Main);
}

/// Nothing is painted in the border paint when there is no border paint, and
/// every crosshair ends with at least one shape in the main paint.
pub proof fn lemma_border_paint_needed(
    ctype: CrosshairType,
    dot_center: bool,
    border: bool,
    border_paint: bool,
)
    ensures
        ({
            let plan = shape_plan(ctype, dot_center, border, border_paint);
            &&& plan.len() > 0
            &&& plan.last().paint == Paint::Main
            &&& !border_paint ==> forall|i: int|
                0 <= i < plan.len() ==> (#[trigger] plan[i]).paint == Paint::Main
        }),
{
    let k: int = lemma_plan_layers(ctype, dot_center, border, border_paint);
}

/// The border of a dot, cross or T traces the crosshair: when it is shown,
/// the plan is every part in the border paint, then the same parts in the
/// same order in the main paint.
pub proof fn lemma_border_traces_shape(ctype: CrosshairType, dot_center: bool)
    requires
        ctype != CrosshairType::Circle,
    ensures
        ({
            let plan = shape_plan(ctype, dot_center, true, true);
            let n: nat = plan.len() / 2;
            &&& plan.len() == 2 * n
            &&& forall|i: int|
                0 <= i < n ==> (#[trigger] plan[i]).paint == Paint::Border && plan[i + n]
                    == (Shape { paint: Paint::Main, part: plan[i].part })
        }),
{
}

/// Whether the centre of the crosshair shows a dot in the main paint.
pub open spec fn shows_center_dot(plan: Seq<Shape>) -> bool {
    exists|i: int|
        0 <= i < plan.len() && (#[trigger] plan[i]).paint == Paint::Main && (plan[i].part
            == Part::CenterDot || plan[i].part == Part::InnerDot)
}

/// A cross, T or circle shows a centre dot exactly when `dot_center` is set;
/// a dot crosshair is a dot of its own and shows no separate centre dot.
pub proof fn lemma_center_dot_setting(
    ctype: CrosshairType,
    dot_center: bool,
    border: bool,
    border_paint: bool,
)
    ensures
        shows_center_dot(shape_plan(ctype, dot_center, border, border_paint)) == (dot_center
            && ctype != CrosshairType::Dot),
{
    let plan = shape_plan(ctype, dot_center, border, border_paint);
    let k: int = lemma_plan_layers(ctype, dot_center, border, border_paint);
    if dot_center && ctype != CrosshairType::Dot {
        let w: int = plan.len() - 1;
        if ctype == CrosshairType::Circle && border {
            assert(plan[w].part == Part::InnerDot);
        } else {
            assert(plan[w].part == Part::CenterDot);
        }
        assert(plan[w].paint == Paint::Main);
    } else {
        assert forall|i: int| 0 <= i < plan.len() && (#[trigger] plan[i]).paint == Paint::Main
            implies plan[i].part != Part::CenterDot && plan[i].part != Part::InnerDot by {
        }
    }
}

/// A T is a cross whose top arm is a stub: its plan is the cross's plan
/// with the top arm, in whichever paint, replaced by the stub. So a T never
/// has a full top arm and always shows the stub in the main paint, and a
/// cross never has a stub.
pub proof fn lemma_t_is_cross_with_stub(dot_center: bool, border: bool, border_paint: bool)
    ensures
        ({
            let t = shape_plan(CrosshairType::T, dot_center, border, border_paint);
            let c = shape_plan(CrosshairType::Cross, dot_center, border, border_paint);
            &&& t.len() == c.len()
            &&& forall|i: int|
                0 <= i < c.len() ==> #[trigger] t[i] == if c[i].part == Part::TopArm {
                    Shape { paint: c[i].paint, part: Part::TopStub }
                } else {
                    c[i]
                }
            &&& forall|i: int| 0 <= i < t.len() ==> (#[trigger] t[i]).part != Part::TopArm
            &&& forall|i: int| 0 <= i < c.len() ==> (#[trigger] c[i]).part != Part::TopStub
            &&& exists|i: int|
                0 <= i < t.len() && #[trigger] t[i] == (Shape {
                    paint: Paint::Main,
                    part: Part::TopStub,
                })
            &&& exists|i: int|
                0 <= i < c.len() && #[trigger] c[i] == (Shape {
                    paint: Paint::Main,
                    part: Part::TopArm,
                })
        }),
{
    let t = shape_plan(CrosshairType::T, dot_center, border, border_paint);
    let c = shape_plan(CrosshairType::Cross, dot_center, border, border_paint);
    let k: int = if border && border_paint {
        arm_parts(false, dot_center).len() as int
    } else {
        0
    };
    assert(t[k + 2] == Shape { paint: Paint::Main, part: Part::TopStub });
    assert(c[k + 2] == Shape { paint: Paint::Main, part: Part::TopArm });
}

/// Each arm of a cross or T is painted exactly once in the main paint (and
/// once in the border paint when the border shows), and nothing but the arms
/// and the centre dot is painted.
pub proof fn lemma_arms_painted_once(
    ctype: CrosshairType,
    dot_center: bool,
    border: bool,
    border_paint: bool,
    part: Part,
    paint: Paint,
)
    requires
        ctype == CrosshairType::Cross || ctype == CrosshairType::T,
    ensures
        ({
            let plan = shape_plan(ctype, dot_center, border, border_paint);
            let top = if ctype == CrosshairType::T {
                Part::TopStub
            } else {
                Part::TopArm
            };
            let is_arm = part == Part::LeftArm || part == Part::RightArm || part == top || part
                == Part::BottomArm;
            let shown = paint == Paint::Main || (border && border_paint);
            let expected = shown && (is_arm || (part == Part::CenterDot && dot_center));
            &&& expected ==> exists|i: int|
                0 <= i < plan.len() && #[trigger] plan[i] == (Shape { paint, part })
            &&& !expected ==> forall|i: int|
                0 <= i < plan.len() ==> #[trigger] plan[i] != (Shape { paint, part })
            &&& forall|i: int, j: int|
                0 <= i < j < plan.len() ==> #[trigger] plan[i] != #[trigger] plan[j]
        }),
{
    let plan = shape_plan(ctype, dot_center, border, border_paint);
    let a = arm_parts(ctype == CrosshairType::T, dot_center);
    let k: int = if border && border_paint {
        a.len() as int
    } else {
        0
    };
    assert(ctype == CrosshairType::T ==> plan =~= outlined(a, border && border_paint));
    assert(ctype == CrosshairType::Cross ==> plan =~= outlined(a, border && border_paint));
    let idx: int = if part == Part::LeftArm {
        0
    } else if part == Part::RightArm {
        1
    } else if part == Part::BottomArm {
        3
    } else if part == Part::CenterDot {
        4
    } else {
        2
    };
    let off: int = if paint == Paint::Main {
        k
    } else {
        0
    };
    let top = if ctype == CrosshairType::T {
        Part::TopStub
    } else {
        Part::TopArm
    };
    let is_arm = part == Part::LeftArm || part == Part::RightArm || part == top || part
        == Part::BottomArm;
    let shown = paint == Paint::Main || (border && border_paint);
    if shown && (is_arm || (part == Part::CenterDot && dot_center)) {
        assert(plan[off + idx] == Shape { paint, part });
    }
}

/// In outline mode (the border setting) a circle is a ring: its border, when
/// there is a border paint, starts with a ring, its main shape is a ring, and
/// no disc is painted. Out of outline mode no ring is painted.
pub proof fn lemma_circle_outline_is_ring(dot_center: bool, border: bool, border_paint: bool)
    ensures
        ({
            let plan = shape_plan(CrosshairType::Circle, dot_center, border, border_paint);
            &&& border && border_paint ==> plan[0] == (Shape { paint: Paint::Border, part: Part::Ring })
            &&& border ==> exists|i: int|
                0 <= i < plan.len() && #[trigger] plan[i] == (Shape {
                    paint: Paint::Main,
                    part: Part::Ring,
                })
            &&& border ==> forall|i: int| 0 <= i < plan.len() ==> (#[trigger] plan[i]).part != Part::Disc
            &&& !border ==> forall|i: int| 0 <= i < plan.len() ==> (#[trigger] plan[i]).part != Part::Ring
        }),
{
    let plan = shape_plan(CrosshairType::Circle, dot_center, border, border_paint);
    let k: int = if border_paint {
        circle_border(dot_center, border).len() as int
    } else {
        0
    };
    if border {
        assert(plan[k] == Shape { paint: Paint::Main, part: Part::Ring });
    }
}

/// The main shapes of a circle: a ring exactly in outline mode, a disc exactly
/// when neither outline nor centre dot is set, the plain centre dot exactly
/// when the centre dot is set out of outline mode, and the shrunk inner dot
/// exactly when both are set.
pub proof fn lemma_circle_main_shapes(dot_center: bool, border: bool, border_paint: bool, part: Part)
    ensures
        ({
            let plan = shape_plan(CrosshairType::Circle, dot_center, border, border_paint);
            let expected = (part == Part::Ring && border) || (part == Part::Disc && !border
                && !dot_center) || (part == Part::CenterDot && !border && dot_center) || (part
                == Part::InnerDot && border && dot_center);
            (exists|i: int|
                0 <= i < plan.len() && #[trigger] plan[i] == (Shape { paint: Paint::Main, part }))
                == expected
        }),
{
    let plan = shape_plan(CrosshairType::Circle, dot_center, border, border_paint);
    let k: int = if border_paint {
        circle_border(dot_center, border).len() as int
    } else {
        0
    };
    let expected = (part == Part::Ring && border) || (part == Part::Disc && !border
        && !dot_center) || (part == Part::CenterDot && !border && dot_center) || (part
        == Part::InnerDot && border && dot_center);
    if expected {
        if part == Part::InnerDot {
            assert(plan[k + 1] == Shape { paint: Paint::Main, part });
        } else {
            assert(plan[k] == Shape { paint: Paint::Main, part });
        }
    } else {
        assert forall|i: int| 0 <= i < plan.len() implies #[trigger] plan[i] != (Shape {
            paint: Paint::Main,
            part,
        }) by {
            if i >= k {
                assert(plan[i] == Shape { paint: Paint::Main, part: circle_main(dot_center, border)[i - k] });
            }
        }
    }
}

/// A dot crosshair is one disc, outlined by a border disc when the border
/// shows.
pub proof fn lemma_dot_is_a_disc(dot_center: bool, border: bool, border_paint: bool)
    ensures
        ({
            let plan = shape_plan(CrosshairType::Dot, dot_center, border, border_paint);
            &&& forall|i: int| 0 <= i < plan.len() ==> (#[trigger] plan[i]).part == Part::Disc
            &&& plan.last() == (Shape { paint: Paint::Main, part: Part::Disc })
            &&& plan.len() == if border && border_paint { 2int } else { 1int }
        }),
{
}

/// Each key names its own setting, and no other key names it.
pub proof fn lemma_keys_name_their_settings(setting: Setting, key: Seq<char>)
    ensures
        Setting::named(setting.name()) == Some(setting),
        Setting::named(key) == Some(setting) ==> key == setting.name(),
{
    assert(Setting::Type.name() != Setting::Size.name());
    assert(Setting::Type.name() != Setting::Thickness.name());
    assert(Setting::Type.name() != Setting::Color.name());
    assert(Setting::Type.name() != Setting::DotCenter.name());
    assert(Setting::Type.name() != Setting::Opacity.name());
    assert(Setting::Type.name() != Setting::Border.name());
    assert(Setting::Type.name() != Setting::SpaceWidth.name());
    assert(Setting::Size.name() != Setting::Thickness.name());
    assert(Setting::Size.name() != Setting::Color.name());
    assert(Setting::Size.name() != Setting::DotCenter.name());
    assert(Setting::Size.name() != Setting::Opacity.name());
    assert(Setting::Size.name() != Setting::Border.name());
    assert(Setting::Size.name() != Setting::SpaceWidth.name());
    assert(Setting::Thickness.name() != Setting::Color.name());
    assert(Setting::Thickness.name() != Setting::DotCenter.name());
    assert(Setting::Thickness.name() != Setting::Opacity.name());
    assert(Setting::Thickness.name() != Setting::Border.name());
    assert(Setting::Thickness.name() != Setting::SpaceWidth.name());
    assert(Setting::Color.name() != Setting::DotCenter.name());
    assert(Setting::Color.name() != Setting::Opacity.name());
    assert(Setting::Color.name() != Setting::Border.name());
    assert(Setting::Color.name() != Setting::SpaceWidth.name());
    assert(Setting::DotCenter.name() != Setting::Opacity.name());
    assert(Setting::DotCenter.name() != Setting::Border.name());
    assert(Setting::DotCenter.name() != Setting::SpaceWidth.name());
    assert(Setting::Opacity.name() != Setting::Border.name());
    assert(Setting::Opacity.name() != Setting::SpaceWidth.name());
    assert(Setting::Border.name() != Setting::SpaceWidth.name());
}

/// An entry changes only the setting its key names: every other setting
/// keeps its value, and an entry whose key names no setting changes nothing.
/// The text settings take the entry's value as it is.
pub proof fn lemma_entry_changes_only_its_setting(cfg: ConfigView, key: Seq<char>, value: Seq<char>)
    ensures
        ({
            let r = apply_setting(cfg, key, value);
            let s = Setting::named(key);
            &&& s != Some(Setting::Type) ==> r.crosshair_type == cfg.crosshair_type
            &&& s != Some(Setting::Size) ==> r.size == cfg.size
            &&& s != Some(Setting::Thickness) ==> r.thickness == cfg.thickness
            &&& s != Some(Setting::Color) ==> r.color_hex == cfg.color_hex
            &&& s != Some(Setting::DotCenter) ==> r.dot_center == cfg.dot_center
            &&& s != Some(Setting::Opacity) ==> r.opacity == cfg.opacity
            &&& s != Some(Setting::Border) ==> r.border == cfg.border
            &&& s != Some(Setting::SpaceWidth) ==> r.space_width == cfg.space_width
            &&& s is None ==> r == cfg
            &&& s == Some(Setting::Size) ==> r.size == Some(value)
            &&& s == Some(Setting::Thickness) ==> r.thickness == Some(value)
            &&& s == Some(Setting::Color) ==> r.color_hex == value
            &&& s == Some(Setting::Opacity) ==> r.opacity == Some(value)
            &&& s == Some(Setting::SpaceWidth) ==> r.space_width == Some(value)
        }),
{
}

/// The type entry takes the type its value names: a value that is a type's
/// name gives that type.
pub proof fn lemma_type_entry_sets_named_type(cfg: ConfigView, t: CrosshairType)
    ensures
        apply_setting(cfg, Setting::Type.name(), t.name()).crosshair_type == t,
{
    lemma_keys_name_their_settings(Setting::Type, Setting::Type.name());
    lemma_type_name_round_trip(t);
}

/// The on/off entries read `1` and `true` in any letter case as on, `0` and
/// `false` in any letter case as off, whatever the setting held before.
pub proof fn lemma_switch_words(cfg: ConfigView, on: bool, word: Seq<char>)
    requires
        word == seq!['1'] || word == seq!['0'] || (word.len() == 4 && (word[0] == 't' || word[0]
            == 'T') && (word[1] == 'r' || word[1] == 'R') && (word[2] == 'u' || word[2] == 'U') && (
        word[3] == 'e' || word[3] == 'E')) || (word.len() == 5 && (word[0] == 'f' || word[0]
            == 'F') && (word[1] == 'a' || word[1] == 'A') && (word[2] == 'l' || word[2] == 'L') && (
        word[3] == 's' || word[3] == 'S') && (word[4] == 'e' || word[4] == 'E')),
    ensures
        ({
            let is_on = word == seq!['1'] || word.len() == 4;
            &&& apply_setting(cfg, Setting::DotCenter.name(), word).dot_center == is_on
            &&& apply_setting(cfg, Setting::Border.name(), word).border == is_on
        }),
{
    lemma_keys_name_their_settings(Setting::DotCenter, Setting::DotCenter.name());
    lemma_keys_name_their_settings(Setting::Border, Setting::Border.name());
    assert(seq!['1'] != seq!['0']);
    if word.len() == 4 {
        assert(word != seq!['1']);
        assert(crate::text::eq_ignore_ascii_case(word, seq!['t', 'r', 'u', 'e']));
    } else if word.len() == 5 {
        assert(word != seq!['1'] && word != seq!['0']);
        assert(!crate::text::eq_ignore_ascii_case(word, seq!['t', 'r', 'u', 'e']));
        assert(crate::text::eq_ignore_ascii_case(word, seq!['f', 'a', 'l', 's', 'e']));
    } else if word == seq!['0'] {
        assert(!crate::text::eq_ignore_ascii_case(word, seq!['t', 'r', 'u', 'e']));
        assert(!crate::text::eq_ignore_ascii_case(word, seq!['f', 'a', 'l', 's', 'e']));
    }
}

/// The hexadecimal digit for `n` (below 16), a capital letter when `upper`.
pub open spec fn hex_char(n: int, upper: bool) -> char {
    if n < 10 {
        ('0' as int + n) as char
    } else if upper {
        ('A' as int + n - 10) as char
    } else {
        ('a' as int + n - 10) as char
    }
}

/// The two hexadecimal digits of the byte `x`, each in the case `cases` gives.
pub open spec fn hex_pair(x: u8, upper_high: bool, upper_low: bool) -> Seq<char> {
    seq![hex_char(x as int / 16, upper_high), hex_char(x as int % 16, upper_low)]
}

/// `k` hash signs.
pub open spec fn hashes(k: nat) -> Seq<char> {
    Seq::new(k, |i: int| '#')
}

proof fn lemma_hex_char_value(n: int, upper: bool)
    requires
        0 <= n < 16,
    ensures
        crate::config::hex_digit_value(hex_char(n, upper)) == Some(n as u8),
        hex_char(n, upper) != '#',
{
}

proof fn lemma_strip_hashes_prefix(k: nat, rest: Seq<char>)
    requires
        rest.len() > 0 ==> rest[0] != '#',
    ensures
        strip_hashes(hashes(k) + rest) == rest,
    decreases k,
{
    let s = hashes(k) + rest;
    if k == 0 {
        assert(s =~= rest);
    } else {
        assert(s[0] == '#');
        assert(s.drop_first() =~= hashes((k - 1) as nat) + rest);
        lemma_strip_hashes_prefix((k - 1) as nat, rest);
    }
}

/// A colour written as any number of `#`s and two hexadecimal digits for
/// each of red, green and blue (in either letter case) reads back as that
/// colour, whatever follows the sixth digit.
pub proof fn lemma_hex_color_reads_back(
    k: nat,
    r: u8,
    g: u8,
    b: u8,
    cases: Seq<bool>,
    tail: Seq<char>,
)
    requires
        cases.len() == 6,
    ensures
        color_of(
            hashes(k) + hex_pair(r, cases[0], cases[1]) + hex_pair(g, cases[2], cases[3])
                + hex_pair(b, cases[4], cases[5]) + tail,
        ) == (r, g, b),
{
    let h = hex_pair(r, cases[0], cases[1]) + hex_pair(g, cases[2], cases[3]) + hex_pair(
        b,
        cases[4],
        cases[5],
    ) + tail;
    lemma_hex_char_value(r as int / 16, cases[0]);
    lemma_hex_char_value(r as int % 16, cases[1]);
    lemma_hex_char_value(g as int / 16, cases[2]);
    lemma_hex_char_value(g as int % 16, cases[3]);
    lemma_hex_char_value(b as int / 16, cases[4]);
    lemma_hex_char_value(b as int % 16, cases[5]);
    assert(h[0] == hex_char(r as int / 16, cases[0]));
    lemma_strip_hashes_prefix(k, h);
    assert(hashes(k) + hex_pair(r, cases[0], cases[1]) + hex_pair(g, cases[2], cases[3])
        + hex_pair(b, cases[4], cases[5]) + tail =~= hashes(k) + h);
    assert(h[1] == hex_char(r as int % 16, cases[1]));
    assert(h[2] == hex_char(g as int / 16, cases[2]));
    assert(h[3] == hex_char(g as int % 16, cases[3]));
    assert(h[4] == hex_char(b as int / 16, cases[4]));
    assert(h[5] == hex_char(b as int % 16, cases[5]));
    assert(16 * (r as int / 16) + r as int % 16 == r);
    assert(16 * (g as int / 16) + g as int % 16 == g);
    assert(16 * (b as int / 16) + b as int % 16 == b);
}

/// Whether `c` is a hexadecimal digit.
pub open spec fn is_hex_char(c: char) -> bool {
    ('0' <= c <= '9') || ('a' <= c <= 'f') || ('A' <= c <= 'F')
}

/// A colour code that does not start, after its `#`s, with six hexadecimal
/// digits is not valid and gives red.
pub proof fn lemma_bad_color_is_red(s: Seq<char>)
    ensures
        ({
            let h = strip_hashes(s);
            (h.len() < 6 || exists|i: int| 0 <= i < 6 && !is_hex_char(#[trigger] h[i]))
                ==> color_of(s) == (255u8, 0u8, 0u8)
        }),
{
    let h = strip_hashes(s);
    if h.len() >= 6 && exists|i: int| 0 <= i < 6 && !is_hex_char(#[trigger] h[i]) {
        let i = choose|i: int| 0 <= i < 6 && !is_hex_char(#[trigger] h[i]);
        assert(crate::config::hex_digit_value(h[i]) is None);
    }
}

/// The ASCII white space characters are tab, line feed, vertical tab, form
/// feed, carriage return and space; no other ASCII character is white space.
pub proof fn lemma_ascii_white_space(c: char)
    requires
        (c as u32) < 128,
    ensures
        is_white_space(c) <==> (c == '\t' || c == '\n' || c == '\r' || c == ' ' || c as u32 == 0x0B
            || c as u32 == 0x0C),
{
}

/// Trimming removes white space at both ends and nothing else: the result is
/// a piece of the text, everything before and after it is white space, and it
/// neither starts nor ends with white space.
pub proof fn lemma_trim_removes_only_white_space(s: Seq<char>)
    ensures
        exists|i: int, j: int|
            0 <= i <= j <= s.len() && trim(s) == s.subrange(i, j) && (forall|k: int|
                0 <= k < i ==> is_white_space(#[trigger] s[k])) && (forall|k: int|
                j <= k < s.len() ==> is_white_space(#[trigger] s[k])),
        trim(s).len() > 0 ==> !is_white_space(trim(s)[0]) && !is_white_space(trim(s).last()),
{
    let a = trim_start(s);
    lemma_trim_start_shape(s);
    lemma_trim_end_shape(a);
    lemma_trim_shape(s);
    lemma_trim_start_prefix_white(s);
    lemma_trim_end_suffix_white(a);
    let i = s.len() - a.len();
    let j = i + trim_end(a).len();
    assert(trim(s) =~= s.subrange(i, j));
    assert forall|k: int| j <= k < s.len() implies is_white_space(#[trigger] s[k]) by {
        assert(s[k] == a[k - i]);
    }
}

proof fn lemma_trim_start_prefix_white(s: Seq<char>)
    ensures
        forall|k: int| 0 <= k < s.len() - trim_start(s).len() ==> is_white_space(#[trigger] s[k]),
    decreases s.len(),
{
    if s.len() > 0 && is_white_space(s[0]) {
        lemma_trim_start_prefix_white(s.drop_first());
        lemma_trim_start_shape(s.drop_first());
        assert forall|k: int| 0 <= k < s.len() - trim_start(s).len() implies is_white_space(
            #[trigger] s[k],
        ) by {
            if k > 0 {
                assert(s[k] == s.drop_first()[k - 1]);
            }
        }
    }
}

proof fn lemma_trim_end_suffix_white(s: Seq<char>)
    ensures
        forall|k: int| trim_end(s).len() <= k < s.len() ==> is_white_space(#[trigger] s[k]),
    decreases s.len(),
{
    if s.len() > 0 && is_white_space(s.last()) {
        lemma_trim_end_suffix_white(s.drop_last());
        lemma_trim_end_shape(s.drop_last());
        assert forall|k: int| trim_end(s).len() <= k < s.len() implies is_white_space(
            #[trigger] s[k],
        ) by {
            if k < s.len() - 1 {
                assert(s[k] == s.drop_last()[k]);
            }
        }
    }
}

/// Lowercasing ASCII text keeps its length, leaves no capital letter, and
/// changes each character only in its case.
pub proof fn lemma_ascii_lowercase(s: Seq<char>)
    requires
        is_ascii_text(s),
    ensures
        lowercase(s).len() == s.len(),
        forall|i: int| 0 <= i < s.len() ==> !('A' <= #[trigger] lowercase(s)[i] <= 'Z'),
        crate::text::eq_ignore_ascii_case(lowercase(s), s),
{
    assert forall|i: int| 0 <= i < s.len() implies !('A' <= #[trigger] lowercase(s)[i] <= 'Z')
        && crate::text::ascii_fold(lowercase(s)[i]) == crate::text::ascii_fold(s[i]) by {
        lemma_ascii_lower_idempotent(s[i]);
    }
}

/// A line whose trimmed text is empty or starts with `;` or `#` is a comment
/// and changes nothing.
pub proof fn lemma_comment_lines_change_nothing(st: ParseState, raw: Seq<char>)
    requires
        trim(raw).len() == 0 || trim(raw)[0] == ';' || trim(raw)[0] == '#',
    ensures
        apply_line(st, raw) == st,
{
}

/// A `;` after a value starts a comment: the value is the trimmed text before
/// the first `;`, whatever follows it.
pub proof fn lemma_value_comment_cut(v: Seq<char>, comment: Seq<char>)
    requires
        forall|k: int| 0 <= k < v.len() ==> #[trigger] v[k] != ';',
    ensures
        entry_value(v + seq![';'] + comment) == trim(v),
        entry_value(v) == trim(v),
{
    let s = v + seq![';'] + comment;
    s.index_of_first_ensures(';');
    v.index_of_first_ensures(';');
    assert(s[v.len() as int] == ';');
    let q = s.index_of_first(';')->0;
    if q < v.len() {
        assert(s[q] == v[q]);
    }
    if q > v.len() {
        assert(s[v.len() as int] != ';');
    }
    assert(s.take(v.len() as int) =~= v);
}

/// A circle's border, when there is a border paint, is painted first: a ring
/// in outline mode, else the centre dot when it is set, else a disc; and the
/// centre dot is outlined exactly when it is set.
pub proof fn lemma_circle_border(dot_center: bool, border: bool)
    ensures
        ({
            let plan = shape_plan(CrosshairType::Circle, dot_center, border, true);
            &&& plan[0] == (Shape {
                paint: Paint::Border,
                part: if border {
                    Part::Ring
                } else if dot_center {
                    Part::CenterDot
                } else {
                    Part::Disc
                },
            })
            &&& (exists|i: int|
                0 <= i < plan.len() && #[trigger] plan[i] == (Shape {
                    paint: Paint::Border,
                    part: Part::CenterDot,
                })) == dot_center
        }),
{
    let plan = shape_plan(CrosshairType::Circle, dot_center, true && border, true);
    if dot_center {
        assert(plan[1] == Shape { paint: Paint::Border, part: Part::CenterDot });
    } else {
        assert forall|i: int| 0 <= i < plan.len() implies #[trigger] plan[i] != (Shape {
            paint: Paint::Border,
            part: Part::CenterDot,
        }) by {
            if i >= 1 {
                assert(plan[i].paint == Paint::Main);
            }
        }
    }
}

} // verus!
