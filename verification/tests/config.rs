use zeroin::config::{Config, CrosshairType};

fn text(o: &Option<String>) -> Option<&str> {
    o.as_deref()
}

fn assert_defaults(c: &Config) {
    assert_eq!(c.crosshair_type, CrosshairType::Cross);
    assert_eq!(text(&c.size), None);
    assert_eq!(text(&c.thickness), None);
    assert_eq!(c.color_hex, "#FF0000");
    assert!(c.dot_center);
    assert_eq!(text(&c.opacity), None);
    assert!(c.border);
    assert_eq!(text(&c.space_width), None);
}

#[test]
fn default_settings() {
    assert_defaults(&Config::default());
}

#[test]
fn empty_file_gives_defaults() {
    assert_defaults(&Config::parse(""));
    assert_defaults(&Config::parse("\n\n   \n"));
}

#[test]
fn readme_example() {
    let ini = "[crosshair]\n\
type = t              ; dot | cross | t | circle\n\
size = 32             ; crosshair size in pixels\n\
thickness = 1         ; line thickness\n\
color = #22B8FF       ; hex color\n\
dot_center = true     ; show center dot\n\
opacity = 0.9         ; 0.0 to 1.0\n\
border = false        ; outline mode (circle only)\n\
space_width = 6       ; gap between center and crosshair arms\n";
    let c = Config::parse(ini);
    assert_eq!(c.crosshair_type, CrosshairType::T);
    assert_eq!(text(&c.size), Some("32"));
    assert_eq!(text(&c.thickness), Some("1"));
    assert_eq!(c.color_hex, "#22B8FF");
    assert!(c.dot_center);
    assert_eq!(text(&c.opacity), Some("0.9"));
    assert!(!c.border);
    assert_eq!(text(&c.space_width), Some("6"));
    assert_eq!(c.parse_color(), (0x22, 0xB8, 0xFF));
}

#[test]
fn comments_after_values_are_cut() {
    let c = Config::parse("[crosshair]\ncolor = #010203;red\nsize = ; nothing\ntype=dot;t\n");
    assert_eq!(c.color_hex, "#010203");
    assert_eq!(text(&c.size), Some(""));
    assert_eq!(c.crosshair_type, CrosshairType::Dot);
}

#[test]
fn appended_section_overrides_one_setting() {
    let base = "[crosshair]\ntype = circle\nsize = 10\ncolor = #00FF00\nborder = false";
    let a = Config::parse(base);
    let b = Config::parse(&format!("{}\n[crosshair]\nsize = 40\n", base));
    assert_eq!(text(&b.size), Some("40"));
    assert_eq!(b.crosshair_type, a.crosshair_type);
    assert_eq!(b.color_hex, a.color_hex);
    assert_eq!(b.border, a.border);
    assert_eq!(b.dot_center, a.dot_center);
    assert_eq!(text(&b.thickness), text(&a.thickness));
}

#[test]
fn plain_entries() {
    let ini = "[crosshair]\ntype = t\nsize = 32\nthickness = 1\ncolor = #22B8FF\ndot_center = true\nopacity = 0.9\nborder = false\nspace_width = 6\n";
    let c = Config::parse(ini);
    assert_eq!(c.crosshair_type, CrosshairType::T);
    assert_eq!(text(&c.size), Some("32"));
    assert_eq!(text(&c.thickness), Some("1"));
    assert_eq!(c.color_hex, "#22B8FF");
    assert!(c.dot_center);
    assert_eq!(text(&c.opacity), Some("0.9"));
    assert!(!c.border);
    assert_eq!(text(&c.space_width), Some("6"));
}

#[test]
fn comments_and_other_sections_are_ignored() {
    let ini = "; comment\n# another = one\nsize = 10\n[other]\nsize = 11\ntype = dot\n[crosshair]\n; size = 12\nsize = 13\n[more]\nsize = 14\n";
    let c = Config::parse(ini);
    assert_eq!(text(&c.size), Some("13"));
    assert_eq!(c.crosshair_type, CrosshairType::Cross);
}

#[test]
fn no_crosshair_section_gives_defaults() {
    assert_defaults(&Config::parse("size = 10\ntype = dot\n[display]\nborder = false\n"));
}

#[test]
fn section_and_keys_ignore_case_and_space() {
    let ini = "  [  CrossHair ]  \n  SIZE   =   40  \nType=Circle\nDOT_CENTER=FALSE\n";
    let c = Config::parse(ini);
    assert_eq!(text(&c.size), Some("40"));
    assert_eq!(c.crosshair_type, CrosshairType::Circle);
    assert!(!c.dot_center);
}

#[test]
fn later_entries_win() {
    let c = Config::parse("[crosshair]\nsize = 10\ncolor = #000000\nsize = 20\nborder = 0\nborder = 1\n");
    assert_eq!(text(&c.size), Some("20"));
    assert_eq!(c.color_hex, "#000000");
    assert!(c.border);
}

#[test]
fn value_split_at_first_equals() {
    let c = Config::parse("[crosshair]\ncolor = a=b\nunknown = 3\n= 4\nnothing here\n");
    assert_eq!(c.color_hex, "a=b");
    assert_eq!(text(&c.size), None);
}

#[test]
fn switch_values() {
    let on = Config::parse("[crosshair]\ndot_center = TRUE\nborder = 1\n");
    assert!(on.dot_center && on.border);
    let off = Config::parse("[crosshair]\ndot_center = False\nborder = 0\n");
    assert!(!off.dot_center && !off.border);
    // Not a valid on/off value: the default (on) applies.
    let other = Config::parse("[crosshair]\ndot_center = false\ndot_center = yes\nborder = 2\n");
    assert!(other.dot_center && other.border);
}

#[test]
fn windows_line_endings() {
    let unix = Config::parse("[crosshair]\nsize = 7\ncolor = #010203\ntype = dot\n");
    let windows = Config::parse("[crosshair]\r\nsize = 7\r\ncolor = #010203\r\ntype = dot\r\n");
    assert_eq!(text(&unix.size), Some("7"));
    assert_eq!(text(&windows.size), Some("7"));
    assert_eq!(windows.color_hex, unix.color_hex);
    assert_eq!(windows.crosshair_type, CrosshairType::Dot);
}

#[test]
fn section_header_needs_both_brackets() {
    let c = Config::parse("[crosshair\nsize = 5\n");
    assert_eq!(text(&c.size), None);
    let c = Config::parse("[crosshair]\n[x=1\nsize = 5\n");
    assert_eq!(text(&c.size), Some("5"));
}

fn with_color(code: &str) -> Config {
    let mut c = Config::default();
    c.color_hex = code.to_string();
    c
}

#[test]
fn parse_color_reads_codes() {
    assert_eq!(with_color("#22B8FF").parse_color(), (0x22, 0xB8, 0xFF));
    assert_eq!(with_color("22b8ff").parse_color(), (0x22, 0xB8, 0xFF));
    assert_eq!(with_color("##00ff7f").parse_color(), (0, 255, 127));
    assert_eq!(with_color("#123456789").parse_color(), (0x12, 0x34, 0x56));
    assert_eq!(Config::default().parse_color(), (255, 0, 0));
}

#[test]
fn parse_color_falls_back_to_red() {
    assert_eq!(with_color("").parse_color(), (255, 0, 0));
    assert_eq!(with_color("#FFF").parse_color(), (255, 0, 0));
    assert_eq!(with_color("#GG0000").parse_color(), (255, 0, 0));
    assert_eq!(with_color("#-10000").parse_color(), (255, 0, 0));
    assert_eq!(with_color("#0000 0").parse_color(), (255, 0, 0));
    assert_eq!(with_color("#0000é").parse_color(), (255, 0, 0));
    assert_eq!(with_color("#00000é").parse_color(), (255, 0, 0));
    assert_eq!(with_color("#+F+F+F").parse_color(), (255, 0, 0));
    assert_eq!(with_color("+F+a+0").parse_color(), (255, 0, 0));
}

#[test]
fn parse_color_multibyte_code_gives_red() {
    assert_eq!(with_color("#aé000").parse_color(), (255, 0, 0));
    assert_eq!(with_color("1é2345").parse_color(), (255, 0, 0));
    assert_eq!(with_color("ABCDEé").parse_color(), (255, 0, 0));
}

#[test]
fn parse_color_reads_two_hex_digits_per_group() {
    let alphabet: Vec<char> = "0123456789abcdefABCDEFgG+- ".chars().collect();
    for &a in &alphabet {
        for &b in &alphabet {
            let pair: String = [a, b].iter().collect();
            let code = format!("{}0000", pair);
            let expected = match (a.to_digit(16), b.to_digit(16)) {
                (Some(x), Some(y)) => ((16 * x + y) as u8, 0, 0),
                _ => (255, 0, 0),
            };
            assert_eq!(with_color(&code).parse_color(), expected, "{:?}", code);
        }
    }
}
