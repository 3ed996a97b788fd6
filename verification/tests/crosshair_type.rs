use zeroin::config::CrosshairType;

#[test]
fn from_str_reads_each_name() {
    assert_eq!(CrosshairType::from_str("dot"), CrosshairType::Dot);
    assert_eq!(CrosshairType::from_str("cross"), CrosshairType::Cross);
    assert_eq!(CrosshairType::from_str("t"), CrosshairType::T);
    assert_eq!(CrosshairType::from_str("circle"), CrosshairType::Circle);
}

#[test]
fn from_str_ignores_case_and_surrounding_space() {
    assert_eq!(CrosshairType::from_str("  DOT "), CrosshairType::Dot);
    assert_eq!(CrosshairType::from_str("\tCircle\r\n"), CrosshairType::Circle);
    assert_eq!(CrosshairType::from_str("T"), CrosshairType::T);
    assert_eq!(CrosshairType::from_str("\u{a0}dOt\u{3000}"), CrosshairType::Dot);
}

#[test]
fn from_str_falls_back_to_cross() {
    assert_eq!(CrosshairType::from_str(""), CrosshairType::Cross);
    assert_eq!(CrosshairType::from_str("diamond"), CrosshairType::Cross);
    assert_eq!(CrosshairType::from_str("d o t"), CrosshairType::Cross);
    assert_eq!(CrosshairType::from_str("dots"), CrosshairType::Cross);
}

#[test]
fn from_str_lowercases_beyond_ascii() {
    // The Kelvin sign lowercases to an ASCII `k`; nothing here names a type.
    assert_eq!(CrosshairType::from_str("\u{212a}"), CrosshairType::Cross);
    assert_eq!(CrosshairType::from_str("CİRCLE"), CrosshairType::Cross);
}

#[test]
fn as_str_gives_each_name() {
    assert_eq!(CrosshairType::Dot.as_str(), "dot");
    assert_eq!(CrosshairType::Cross.as_str(), "cross");
    assert_eq!(CrosshairType::T.as_str(), "t");
    assert_eq!(CrosshairType::Circle.as_str(), "circle");
}

#[test]
fn names_round_trip() {
    for t in [CrosshairType::Dot, CrosshairType::Cross, CrosshairType::T, CrosshairType::Circle] {
        assert_eq!(CrosshairType::from_str(t.as_str()), t);
        assert_eq!(CrosshairType::from_str(&t.as_str().to_uppercase()), t);
    }
}

#[test]
fn space_and_case_do_not_change_the_type() {
    for s in ["  DoT ", "\tT\n", "CIRCLE", " cross ", "Dots", ""] {
        let normal = s.trim().to_lowercase();
        assert_eq!(CrosshairType::from_str(s), CrosshairType::from_str(&normal));
    }
}
