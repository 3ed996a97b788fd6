use zeroin::config::CrosshairType;
use zeroin::shapes::{shapes, Paint, Part, Shape};

fn main_part(part: Part) -> Shape {
    Shape { paint: Paint::Main, part }
}

fn border_part(part: Part) -> Shape {
    Shape { paint: Paint::Border, part }
}

#[test]
fn dot_with_and_without_border() {
    assert_eq!(shapes(CrosshairType::Dot, true, true, true), vec![border_part(Part::Disc), main_part(Part::Disc)]);
    assert_eq!(shapes(CrosshairType::Dot, true, false, true), vec![main_part(Part::Disc)]);
    assert_eq!(shapes(CrosshairType::Dot, false, true, false), vec![main_part(Part::Disc)]);
}

#[test]
fn cross_parts() {
    assert_eq!(
        shapes(CrosshairType::Cross, true, false, true),
        vec![
            main_part(Part::LeftArm),
            main_part(Part::RightArm),
            main_part(Part::TopArm),
            main_part(Part::BottomArm),
            main_part(Part::CenterDot),
        ]
    );
    let outlined = shapes(CrosshairType::Cross, false, true, true);
    assert_eq!(
        outlined,
        vec![
            border_part(Part::LeftArm),
            border_part(Part::RightArm),
            border_part(Part::TopArm),
            border_part(Part::BottomArm),
            main_part(Part::LeftArm),
            main_part(Part::RightArm),
            main_part(Part::TopArm),
            main_part(Part::BottomArm),
        ]
    );
}

#[test]
fn t_has_a_stub_on_top() {
    let t = shapes(CrosshairType::T, false, false, false);
    assert_eq!(
        t,
        vec![main_part(Part::LeftArm), main_part(Part::RightArm), main_part(Part::TopStub), main_part(Part::BottomArm)]
    );
}

#[test]
fn circle_variants() {
    assert_eq!(
        shapes(CrosshairType::Circle, true, true, true),
        vec![border_part(Part::Ring), border_part(Part::CenterDot), main_part(Part::Ring), main_part(Part::InnerDot)]
    );
    assert_eq!(
        shapes(CrosshairType::Circle, true, false, true),
        vec![border_part(Part::CenterDot), border_part(Part::CenterDot), main_part(Part::CenterDot)]
    );
    assert_eq!(
        shapes(CrosshairType::Circle, false, false, true),
        vec![border_part(Part::Disc), main_part(Part::Disc)]
    );
    assert_eq!(shapes(CrosshairType::Circle, false, true, false), vec![main_part(Part::Ring)]);
}

#[test]
fn border_always_underneath() {
    for t in [CrosshairType::Dot, CrosshairType::Cross, CrosshairType::T, CrosshairType::Circle] {
        for bits in 0..8u8 {
            let plan = shapes(t, bits & 1 != 0, bits & 2 != 0, bits & 4 != 0);
            let first_main = plan.iter().position(|s| s.paint == Paint::Main).unwrap();
            assert!(plan[first_main..].iter().all(|s| s.paint == Paint::Main));
            if bits & 4 == 0 {
                assert!(plan.iter().all(|s| s.paint == Paint::Main));
            }
        }
    }
}
