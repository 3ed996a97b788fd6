//! The shapes that make up each crosshair and the order in which they are
//! painted. Where each shape lies on screen (in floating-point pixels) is the
//! overlay's work: a shape in the border paint is its main-paint twin grown
//! by the border width on every side.

use vstd::prelude::*;
use crate::config::CrosshairType;

verus! {

/// The brush a shape is painted with.
#[derive(Clone, Copy, PartialEq, Eq, Debug, Structural)]
pub enum Paint {
    /// The crosshair colour.
    Main,
    /// The border colour, painted underneath.
    Border,
}

/// A part of a crosshair.
#[derive(Clone, Copy, PartialEq, Eq, Debug, Structural)]
pub enum Part {
    /// The horizontal arm left of the centre gap.
    LeftArm,
    /// The horizontal arm right of the centre gap.
    RightArm,
    /// The vertical arm above the centre gap.
    TopArm,
    /// The vertical arm below the centre gap.
    BottomArm,
    /// The short stub above the centre of a T, as tall as the arms are thick.
    TopStub,
    /// The filled dot at the centre, of the configured dot size.
    CenterDot,
    /// A filled disc of the crosshair size.
    Disc,
    /// A ring of the crosshair size, stroked with the line thickness.
    Ring,
    /// The centre dot inside a ring, shrunk to fit inside the ring and the gap.
    InnerDot,
}

/// One shape: a part painted with a brush.
#[derive(Clone, Copy, PartialEq, Eq, Debug, Structural)]
pub struct Shape {
    pub paint: Paint,
    pub part: Part,
}

/// The parts `parts`, each painted with `paint`.
pub open spec fn painted(paint: Paint, parts: Seq<Part>) -> Seq<Shape> {
    parts.map_values(|part: Part| Shape { paint, part })
}

/// The parts `parts` in the main paint, over the same parts in the border
/// paint when `show_border`.
pub open spec fn outlined(parts: Seq<Part>, show_border: bool) -> Seq<Shape> {
    if show_border {
        painted(Paint::Border, parts) + painted(Paint::Main, parts)
    } else {
        painted(Paint::Main, parts)
    }
}

/// The parts of a cross, or of a T when `t_shape`: four arms, the top one a
/// stub for a T, and the centre dot when `dot_center`.
pub open spec fn arm_parts(t_shape: bool, dot_center: bool) -> Seq<Part> {
    let top = if t_shape {
        Part::TopStub
    } else {
        Part::TopArm
    };
    let arms = seq![Part::LeftArm, Part::RightArm, top, Part::BottomArm];
    if dot_center {
        arms.push(Part::CenterDot)
    } else {
        arms
    }
}

/// The border under a circle crosshair, when there is a border paint: a ring
/// in outline mode, else the centre dot or a disc; then the centre dot once
/// more when `dot_center`.
pub open spec fn circle_border(dot_center: bool, outline: bool) -> Seq<Part> {
    let first = if outline {
        Part::Ring
    } else if dot_center {
        Part::CenterDot
    } else {
        Part::Disc
    };
    if dot_center {
        seq![first, Part::CenterDot]
    } else {
        seq![first]
    }
}

/// The main shapes of a circle crosshair: a ring in outline mode (with the
/// shrunk centre dot inside when `dot_center`), else the centre dot alone
/// when `dot_center`, else a disc.
pub open spec fn circle_main(dot_center: bool, outline: bool) -> Seq<Part> {
    if outline && dot_center {
        seq![Part::Ring, Part::InnerDot]
    } else if outline {
        seq![Part::Ring]
    } else if dot_center {
        seq![Part::CenterDot]
    } else {
        seq![Part::Disc]
    }
}

/// The shapes of a crosshair, in painting order. `border` is the border
/// setting (outline mode for a circle) and `border_paint` whether there is a
/// border brush and a border width above zero. A dot, cross or T shows its
/// border when both hold; a circle whenever `border_paint` holds.
pub open spec fn shape_plan(
    ctype: CrosshairType,
    dot_center: bool,
    border: bool,
    border_paint: bool,
) -> Seq<Shape> {
    match ctype {
        CrosshairType::Dot => outlined(seq![Part::Disc], border && border_paint),
        CrosshairType::Cross => outlined(arm_parts(false, dot_center), border && border_paint),
        CrosshairType::T => outlined(arm_parts(true, dot_center), border && border_paint),
        CrosshairType::Circle => {
            let under = if border_paint {
                painted(Paint::Border, circle_border(dot_center, border))
            } else {
                Seq::empty()
            };
            under + painted(Paint::Main, circle_main(dot_center, border))
        },
    }
}

/// Appends the parts `parts`, each painted with `paint`, to `out`.
fn push_painted(out: &mut Vec<Shape>, paint: Paint, parts: &[Part])
    ensures
        final(out)@ == old(out)@ + painted(paint, parts@),
{
    let mut i: usize = 0;
    while i < parts.len()
        invariant
            i <= parts@.len(),
            out@ == old(out)@ + painted(paint, parts@.take(i as int)),
        decreases parts@.len() - i,
    {
        out.push(Shape { paint, part: parts[i] });
        assert(painted(paint, parts@.take(i + 1)) =~= painted(paint, parts@.take(i as int)).push(
            Shape { paint, part: parts@[i as int] },
        ));
        i = i + 1;
    }
    assert(parts@.take(parts@.len() as int) =~= parts@);
}

/// The parts of a cross, or of a T when `t_shape`.
fn arms(t_shape: bool, dot_center: bool) -> (v: Vec<Part>)
    ensures
        v@ == arm_parts(t_shape, dot_center),
{
    let top = if t_shape {
        Part::TopStub
    } else {
        Part::TopArm
    };
    let mut v = Vec::new();
    v.push(Part::LeftArm);
    v.push(Part::RightArm);
    v.push(top);
    v.push(Part::BottomArm);
    if dot_center {
        v.push(Part::CenterDot);
    }
    assert(v@ =~= arm_parts(t_shape, dot_center));
    v
}

/// The shapes of a crosshair of type `ctype`, in painting order (see
/// `shape_plan`).
pub fn shapes(ctype: CrosshairType, dot_center: bool, border: bool, border_paint: bool) -> (v: Vec<
    Shape,
>)
    ensures
        v@ == shape_plan(ctype, dot_center, border, border_paint),
{
    let mut out: Vec<Shape> = Vec::new();
    match ctype {
        CrosshairType::Dot | CrosshairType::Cross | CrosshairType::T => {
            let parts = match ctype {
                CrosshairType::Dot => {
                    let mut p = Vec::new();
                    p.push(Part::Disc);
                    assert(p@ =~= seq![Part::Disc]);
                    p
                },
                CrosshairType::T => arms(true, dot_center),
                _ => arms(false, dot_center),
            };
            if border && border_paint {
                push_painted(&mut out, Paint::Border, &parts);
            }
            push_painted(&mut out, Paint::Main, &parts);
            assert(out@ =~= shape_plan(ctype, dot_center, border, border_paint));
        },
        CrosshairType::Circle => {
            if border_paint {
                let first = if border {
                    Part::Ring
                } else if dot_center {
                    Part::CenterDot
                } else {
                    Part::Disc
                };
                let mut under = Vec::new();
                under.push(first);
                if dot_center {
                    under.push(Part::CenterDot);
                }
                assert(under@ =~= circle_border(dot_center, border));
                push_painted(&mut out, Paint::Border, &under);
            }
            let mut main = Vec::new();
            if border && dot_center {
                main.push(Part::Ring);
                main.push(Part::InnerDot);
            } else if border {
                main.push(Part::Ring);
            } else if dot_center {
                main.push(Part::CenterDot);
            } else {
                main.push(Part::Disc);
            }
            assert(main@ =~= circle_main(dot_center, border));
            push_painted(&mut out, Paint::Main, &main);
            assert(out@ =~= shape_plan(ctype, dot_center, border, border_paint));
        },
    }
    out
}

} // verus!
