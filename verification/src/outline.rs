//! The path that a glyph outline, as a rasterizer stores it, describes.
//!
//! Each contour starts at its first point when that point lies on the curve; otherwise at its
//! last point when that one does, and at the midpoint of the two when neither does. The points
//! are then walked in order: a point on the curve ends a line, or a quadratic or cubic curve
//! through the off-curve points seen since the last on-curve point. Between two quadratic
//! control points lies an implied on-curve point, their midpoint, as TrueType outlines have it.
//! Control points left at the end of a contour curve back to its start, and each contour is
//! closed.
//!
//! Points are named by their index; scaling their coordinates is left to the caller.

use vstd::prelude::*;

verus! {

/// The tag bit of a point that lies on the curve.
pub const POINT_TAG_ON_CURVE: u8 = 0x01;

/// The tag bit of an off-curve point that is a cubic control point (not a quadratic one).
pub const POINT_TAG_CUBIC_CONTROL: u8 = 0x02;

/// A point of a path: a point of the outline, or the midpoint of two of them.
#[derive(Clone, Copy, Debug, PartialEq, Eq, Structural)]
pub enum OutlinePoint {
    /// The point with this index.
    At(usize),
    /// The midpoint of the points with these indices.
    Between(usize, usize),
}

/// A step of a path, over the indices of the outline's points.
#[derive(Clone, Copy, Debug, PartialEq, Eq, Structural)]
pub enum OutlineCommand {
    /// Starts a contour at a point.
    MoveTo(OutlinePoint),
    /// A straight line to a point.
    LineTo(usize),
    /// A quadratic curve through a control point to a point.
    QuadraticTo(usize, OutlinePoint),
    /// A cubic curve through two control points to a point.
    CubicTo(usize, usize, OutlinePoint),
    /// Closes the contour.
    Close,
}

/// The off-curve points seen since the last on-curve point of a contour.
#[derive(Clone, Copy, Debug, PartialEq, Eq, Structural)]
pub enum Pending {
    /// None.
    Nothing,
    /// One control point.
    One(usize),
    /// Two cubic control points.
    Two(usize, usize),
}

/// Whether the point with tag `t` lies on the curve.
pub open spec fn on_curve(t: u8) -> bool {
    t & POINT_TAG_ON_CURVE != 0
}

/// Whether the point with tag `t`, when off the curve, is a cubic control point.
pub open spec fn cubic_control(t: u8) -> bool {
    t & POINT_TAG_CUBIC_CONTROL != 0
}

/// The segments that point `i`, with tag `t`, ends, and the control points pending after it: an
/// on-curve point ends a line, or a curve through the pending control points; a first
/// off-curve point is pending; a cubic control point joins the first pending one; a quadratic
/// control point after a pending one ends a quadratic curve at their midpoint and is pending in
/// its stead.
pub open spec fn point_step(pending: Pending, i: usize, t: u8) -> (Seq<OutlineCommand>, Pending) {
    if on_curve(t) {
        (
            match pending {
                Pending::Nothing => seq![OutlineCommand::LineTo(i)],
                Pending::One(c) => seq![OutlineCommand::QuadraticTo(c, OutlinePoint::At(i))],
                Pending::Two(c0, c1) => seq![OutlineCommand::CubicTo(c0, c1, OutlinePoint::At(i))],
            },
            Pending::Nothing,
        )
    } else {
        match pending {
            Pending::Nothing => (Seq::empty(), Pending::One(i)),
            Pending::One(c0) => if cubic_control(t) {
                (Seq::empty(), Pending::Two(c0, i))
            } else {
                (seq![OutlineCommand::QuadraticTo(c0, OutlinePoint::Between(c0, i))], Pending::One(i))
            },
            Pending::Two(c0, c1) => if cubic_control(t) {
                (Seq::empty(), Pending::Two(c0, i))
            } else {
                (seq![OutlineCommand::QuadraticTo(c0, OutlinePoint::Between(c0, i))], Pending::One(i))
            },
        }
    }
}

/// The segments of the points `from..to` of an outline and the control points pending after
/// them.
pub open spec fn walk(tags: Seq<u8>, from: int, to: int) -> (Seq<OutlineCommand>, Pending)
    decreases to - from,
{
    if to <= from {
        (Seq::empty(), Pending::Nothing)
    } else {
        let (before, pending) = walk(tags, from, to - 1);
        let (more, after) = point_step(pending, (to - 1) as usize, tags[to - 1]);
        (before + more, after)
    }
}

/// The curve back to the start of a contour through the control points left pending.
pub open spec fn closing_curve(pending: Pending, start: OutlinePoint) -> Seq<OutlineCommand> {
    match pending {
        Pending::Nothing => Seq::empty(),
        Pending::One(c) => seq![OutlineCommand::QuadraticTo(c, start)],
        Pending::Two(c0, c1) => seq![OutlineCommand::CubicTo(c0, c1, start)],
    }
}

/// Where the contour of points `first..=last` starts: its first point when that lies on the
/// curve, else its last point when that does, else the midpoint of the two.
pub open spec fn contour_start(tags: Seq<u8>, first: int, last: int) -> OutlinePoint {
    if on_curve(tags[first]) {
        OutlinePoint::At(first as usize)
    } else if on_curve(tags[last]) {
        OutlinePoint::At(last as usize)
    } else {
        OutlinePoint::Between(last as usize, first as usize)
    }
}

/// The first point of the contour `first..=last` that is walked: the one after its first point
/// when the contour starts there, its first point otherwise.
pub open spec fn walk_from(tags: Seq<u8>, first: int) -> int {
    if on_curve(tags[first]) {
        first + 1
    } else {
        first
    }
}

/// The path of the contour of points `first..=last`.
pub open spec fn contour_path(tags: Seq<u8>, first: int, last: int) -> Seq<OutlineCommand> {
    let start = contour_start(tags, first, last);
    let (segments, pending) = walk(tags, walk_from(tags, first), last + 1);
    seq![OutlineCommand::MoveTo(start)] + segments + closing_curve(pending, start) + seq![
        OutlineCommand::Close,
    ]
}

/// The path of the contours whose last points are `contours`, the first of them starting at
/// point `start` and each next one right after the last point of the one before.
pub open spec fn outline_path(contours: Seq<usize>, start: int, tags: Seq<u8>) -> Seq<OutlineCommand>
    decreases contours.len(),
{
    if contours.len() == 0 {
        Seq::empty()
    } else {
        let last = contours[0] as int;
        contour_path(tags, start, last) + outline_path(contours.drop_first(), last + 1, tags)
    }
}

/// Every contour has at least one point, and all of its points are tagged.
pub open spec fn outline_well_formed(contours: Seq<usize>, start: int, tags: Seq<u8>) -> bool
    decreases contours.len(),
{
    if contours.len() == 0 {
        true
    } else {
        let last = contours[0] as int;
        &&& 0 <= start <= last
        &&& last < tags.len()
        &&& outline_well_formed(contours.drop_first(), last + 1, tags)
    }
}

/// The segments that point `i` with tag `t` ends, appended to `commands`, and the control
/// points pending after it.
fn push_point(commands: &mut Vec<OutlineCommand>, pending: Pending, i: usize, t: u8) -> (r: Pending)
    ensures
        final(commands)@ == old(commands)@ + point_step(pending, i, t).0,
        r == point_step(pending, i, t).1,
{
    if t & POINT_TAG_ON_CURVE != 0 {
        match pending {
            Pending::Nothing => commands.push(OutlineCommand::LineTo(i)),
            Pending::One(c) => commands.push(OutlineCommand::QuadraticTo(c, OutlinePoint::At(i))),
            Pending::Two(c0, c1) => commands.push(OutlineCommand::CubicTo(c0, c1, OutlinePoint::At(i))),
        }
        Pending::Nothing
    } else {
        match pending {
            Pending::Nothing => Pending::One(i),
            Pending::One(c0) => if t & POINT_TAG_CUBIC_CONTROL != 0 {
                Pending::Two(c0, i)
            } else {
                commands.push(OutlineCommand::QuadraticTo(c0, OutlinePoint::Between(c0, i)));
                Pending::One(i)
            },
            Pending::Two(c0, _) => if t & POINT_TAG_CUBIC_CONTROL != 0 {
                Pending::Two(c0, i)
            } else {
                commands.push(OutlineCommand::QuadraticTo(c0, OutlinePoint::Between(c0, i)));
                Pending::One(i)
            },
        }
    }
}

/// Appends the path of the contour of points `first..=last` to `commands`.
fn push_contour(commands: &mut Vec<OutlineCommand>, tags: &[u8], first: usize, last: usize)
    requires
        first <= last < tags@.len(),
    ensures
        final(commands)@ == old(commands)@ + contour_path(tags@, first as int, last as int),
{
    let ghost before = commands@;
    let start = if tags[first] & POINT_TAG_ON_CURVE != 0 {
        OutlinePoint::At(first)
    } else if tags[last] & POINT_TAG_ON_CURVE != 0 {
        OutlinePoint::At(last)
    } else {
        OutlinePoint::Between(last, first)
    };
    let from = if tags[first] & POINT_TAG_ON_CURVE != 0 {
        first + 1
    } else {
        first
    };
    assert(start == contour_start(tags@, first as int, last as int));
    assert(from == walk_from(tags@, first as int));
    commands.push(OutlineCommand::MoveTo(start));
    let ghost moved = commands@;
    let mut pending = Pending::Nothing;
    let mut i: usize = from;
    while i <= last
        invariant
            from <= i <= last + 1,
            last < tags@.len(),
            commands@ == moved + walk(tags@, from as int, i as int).0,
            pending == walk(tags@, from as int, i as int).1,
        decreases last + 1 - i,
    {
        pending = push_point(commands, pending, i, tags[i]);
        assert(walk(tags@, from as int, i + 1).0 =~= walk(tags@, from as int, i as int).0 + point_step(
            walk(tags@, from as int, i as int).1,
            i,
            tags@[i as int],
        ).0);
        i = i + 1;
    }
    match pending {
        Pending::Nothing => {},
        Pending::One(c) => commands.push(OutlineCommand::QuadraticTo(c, start)),
        Pending::Two(c0, c1) => commands.push(OutlineCommand::CubicTo(c0, c1, start)),
    }
    commands.push(OutlineCommand::Close);
    assert(commands@ =~= before + contour_path(tags@, first as int, last as int));
}

/// Returns the path that an outline describes, given the index of the last point of each of its
/// contours and the tag of each of its points. Each contour must have a point, and its points
/// must be tagged.
pub fn decode_outline(contours: &[usize], tags: &[u8]) -> (r: Vec<OutlineCommand>)
    requires
        outline_well_formed(contours@, 0, tags@),
    ensures
        r@ == outline_path(contours@, 0, tags@),
{
    let mut commands: Vec<OutlineCommand> = Vec::new();
    let mut current: usize = 0;
    let mut k: usize = 0;
    let n = tags.len();
    assert(contours@.skip(0) =~= contours@);
    while k < contours.len()
        invariant
            k <= contours@.len(),
            n == tags@.len(),
            outline_well_formed(contours@.skip(k as int), current as int, tags@),
            commands@ + outline_path(contours@.skip(k as int), current as int, tags@) == outline_path(
                contours@,
                0,
                tags@,
            ),
        decreases contours@.len() - k,
    {
        let ghost rest = contours@.skip(k as int);
        assert(rest.drop_first() =~= contours@.skip(k + 1));
        let ghost done = commands@;
        let last = contours[k];
        assert(rest.len() > 0 && rest[0] == last);
        assert(current <= last && last < tags@.len());
        push_contour(&mut commands, tags, current, last);
        assert(done + outline_path(rest, current as int, tags@) =~= commands@ + outline_path(
            contours@.skip(k + 1),
            last + 1,
            tags@,
        ));
        current = last + 1;
        k = k + 1;
    }
    assert(commands@ =~= outline_path(contours@, 0, tags@));
    commands
}

} // verus!
