//! Glyph outlines and their path descriptions.

use vstd::prelude::*;
use vstd::string::StringExecFns;
use crate::numeral::{
    floor_numeral,
    floored,
    lemma_floored_idempotent,
    lemma_floored_spaceless,
    spaceless,
};

verus! {

/// A point of an outline, each coordinate a decimal numeral.
#[derive(Debug, Clone)]
pub struct Point {
    pub x: String,
    pub y: String,
}

/// One step of an outline.
#[derive(Debug, Clone)]
pub enum PathCommand {
    /// Start a new contour at the point.
    MoveTo(Point),
    /// A straight line to the point.
    LineTo(Point),
    /// A cubic curve with two control points to the last point.
    CurveTo(Point, Point, Point),
    /// A quadratic curve with one control point to the last point.
    QuadTo(Point, Point),
    /// Close the contour.
    Close,
}

/// A coordinate as it is written: rounded down where asked for.
pub open spec fn coordinate_text(numeral: Seq<char>, floor: bool) -> Seq<char> {
    if floor {
        floored(numeral)
    } else {
        numeral
    }
}

/// `x,y`
pub open spec fn point_text(p: Point, floor: bool) -> Seq<char> {
    coordinate_text(p.x@, floor) + seq![','] + coordinate_text(p.y@, floor)
}

/// The letter of the command followed by its points, which a space
/// separates.
pub open spec fn command_text(command: PathCommand, floor: bool) -> Seq<char> {
    match command {
        PathCommand::MoveTo(p) => seq!['M'] + point_text(p, floor),
        PathCommand::LineTo(p) => seq!['L'] + point_text(p, floor),
        PathCommand::CurveTo(a, b, c) => seq!['C'] + point_text(a, floor) + seq![' '] + point_text(
            b,
            floor,
        ) + seq![' '] + point_text(c, floor),
        PathCommand::QuadTo(a, b) => seq!['Q'] + point_text(a, floor) + seq![' '] + point_text(
            b,
            floor,
        ),
        PathCommand::Close => seq!['Z'],
    }
}

/// The commands in order with one space between two of them, and none at
/// either end.
pub open spec fn path_text(commands: Seq<PathCommand>, floor: bool) -> Seq<char>
    decreases commands.len(),
{
    if commands.len() == 0 {
        Seq::empty()
    } else if commands.len() == 1 {
        command_text(commands[0], floor)
    } else {
        path_text(commands.drop_last(), floor) + seq![' '] + command_text(commands.last(), floor)
    }
}

/// A path begins with its first command and ends with its last: no
/// separator stands at either end.
pub proof fn lemma_path_ends(commands: Seq<PathCommand>, floor: bool)
    requires
        commands.len() > 0,
    ensures
        command_text(commands.first(), floor).is_prefix_of(path_text(commands, floor)),
        command_text(commands.last(), floor).is_suffix_of(path_text(commands, floor)),
    decreases commands.len(),
{
    let path = path_text(commands, floor);
    if commands.len() == 1 {
        assert(path.subrange(0, path.len() as int) == path);
    } else {
        let rest = commands.drop_last();
        let last = command_text(commands.last(), floor);
        lemma_path_ends(rest, floor);
        assert(rest.first() == commands.first());
        let first = command_text(commands.first(), floor);
        assert(first == path_text(rest, floor).subrange(0, first.len() as int));
        assert(path.subrange(0, first.len() as int) =~= first);
        assert(path.subrange(path.len() - last.len(), path.len() as int) =~= last);
    }
}

/// No coordinate of the point holds a space.
pub open spec fn point_spaceless(p: Point) -> bool {
    spaceless(p.x@) && spaceless(p.y@)
}

/// No coordinate of the command holds a space.
pub open spec fn command_spaceless(command: PathCommand) -> bool {
    match command {
        PathCommand::MoveTo(p) => point_spaceless(p),
        PathCommand::LineTo(p) => point_spaceless(p),
        PathCommand::CurveTo(a, b, c) => point_spaceless(a) && point_spaceless(b)
            && point_spaceless(c),
        PathCommand::QuadTo(a, b) => point_spaceless(a) && point_spaceless(b),
        PathCommand::Close => true,
    }
}

/// Where no coordinate of an outline holds a space, its path neither
/// begins nor ends with one.
pub proof fn lemma_path_has_no_space_at_its_ends(commands: Seq<PathCommand>, floor: bool)
    requires
        commands.len() > 0,
        command_spaceless(commands.first()),
        command_spaceless(commands.last()),
    ensures
        path_text(commands, floor).len() > 0,
        path_text(commands, floor).first() != ' ',
        path_text(commands, floor).last() != ' ',
{
    let path = path_text(commands, floor);
    let first = command_text(commands.first(), floor);
    let last = command_text(commands.last(), floor);
    lemma_path_ends(commands, floor);
    lemma_command_has_no_space_at_its_ends(commands.first(), floor);
    lemma_command_has_no_space_at_its_ends(commands.last(), floor);
    assert(path.subrange(0, first.len() as int)[0] == path[0]);
    assert(path.subrange(path.len() - last.len(), path.len() as int)[last.len() - 1] == path[path.len()
        - 1]);
}

proof fn lemma_point_spaceless(p: Point, floor: bool)
    requires
        point_spaceless(p),
    ensures
        spaceless(point_text(p, floor)),
        point_text(p, floor).len() > 0,
{
    lemma_floored_spaceless(p.x@);
    lemma_floored_spaceless(p.y@);
    let x = coordinate_text(p.x@, floor);
    let y = coordinate_text(p.y@, floor);
    let text = point_text(p, floor);
    assert(text.len() == x.len() + 1 + y.len());
    assert forall|i: int| 0 <= i < text.len() implies #[trigger] text[i] != ' ' by {
        if i < x.len() {
            assert(text[i] == x[i]);
        } else if i == x.len() {
            assert(text[i] == ',');
        } else {
            assert(text[i] == y[i - x.len() - 1]);
        }
    }
}

proof fn lemma_command_has_no_space_at_its_ends(command: PathCommand, floor: bool)
    requires
        command_spaceless(command),
    ensures
        command_text(command, floor).len() > 0,
        command_text(command, floor).first() != ' ',
        command_text(command, floor).last() != ' ',
{
    let text = command_text(command, floor);
    match command {
        PathCommand::MoveTo(p) => {
            lemma_point_spaceless(p, floor);
            let tail = point_text(p, floor);
            assert(text.last() == tail.last());
        },
        PathCommand::LineTo(p) => {
            lemma_point_spaceless(p, floor);
            let tail = point_text(p, floor);
            assert(text.last() == tail.last());
        },
        PathCommand::CurveTo(a, b, c) => {
            lemma_point_spaceless(c, floor);
            let tail = point_text(c, floor);
            assert(text.last() == tail.last());
            assert(text.first() == 'C');
        },
        PathCommand::QuadTo(a, b) => {
            lemma_point_spaceless(b, floor);
            let tail = point_text(b, floor);
            assert(text.last() == tail.last());
            assert(text.first() == 'Q');
        },
        PathCommand::Close => {},
    }
}

/// The point `after` is the point `before` with both coordinates rounded
/// down.
pub open spec fn point_floored(after: Point, before: Point) -> bool {
    after.x@ == floored(before.x@) && after.y@ == floored(before.y@)
}

/// The command `after` is the command `before` with every coordinate
/// rounded down.
pub open spec fn command_floored(after: PathCommand, before: PathCommand) -> bool {
    match (after, before) {
        (PathCommand::MoveTo(p), PathCommand::MoveTo(q)) => point_floored(p, q),
        (PathCommand::LineTo(p), PathCommand::LineTo(q)) => point_floored(p, q),
        (PathCommand::CurveTo(a, b, c), PathCommand::CurveTo(d, e, f)) => point_floored(a, d)
            && point_floored(b, e) && point_floored(c, f),
        (PathCommand::QuadTo(a, b), PathCommand::QuadTo(d, e)) => point_floored(a, d)
            && point_floored(b, e),
        (PathCommand::Close, PathCommand::Close) => true,
        _ => false,
    }
}

/// Rounding down coordinates that are rounded down already changes
/// nothing: an outline whose coordinates were rounded down is written the
/// same with and without rounding, and as the outline that it came from is
/// written with rounding.
pub proof fn lemma_flooring_idempotent(after: Seq<PathCommand>, before: Seq<PathCommand>)
    requires
        after.len() == before.len(),
        forall|i: int| 0 <= i < after.len() ==> command_floored(#[trigger] after[i], before[i]),
    ensures
        path_text(after, true) == path_text(before, true),
        path_text(after, false) == path_text(before, true),
    decreases after.len(),
{
    if after.len() > 0 {
        let a = after.last();
        let b = before.last();
        assert(command_floored(after[after.len() - 1], before[after.len() - 1]));
        lemma_command_flooring_idempotent(a, b);
        assert forall|i: int| 0 <= i < after.drop_last().len() implies command_floored(
            #[trigger] after.drop_last()[i],
            before.drop_last()[i],
        ) by {
            assert(command_floored(after[i], before[i]));
        }
        lemma_flooring_idempotent(after.drop_last(), before.drop_last());
        if after.len() == 1 {
            assert(after[0] == a);
            assert(before[0] == b);
        }
    }
}

proof fn lemma_point_flooring_idempotent(after: Point, before: Point)
    requires
        point_floored(after, before),
    ensures
        point_text(after, true) == point_text(before, true),
        point_text(after, false) == point_text(before, true),
{
    lemma_floored_idempotent(before.x@);
    lemma_floored_idempotent(before.y@);
}

proof fn lemma_command_flooring_idempotent(after: PathCommand, before: PathCommand)
    requires
        command_floored(after, before),
    ensures
        command_text(after, true) == command_text(before, true),
        command_text(after, false) == command_text(before, true),
{
    match (after, before) {
        (PathCommand::MoveTo(p), PathCommand::MoveTo(q)) => {
            lemma_point_flooring_idempotent(p, q);
        },
        (PathCommand::LineTo(p), PathCommand::LineTo(q)) => {
            lemma_point_flooring_idempotent(p, q);
        },
        (PathCommand::CurveTo(a, b, c), PathCommand::CurveTo(d, e, f)) => {
            lemma_point_flooring_idempotent(a, d);
            lemma_point_flooring_idempotent(b, e);
            lemma_point_flooring_idempotent(c, f);
        },
        (PathCommand::QuadTo(a, b), PathCommand::QuadTo(d, e)) => {
            lemma_point_flooring_idempotent(a, d);
            lemma_point_flooring_idempotent(b, e);
        },
        _ => {},
    }
}

fn push_coordinate(out: &mut String, numeral: &String, floor_coords: bool)
    ensures
        final(out)@ == old(out)@ + coordinate_text(numeral@, floor_coords),
{
    if floor_coords {
        let text = floor_numeral(numeral.as_str());
        out.append(text.as_str());
    } else {
        out.append(numeral.as_str());
    }
}

fn push_point(out: &mut String, p: &Point, floor_coords: bool)
    ensures
        final(out)@ == old(out)@ + point_text(*p, floor_coords),
{
    let ghost before = out@;
    push_coordinate(out, &p.x, floor_coords);
    out.push(',');
    push_coordinate(out, &p.y, floor_coords);
    assert(out@ =~= before + point_text(*p, floor_coords));
}

fn push_command(out: &mut String, command: &PathCommand, floor_coords: bool)
    ensures
        final(out)@ == old(out)@ + command_text(*command, floor_coords),
{
    let ghost before = out@;
    match command {
        PathCommand::MoveTo(p) => {
            out.push('M');
            push_point(out, p, floor_coords);
        },
        PathCommand::LineTo(p) => {
            out.push('L');
            push_point(out, p, floor_coords);
        },
        PathCommand::CurveTo(a, b, c) => {
            out.push('C');
            push_point(out, a, floor_coords);
            out.push(' ');
            push_point(out, b, floor_coords);
            out.push(' ');
            push_point(out, c, floor_coords);
        },
        PathCommand::QuadTo(a, b) => {
            out.push('Q');
            push_point(out, a, floor_coords);
            out.push(' ');
            push_point(out, b, floor_coords);
        },
        PathCommand::Close => {
            out.push('Z');
        },
    }
    assert(out@ =~= before + command_text(*command, floor_coords));
}

/// Writes an outline as a path description, rounding every coordinate of
/// every command down first where `floor_coords` is set.
pub fn outline_to_svg_path(commands: &Vec<PathCommand>, floor_coords: bool) -> (d: String)
    ensures
        d@ == path_text(commands@, floor_coords),
{
    let mut d = String::new();
    let mut i: usize = 0;
    while i < commands.len()
        invariant
            0 <= i <= commands.len(),
            d@ == path_text(commands@.take(i as int), floor_coords),
        decreases commands.len() - i,
    {
        let ghost before = commands@.take(i as int);
        if i > 0 {
            d.push(' ');
        }
        push_command(&mut d, &commands[i], floor_coords);
        i += 1;
        proof {
            let now = commands@.take(i as int);
            assert(now.drop_last() == before);
            assert(now.last() == commands@[i - 1]);
            if i == 1 {
                assert(now[0] == commands@[0]);
                assert(d@ =~= command_text(commands@[0], floor_coords));
            } else {
                assert(d@ =~= path_text(before, floor_coords) + seq![' '] + command_text(
                    commands@[i - 1],
                    floor_coords,
                ));
            }
        }
    }
    assert(commands@.take(commands.len() as int) == commands@);
    d
}

} // verus!
