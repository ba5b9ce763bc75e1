//! What to put on the screen, computed as plain values so that the part
//! that talks to the terminal has nothing left to decide.

use vstd::prelude::*;
use vstd::arithmetic::div_mod::{lemma_div_is_ordered, lemma_fundamental_div_mod_converse};
use vstd::string::StrSliceExecFns;
use crate::entity::{Character, Faction};
use crate::client::CommandState;

verus! {

/// Distance between two coordinates.
pub open spec fn span(from: int, to: int) -> int {
    if from < to {
        to - from
    } else {
        from - to
    }
}

/// The coordinate `steps` cells from `from` in the direction of `to`.
pub open spec fn toward(from: int, to: int, steps: int) -> int {
    if from < to {
        from + steps
    } else {
        from - steps
    }
}

/// How far a line has advanced along its short axis after `k` steps along
/// its long axis: `k * short / long`, rounded to the nearest whole number,
/// a half being rounded down.
pub open spec fn minor_offset(k: int, long: int, short: int) -> int {
    (k * short + (long - 1) / 2) / long
}

/// Number of cells of the line between two cells, both ends included.
pub open spec fn line_length(x1: int, y1: int, x2: int, y2: int) -> nat {
    if span(x1, x2) > span(y1, y2) {
        (span(x1, x2) + 1) as nat
    } else {
        (span(y1, y2) + 1) as nat
    }
}

/// Cell number `k` of the line from `(x1, y1)` to `(x2, y2)`. The line
/// advances one cell per step along the axis on which it is longer, and
/// stays within half a cell of the straight line on the other axis.
pub open spec fn line_point(x1: int, y1: int, x2: int, y2: int, k: int) -> (int, int) {
    let dx = span(x1, x2);
    let dy = span(y1, y2);
    if dx > dy {
        (toward(x1, x2, k), toward(y1, y2, minor_offset(k, dx, dy)))
    } else if dy > 0 {
        (toward(x1, x2, minor_offset(k, dy, dx)), toward(y1, y2, k))
    } else {
        (x1, y1)
    }
}

/// The cells of the line from `(x1, y1)` to `(x2, y2)`, in order.
pub open spec fn line_points(x1: i32, y1: i32, x2: i32, y2: i32) -> Seq<(i32, i32)> {
    Seq::new(
        line_length(x1 as int, y1 as int, x2 as int, y2 as int),
        |k: int|
            (
                line_point(x1 as int, y1 as int, x2 as int, y2 as int, k).0 as i32,
                line_point(x1 as int, y1 as int, x2 as int, y2 as int, k).1 as i32,
            ),
    )
}

/// The running error of the line algorithm determines the short-axis
/// offset: if `c * long` lies within half of `long` of `k * short`, then
/// `c` is the rounded quotient.
proof fn lemma_offset_from_error(k: int, long: int, short: int, c: int, e: int)
    requires
        long > 0,
        e == long / 2 - k * short + c * long,
        0 <= e < long,
    ensures
        c == minor_offset(k, long, short),
{
    let n = k * short + (long - 1) / 2;
    let r = n - c * long;
    assert(long / 2 + (long - 1) / 2 == long - 1);
    assert(n == c * long + r);
    lemma_fundamental_div_mod_converse(n, long, c, r);
}

/// The short-axis offset starts at zero, ends at `short`, and lies
/// between the two on the way.
proof fn lemma_offset_range(k: int, long: int, short: int)
    requires
        long > 0,
        0 <= short,
        0 <= k <= long,
    ensures
        minor_offset(0, long, short) == 0,
        minor_offset(long, long, short) == short,
        0 <= minor_offset(k, long, short) <= short,
{
    let half = (long - 1) / 2;
    assert(0 * short == 0);
    lemma_fundamental_div_mod_converse(0 * short + half, long, 0, half);
    assert(long * short == short * long) by (nonlinear_arith);
    lemma_fundamental_div_mod_converse(long * short + half, long, short, half);
    assert(0 <= k * short <= long * short) by (nonlinear_arith)
        requires
            0 <= k <= long,
            0 <= short,
    ;
    lemma_div_is_ordered(0 * short + half, k * short + half, long);
    lemma_div_is_ordered(k * short + half, long * short + half, long);
}

/// The line starts at its first end and stops at its second.
pub proof fn lemma_line_ends(x1: i32, y1: i32, x2: i32, y2: i32)
    ensures
        line_points(x1, y1, x2, y2).len() >= 1,
        line_points(x1, y1, x2, y2).first() == (x1, y1),
        line_points(x1, y1, x2, y2).last() == (x2, y2),
{
    let dx = span(x1 as int, x2 as int);
    let dy = span(y1 as int, y2 as int);
    if dx > dy {
        lemma_offset_range(0, dx, dy);
    } else if dy > 0 {
        lemma_offset_range(0, dy, dx);
    }
}

/// Computes the cells of the line between two cells, both ends included.
pub fn calc_line(x1: i32, y1: i32, x2: i32, y2: i32) -> (points: Vec<(i32, i32)>)
    ensures
        points@ == line_points(x1, y1, x2, y2),
{
    let dx: i64 = if x1 < x2 {
        x2 as i64 - x1 as i64
    } else {
        x1 as i64 - x2 as i64
    };
    let dy: i64 = if y1 < y2 {
        y2 as i64 - y1 as i64
    } else {
        y1 as i64 - y2 as i64
    };
    let sx: i64 = if x1 < x2 {
        1
    } else {
        -1
    };
    let sy: i64 = if y1 < y2 {
        1
    } else {
        -1
    };
    let mut error: i64 = if dx > dy {
        dx / 2
    } else {
        -(dy / 2)
    };
    let mut x: i64 = x1 as i64;
    let mut y: i64 = y1 as i64;
    let mut points: Vec<(i32, i32)> = Vec::new();
    let ghost mut k: int = 0;
    let ghost mut a: int = 0;
    let ghost mut b: int = 0;
    proof {
        if dx > dy {
            lemma_offset_range(0, dx as int, dy as int);
        } else if dy > 0 {
            lemma_offset_range(0, dy as int, dx as int);
        }
    }
    loop
        invariant_except_break
            dx == span(x1 as int, x2 as int),
            dy == span(y1 as int, y2 as int),
            sx == (if x1 < x2 { 1int } else { -1int }),
            sy == (if y1 < y2 { 1int } else { -1int }),
            0 <= k < line_length(x1 as int, y1 as int, x2 as int, y2 as int),
            0 <= a <= dx,
            0 <= b <= dy,
            x == toward(x1 as int, x2 as int, a),
            y == toward(y1 as int, y2 as int, b),
            (x as int, y as int) == line_point(x1 as int, y1 as int, x2 as int, y2 as int, k),
            dx > dy ==> a == k && error == dx / 2 - a * dy + b * dx && 0 <= error < dx,
            dx <= dy && dy > 0 ==> b == k && error == -(dy / 2) - a * dy + b * dx && -dy < error <= 0,
            points@ == line_points(x1, y1, x2, y2).take(k),
        ensures
            points@ == line_points(x1, y1, x2, y2),
        decreases line_length(x1 as int, y1 as int, x2 as int, y2 as int) - k,
    {
        points.push((x as i32, y as i32));
        assert(points@ =~= line_points(x1, y1, x2, y2).take(k + 1));
        if x == x2 as i64 && y == y2 as i64 {
            proof {
                if dx > dy {
                    assert(a == dx);
                } else if dy > 0 {
                    assert(b == dy);
                }
                assert(line_points(x1, y1, x2, y2).take(k + 1) =~= line_points(x1, y1, x2, y2));
            }
            break ;
        }
        proof {
            if dx > dy {
                if k == dx {
                    lemma_offset_range(k, dx as int, dy as int);
                }
                assert(k < dx);
            } else {
                if k == dy {
                    lemma_offset_range(k, dy as int, dx as int);
                }
                assert(k < dy);
            }
        }
        let before: i64 = error;
        let ghost a0 = a;
        let ghost b0 = b;
        if before > -dx {
            error = error - dy;
            x = x + sx;
            proof {
                a = a + 1;
            }
        }
        if before < dy {
            error = error + dx;
            y = y + sy;
            proof {
                b = b + 1;
            }
        }
        proof {
            k = k + 1;
            assert((a0 + 1) * dy == a0 * dy + dy) by (nonlinear_arith);
            assert((b0 + 1) * dx == b0 * dx + dx) by (nonlinear_arith);
            if dx > dy {
                lemma_offset_from_error(k, dx as int, dy as int, b, error as int);
                lemma_offset_range(k, dx as int, dy as int);
            } else {
                assert(-(error as int) == dy / 2 - b * dx + a * dy);
                lemma_offset_from_error(k, dy as int, dx as int, a, -(error as int));
                lemma_offset_range(k, dy as int, dx as int);
            }
        }
    }
    points
}

/// One write to the screen: `text`, starting at column `x` of row `y`.
#[derive(Clone, Debug, PartialEq, Eq)]
pub struct DrawOp {
    pub x: u16,
    pub y: u16,
    pub text: Vec<char>,
}

/// What a `DrawOp` stands for.
pub struct Stroke {
    pub x: u16,
    pub y: u16,
    pub text: Seq<char>,
}

impl View for DrawOp {
    type V = Stroke;

    open spec fn view(&self) -> Stroke {
        Stroke { x: self.x, y: self.y, text: self.text@ }
    }
}

/// What a list of writes stands for.
pub open spec fn views(ops: Seq<DrawOp>) -> Seq<Stroke> {
    Seq::new(ops.len(), |i: int| ops[i]@)
}

/// Every cell of a line lies between the line's ends.
proof fn lemma_line_within(x1: int, y1: int, x2: int, y2: int, k: int)
    requires
        0 <= k < line_length(x1, y1, x2, y2),
    ensures
        x1 <= line_point(x1, y1, x2, y2, k).0 <= x2 || x2 <= line_point(x1, y1, x2, y2, k).0 <= x1,
        y1 <= line_point(x1, y1, x2, y2, k).1 <= y2 || y2 <= line_point(x1, y1, x2, y2, k).1 <= y1,
{
    let dx = span(x1, x2);
    let dy = span(y1, y2);
    if dx > dy {
        lemma_offset_range(k, dx, dy);
    } else if dy > 0 {
        lemma_offset_range(k, dy, dx);
    }
}

/// The writes that draw a line with the character `draw`, one per cell.
pub open spec fn line_strokes(draw: char, x1: u16, y1: u16, x2: u16, y2: u16) -> Seq<Stroke> {
    Seq::new(
        line_length(x1 as int, y1 as int, x2 as int, y2 as int),
        |k: int|
            Stroke {
                x: line_point(x1 as int, y1 as int, x2 as int, y2 as int, k).0 as u16,
                y: line_point(x1 as int, y1 as int, x2 as int, y2 as int, k).1 as u16,
                text: seq![draw],
            },
    )
}

/// Appends the writes that draw a line.
fn push_line(ops: &mut Vec<DrawOp>, draw: char, x1: u16, y1: u16, x2: u16, y2: u16)
    ensures
        views(final(ops)@) == views(old(ops)@) + line_strokes(draw, x1, y1, x2, y2),
{
    let points: Vec<(i32, i32)> = calc_line(x1 as i32, y1 as i32, x2 as i32, y2 as i32);
    let mut k: usize = 0;
    while k < points.len()
        invariant
            k <= points.len(),
            points@ == line_points(x1 as i32, y1 as i32, x2 as i32, y2 as i32),
            views(ops@) == views(old(ops)@) + line_strokes(draw, x1, y1, x2, y2).take(k as int),
        decreases points.len() - k,
    {
        proof {
            lemma_line_within(x1 as int, y1 as int, x2 as int, y2 as int, k as int);
        }
        let ghost before = ops@;
        let mut text: Vec<char> = Vec::new();
        text.push(draw);
        assert(text@ =~= seq![draw]);
        ops.push(DrawOp { x: points[k].0 as u16, y: points[k].1 as u16, text });
        assert(views(ops@) =~= views(before) + line_strokes(draw, x1, y1, x2, y2).subrange(
            k as int,
            k + 1,
        ));
        assert(views(ops@) =~= views(old(ops)@) + line_strokes(draw, x1, y1, x2, y2).take(k + 1));
        k = k + 1;
    }
    assert(line_strokes(draw, x1, y1, x2, y2).take(k as int) =~= line_strokes(
        draw,
        x1,
        y1,
        x2,
        y2,
    ));
}

/// The writes that draw the line between two cells, both ends included.
pub fn draw_line(draw: char, x1: u16, y1: u16, x2: u16, y2: u16) -> (ops: Vec<DrawOp>)
    ensures
        views(ops@) == line_strokes(draw, x1, y1, x2, y2),
{
    let mut ops: Vec<DrawOp> = Vec::new();
    push_line(&mut ops, draw, x1, y1, x2, y2);
    assert(views(ops@) =~= line_strokes(draw, x1, y1, x2, y2));
    ops
}

/// The writes that draw the outline of a rectangle: its top edge, its
/// bottom edge, its left edge and its right edge.
pub open spec fn outline_strokes(draw: char, x: u16, y: u16, width: u16, height: u16) -> Seq<Stroke> {
    let right = (x + width - 1) as u16;
    let bottom = (y + height - 1) as u16;
    line_strokes(draw, x, y, right, y) + line_strokes(draw, x, bottom, right, bottom)
        + line_strokes(draw, x, y, x, bottom) + line_strokes(draw, right, y, right, bottom)
}

/// Appends the writes that draw the outline of a rectangle.
fn push_outline(ops: &mut Vec<DrawOp>, draw: char, x: u16, y: u16, width: u16, height: u16)
    requires
        1 <= x + width <= u16::MAX + 1,
        1 <= y + height <= u16::MAX + 1,
    ensures
        views(final(ops)@) == views(old(ops)@) + outline_strokes(draw, x, y, width, height),
{
    let right: u16 = (x as u32 + width as u32 - 1) as u16;
    let bottom: u16 = (y as u32 + height as u32 - 1) as u16;
    push_line(ops, draw, x, y, right, y);
    push_line(ops, draw, x, bottom, right, bottom);
    push_line(ops, draw, x, y, x, bottom);
    push_line(ops, draw, right, y, right, bottom);
    assert(views(ops@) =~= views(old(ops)@) + outline_strokes(draw, x, y, width, height));
}

/// The writes that draw the outline of the rectangle whose top left cell
/// is `(x, y)` and which is `width` cells wide and `height` cells high.
/// The opposite corner, `(x + width - 1, y + height - 1)`, has to be a
/// cell of the screen.
pub fn rect_outline(draw: char, x: u16, y: u16, width: u16, height: u16) -> (ops: Vec<DrawOp>)
    requires
        1 <= x + width <= u16::MAX + 1,
        1 <= y + height <= u16::MAX + 1,
    ensures
        views(ops@) == outline_strokes(draw, x, y, width, height),
{
    let mut ops: Vec<DrawOp> = Vec::new();
    push_outline(&mut ops, draw, x, y, width, height);
    assert(views(ops@) =~= outline_strokes(draw, x, y, width, height));
    ops
}

/// The text `s` written `times` times in a row.
pub open spec fn repeated(s: Seq<char>, times: nat) -> Seq<char>
    decreases times,
{
    if times == 0 {
        Seq::empty()
    } else {
        repeated(s, (times - 1) as nat) + s
    }
}

/// The writes that fill a rectangle: one per row, top row first, each
/// writing `draw` once per column.
pub open spec fn fill_strokes(draw: Seq<char>, x: u16, y: u16, width: u16, height: u16) -> Seq<Stroke> {
    Seq::new(
        height as nat,
        |i: int| Stroke { x, y: (y + i) as u16, text: repeated(draw, width as nat) },
    )
}

/// The characters of a text.
fn chars_of(s: &str) -> (chars: Vec<char>)
    ensures
        chars@ == s@,
{
    let mut chars: Vec<char> = Vec::new();
    let len: usize = s.unicode_len();
    let mut i: usize = 0;
    while i < len
        invariant
            i <= len,
            len == s@.len(),
            chars@ == s@.take(i as int),
        decreases len - i,
    {
        chars.push(s.get_char(i));
        assert(chars@ =~= s@.take(i + 1));
        i = i + 1;
    }
    assert(s@.take(i as int) =~= s@);
    chars
}

/// Appends the characters of `more` to `text`.
fn push_chars(text: &mut Vec<char>, more: &Vec<char>)
    ensures
        final(text)@ == old(text)@ + more@,
{
    let mut i: usize = 0;
    while i < more.len()
        invariant
            i <= more.len(),
            text@ == old(text)@ + more@.take(i as int),
        decreases more.len() - i,
    {
        text.push(more[i]);
        assert(text@ =~= old(text)@ + more@.take(i + 1));
        i = i + 1;
    }
    assert(more@.take(i as int) =~= more@);
}

/// Writes `pattern` `times` times in a row.
fn repeat_chars(pattern: &Vec<char>, times: u16) -> (text: Vec<char>)
    ensures
        text@ == repeated(pattern@, times as nat),
{
    let mut text: Vec<char> = Vec::new();
    let mut done: u16 = 0;
    while done < times
        invariant
            done <= times,
            text@ == repeated(pattern@, done as nat),
        decreases times - done,
    {
        push_chars(&mut text, pattern);
        done = done + 1;
    }
    text
}

/// Appends the writes that fill a rectangle.
fn push_fill(ops: &mut Vec<DrawOp>, draw: &str, x: u16, y: u16, width: u16, height: u16)
    requires
        y + height <= u16::MAX + 1,
    ensures
        views(final(ops)@) == views(old(ops)@) + fill_strokes(draw@, x, y, width, height),
{
    let pattern: Vec<char> = chars_of(draw);
    let mut i: u16 = 0;
    while i < height
        invariant
            i <= height,
            y + height <= u16::MAX + 1,
            pattern@ == draw@,
            views(ops@) == views(old(ops)@) + fill_strokes(draw@, x, y, width, height).take(i as int),
        decreases height - i,
    {
        let ghost before = ops@;
        let text: Vec<char> = repeat_chars(&pattern, width);
        ops.push(DrawOp { x, y: (y as u32 + i as u32) as u16, text });
        assert(views(ops@) =~= views(before) + fill_strokes(draw@, x, y, width, height).subrange(
            i as int,
            i + 1,
        ));
        assert(views(ops@) =~= views(old(ops)@) + fill_strokes(draw@, x, y, width, height).take(
            i + 1,
        ));
        i = i + 1;
    }
    assert(fill_strokes(draw@, x, y, width, height).take(i as int) =~= fill_strokes(
        draw@,
        x,
        y,
        width,
        height,
    ));
}

/// The writes that fill the rectangle whose top left cell is `(x, y)`
/// and which is `width` cells wide and `height` cells high. Every row of
/// it has to be a row of the screen.
pub fn rect_filled(draw: &str, x: u16, y: u16, width: u16, height: u16) -> (ops: Vec<DrawOp>)
    requires
        y + height <= u16::MAX + 1,
    ensures
        views(ops@) == fill_strokes(draw@, x, y, width, height),
{
    let mut ops: Vec<DrawOp> = Vec::new();
    push_fill(&mut ops, draw, x, y, width, height);
    assert(views(ops@) =~= fill_strokes(draw@, x, y, width, height));
    ops
}

/// Width of the battle field in cells.
pub const FIELD_WIDTH: u16 = 70;

/// Height of the battle field in cells.
pub const FIELD_HEIGHT: u16 = 20;

/// The character of the frame round the field.
pub const FRAME_GLYPH: char = '\u{2588}';

/// The character of the two lines that mark the spawn zones.
pub const ZONE_GLYPH: char = '\u{2591}';

/// The name of a screen, as it is shown in the top left corner.
pub open spec fn state_label(state: CommandState) -> Seq<char> {
    match state {
        CommandState::Menu => "Menu"@,
        CommandState::MainGame => "MainGame"@,
        CommandState::CharacterSelected(c) => "CharacterSelected('"@.push(c) + "')"@,
        CommandState::Chat => "Chat"@,
    }
}

/// The decimal digit `d` as a character.
pub open spec fn digit_glyph(d: int) -> char {
    ('0' as u32 + d) as char
}

/// The writes that number the rows on which units can be put: the digits
/// 1 to 9 in the column left of the field, on every other row.
pub open spec fn row_label_strokes(x: u16, y: u16) -> Seq<Stroke> {
    Seq::new(
        9,
        |i: int|
            Stroke { x: (x - 1) as u16, y: (y + 2 * (i + 1)) as u16, text: seq![digit_glyph(i + 1)] },
    )
}

/// Everything that draws the empty field whose top left cell is
/// `(x, y)`: the screen's name in the corner, the frame, the row numbers,
/// the blank field and the two zone lines.
pub open spec fn grid_strokes(x: u16, y: u16, state: CommandState) -> Seq<Stroke> {
    seq![Stroke { x: 0, y: 0, text: state_label(state) + "         "@ }] + outline_strokes(
        FRAME_GLYPH,
        (x - 1) as u16,
        (y - 1) as u16,
        (FIELD_WIDTH + 2) as u16,
        (FIELD_HEIGHT + 2) as u16,
    ) + row_label_strokes(x, y) + fill_strokes(" "@, x, y, FIELD_WIDTH, FIELD_HEIGHT) + line_strokes(
        ZONE_GLYPH,
        (x + 5) as u16,
        y,
        (x + 5) as u16,
        (y + 19) as u16,
    ) + line_strokes(ZONE_GLYPH, (x + 65) as u16, y, (x + 65) as u16, (y + 19) as u16)
}

/// Spells the name of a screen.
fn label_of(state: &CommandState) -> (label: Vec<char>)
    ensures
        label@ == state_label(*state),
{
    match state {
        CommandState::Menu => chars_of("Menu"),
        CommandState::MainGame => chars_of("MainGame"),
        CommandState::CharacterSelected(c) => {
            let mut label: Vec<char> = chars_of("CharacterSelected('");
            label.push(*c);
            let tail: Vec<char> = chars_of("')");
            push_chars(&mut label, &tail);
            label
        },
        CommandState::Chat => chars_of("Chat"),
    }
}

/// Appends the writes that number the rows.
fn push_row_labels(ops: &mut Vec<DrawOp>, x: u16, y: u16)
    requires
        x >= 1,
        y + 18 <= u16::MAX,
    ensures
        views(final(ops)@) == views(old(ops)@) + row_label_strokes(x, y),
{
    let mut i: u16 = 0;
    while i < 9
        invariant
            i <= 9,
            x >= 1,
            y + 18 <= u16::MAX,
            views(ops@) == views(old(ops)@) + row_label_strokes(x, y).take(i as int),
        decreases 9 - i,
    {
        let ghost before = ops@;
        let mut text: Vec<char> = Vec::new();
        text.push((49u8 + i as u8) as char);
        assert(text@ =~= seq![digit_glyph(i + 1)]);
        ops.push(DrawOp { x: x - 1, y: y + 2 * (i + 1), text });
        assert(views(ops@) =~= views(before) + row_label_strokes(x, y).subrange(i as int, i + 1));
        assert(views(ops@) =~= views(old(ops)@) + row_label_strokes(x, y).take(i + 1));
        i = i + 1;
    }
    assert(row_label_strokes(x, y).take(i as int) =~= row_label_strokes(x, y));
}

/// The writes that draw the empty field with its top left cell at
/// `(x, y)`, for a player on screen `command_state`.
pub fn render_grid(x: u16, y: u16, command_state: &CommandState) -> (ops: Vec<DrawOp>)
    requires
        x >= 1,
        y >= 1,
        x + FIELD_WIDTH <= u16::MAX,
        y + FIELD_HEIGHT <= u16::MAX,
    ensures
        views(ops@) == grid_strokes(x, y, *command_state),
{
    let mut ops: Vec<DrawOp> = Vec::new();
    let mut text: Vec<char> = label_of(command_state);
    let blanks: Vec<char> = chars_of("         ");
    push_chars(&mut text, &blanks);
    ops.push(DrawOp { x: 0, y: 0, text });
    assert(views(ops@) =~= seq![
        Stroke { x: 0, y: 0, text: state_label(*command_state) + "         "@ },
    ]);
    push_outline(&mut ops, FRAME_GLYPH, x - 1, y - 1, FIELD_WIDTH + 2, FIELD_HEIGHT + 2);
    push_row_labels(&mut ops, x, y);
    push_fill(&mut ops, " ", x, y, FIELD_WIDTH, FIELD_HEIGHT);
    push_line(&mut ops, ZONE_GLYPH, x + 5, y, x + 5, y + 19);
    push_line(&mut ops, ZONE_GLYPH, x + 65, y, x + 65, y + 19);
    ops
}

/// One unit on the screen.
#[derive(Clone, Copy, Debug, PartialEq, Eq, Structural)]
pub struct Sprite {
    pub x: u16,
    pub y: u16,
    pub glyph: char,
    pub color: Faction,
}

/// How a unit is shown on a field whose top left cell is `(x, y)`: as
/// its glyph in its faction's colour, at its place relative to that
/// corner. Dead units and units beyond the screen's edge are not shown.
pub open spec fn sprite_of(x: u16, y: u16, unit: Character) -> Option<Sprite> {
    if unit.alive() && 0 <= x + unit.x <= u16::MAX && 0 <= y + unit.y <= u16::MAX {
        Some(
            Sprite {
                x: (x + unit.x) as u16,
                y: (y + unit.y) as u16,
                glyph: unit.denotation,
                color: unit.color,
            },
        )
    } else {
        None
    }
}

/// The units to show, in collection order.
pub open spec fn sprites(x: u16, y: u16, s: Seq<Character>) -> Seq<Sprite> {
    s.filter_map(|unit: Character| sprite_of(x, y, unit))
}

/// The units to draw onto the field whose top left cell is `(x, y)`.
pub fn render_grid_pieces(x: u16, y: u16, pieces: &Vec<Character>) -> (shown: Vec<Sprite>)
    ensures
        shown@ == sprites(x, y, pieces@),
{
    let mut shown: Vec<Sprite> = Vec::new();
    let mut i: usize = 0;
    while i < pieces.len()
        invariant
            i <= pieces.len(),
            shown@ == sprites(x, y, pieces@.take(i as int)),
        decreases pieces.len() - i,
    {
        let unit: Character = pieces[i];
        let column: i32 = x as i32 + unit.x as i32;
        let row: i32 = y as i32 + unit.y as i32;
        proof {
            assert(pieces@.take(i + 1).drop_last() =~= pieces@.take(i as int));
        }
        if unit.hp > 0 && 0 <= column && column <= 65535 && 0 <= row && row <= 65535 {
            shown.push(
                Sprite { x: column as u16, y: row as u16, glyph: unit.denotation, color: unit.color },
            );
        }
        assert(shown@ =~= sprites(x, y, pieces@.take(i + 1)));
        i = i + 1;
    }
    assert(pieces@.take(i as int) =~= pieces@);
    shown
}

/// The column at which the clock is shown: it moves one cell to the right
/// every second and starts again every minute.
pub fn clock_column(seconds: u64) -> (column: u16)
    ensures
        column == 10 + seconds % 60,
{
    10 + (seconds % 60) as u16
}

} // verus!
