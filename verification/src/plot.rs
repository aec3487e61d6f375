use vstd::prelude::*;

use crate::counts::OpeningResult;
use crate::frac::{Frac, PlotLine, PlotPoint};
use crate::mesh::{SimplexPoint, Triangle};

verus! {

/// The length of the side of the plotted triangle.
pub const SIDE: u32 = 400;

/// Margin around the plot.
pub const MARGIN: u32 = 80;

/// The number of ticks on an axis.
pub const NUM_TICKS: u32 = 10;

/// The length of a tick line.
pub const TICK_LENGTH: u32 = 40;

/// Room kept between an axis arrow and the triangle's edge.
pub const AXIS_ARROW_SPACE: u32 = 60;

/// The ratio of an equilateral triangle's altitude to its side, the square
/// root of three over two, held as the fixed-precision rational
/// `ALTITUDE_RATIO_NUM / ALTITUDE_RATIO_DEN`.
pub const ALTITUDE_RATIO_NUM: i128 = 8660254037844386;

pub const ALTITUDE_RATIO_DEN: i128 = 10000000000000000;

/// Numerator of the x plot coordinate of the simplex point `(a/den, b/den)`,
/// over the denominator `plot_x_den(den)`: the affine map
/// `x = SIDE * (1 - p1 - p2/2)`.
pub open spec fn plot_x_num(a: int, b: int, den: int) -> int {
    400 * (2 * den - 2 * a - b)
}

pub open spec fn plot_x_den(den: int) -> int {
    2 * den
}

/// Numerator of the y plot coordinate of the simplex point `(a/den, b/den)`,
/// over the denominator `plot_y_den(den)`: the affine map
/// `y = SIDE * (1 - ALTITUDE_RATIO * p2)`.
pub open spec fn plot_y_num(b: int, den: int) -> int {
    400 * (ALTITUDE_RATIO_DEN * den - ALTITUDE_RATIO_NUM * b)
}

pub open spec fn plot_y_den(den: int) -> int {
    ALTITUDE_RATIO_DEN * den
}

/// Maps a point of the simplex onto the plotted equilateral triangle: the
/// corner of certain outcome one sits bottom-left, certain outcome two on
/// top, certain outcome three bottom-right.
pub fn convert_to_plot_coords(point: &SimplexPoint) -> (pt: PlotPoint)
    requires
        point.wf(),
    ensures
        pt.wf(),
        pt.x.num == plot_x_num(point.num1 as int, point.num2 as int, point.den as int),
        pt.x.den == plot_x_den(point.den as int),
        pt.y.num == plot_y_num(point.num2 as int, point.den as int),
        pt.y.den == plot_y_den(point.den as int),
        0 <= pt.x.num <= 400 * pt.x.den,
        0 <= pt.y.num <= 400 * pt.y.den,
{
    let side: i128 = SIDE as i128;
    let a: i128 = point.num1 as i128;
    let b: i128 = point.num2 as i128;
    let d: i128 = point.den as i128;
    let x = Frac { num: side * (2 * d - 2 * a - b), den: 2 * d };
    let y = Frac {
        num: side * (ALTITUDE_RATIO_DEN * d - ALTITUDE_RATIO_NUM * b),
        den: ALTITUDE_RATIO_DEN * d,
    };
    PlotPoint { x, y }
}

/// The fractions `1/denominator, ..., (denominator-1)/denominator`, in
/// ascending order, all strictly between zero and one: the positions of the
/// graduation marks along one edge of the triangle.
pub fn fractions(denominator: u32) -> (res: Vec<Frac>)
    ensures
        denominator >= 1 ==> res@.len() == denominator - 1,
        denominator == 0 ==> res@.len() == 0,
        forall|i: int|
            0 <= i < res@.len() ==> (#[trigger] res@[i]).num == i + 1 && res@[i].den
                == denominator,
        forall|i: int| 0 <= i < res@.len() ==> 0 < (#[trigger] res@[i]).num < res@[i].den,
        forall|i: int, j: int|
            0 <= i < j < res@.len() ==> (#[trigger] res@[i]).num < (#[trigger] res@[j]).num,
{
    let mut res: Vec<Frac> = Vec::new();
    let mut current: u32 = 1;
    while current < denominator
        invariant
            1 <= current,
            denominator >= 1 ==> current <= denominator,
            denominator == 0 ==> current == 1 && res@.len() == 0,
            res@.len() == current - 1,
            forall|i: int|
                0 <= i < res@.len() ==> (#[trigger] res@[i]).num == i + 1 && res@[i].den
                    == denominator,
        decreases denominator - current,
    {
        res.push(Frac { num: current as i128, den: denominator as i128 });
        current = current + 1;
    }
    res
}

/// The centroid of a mesh cell, in exact simplex coordinates: the averages
/// of the three vertices' coordinates, where the density of the fitted
/// distribution is sampled for shading.
pub fn triangle_centroid(t: &Triangle) -> (c: (Frac, Frac))
    requires
        t.wf(),
        t.point1.den == t.point2.den,
        t.point2.den == t.point3.den,
    ensures
        c.0.wf(),
        c.1.wf(),
        c.0.num == t.point1.num1 + t.point2.num1 + t.point3.num1,
        c.0.den == 3 * t.point1.den,
        c.1.num == t.point1.num2 + t.point2.num2 + t.point3.num2,
        c.1.den == 3 * t.point1.den,
{
    let n1: i128 = t.point1.num1 as i128 + t.point2.num1 as i128 + t.point3.num1 as i128;
    let n2: i128 = t.point1.num2 as i128 + t.point2.num2 as i128 + t.point3.num2 as i128;
    let d: i128 = 3 * (t.point1.den as i128);
    (Frac { num: n1, den: d }, Frac { num: n2, den: d })
}

/// One circle of the scatter plot: its centre in plot coordinates and the
/// square of its radius. The radius itself is irrational (it grows with the
/// square root of the opening count), so the exact geometry carries its
/// square; rendering takes the root.
#[derive(PartialEq, Eq, Structural, Clone, Copy, Debug)]
pub struct ScatterMark {
    pub cx: Frac,
    pub cy: Frac,
    pub r_squared: Frac,
}

/// The largest opening count of the tallied list, and at least one: the
/// scatter circles are scaled relative to this count.
pub open spec fn spec_max_count(s: Seq<(OpeningResult, u32)>) -> int
    decreases s.len(),
{
    if s.len() == 0 {
        1
    } else {
        let rest: int = spec_max_count(s.drop_last());
        if s.last().1 > rest {
            s.last().1 as int
        } else {
            rest
        }
    }
}

pub fn max_count(wdb_counts: &Vec<(OpeningResult, u32)>) -> (m: u32)
    ensures
        m == spec_max_count(wdb_counts@),
        m >= 1,
{
    let mut m: u32 = 1;
    let mut j: usize = 0;
    while j < wdb_counts.len()
        invariant
            0 <= j <= wdb_counts@.len(),
            m == spec_max_count(wdb_counts@.take(j as int)),
            m >= 1,
        decreases wdb_counts@.len() - j,
    {
        proof {
            assert(wdb_counts@.take(j + 1).drop_last() =~= wdb_counts@.take(j as int));
            assert(wdb_counts@.take(j + 1).last() == wdb_counts@[j as int]);
        }
        if wdb_counts[j].1 > m {
            m = wdb_counts[j].1;
        }
        j = j + 1;
    }
    proof {
        assert(wdb_counts@.take(wdb_counts@.len() as int) =~= wdb_counts@);
    }
    m
}

/// Lays out the scatter plot: one circle per distinct win/draw/loss triple,
/// centred at the triple's proportions mapped onto the triangle, its area
/// proportional to the triple's count relative to the largest count.
pub fn print_scatter_plot_svg(wdb_counts: &Vec<(OpeningResult, u32)>) -> (marks: Vec<ScatterMark>)
    requires
        forall|k: int|
            0 <= k < wdb_counts@.len() ==> (#[trigger] wdb_counts@[k]).0.total_in_range() && wdb_counts@[
                k].0.spec_total_games() >= 1,
    ensures
        marks@.len() == wdb_counts@.len(),
        forall|k: int|
            0 <= k < marks@.len() ==> {
                let r = (#[trigger] wdb_counts@[k]).0;
                let c: u32 = wdb_counts@[k].1;
                let t: int = r.spec_total_games();
                &&& (#[trigger] marks@[k]).cx.num == 200 * (2 * r.black_win_count + r.draw_count)
                &&& marks@[k].cx.den == t
                &&& marks@[k].cy.num == plot_y_num(r.draw_count as int, t)
                &&& marks@[k].cy.den == plot_y_den(t)
                &&& marks@[k].r_squared.num == 400 * c
                &&& marks@[k].r_squared.den == spec_max_count(wdb_counts@)
                &&& marks@[k].cx.wf() && marks@[k].cy.wf() && marks@[k].r_squared.wf()
            },
{
    let m: u32 = max_count(wdb_counts);
    let mut marks: Vec<ScatterMark> = Vec::new();
    let mut j: usize = 0;
    while j < wdb_counts.len()
        invariant
            0 <= j <= wdb_counts@.len(),
            m == spec_max_count(wdb_counts@),
            m >= 1,
            marks@.len() == j,
            forall|k: int|
                0 <= k < wdb_counts@.len() ==> (#[trigger] wdb_counts@[k]).0.total_in_range()
                    && wdb_counts@[k].0.spec_total_games() >= 1,
            forall|k: int|
                0 <= k < marks@.len() ==> {
                    let r = (#[trigger] wdb_counts@[k]).0;
                    let c: u32 = wdb_counts@[k].1;
                    let t: int = r.spec_total_games();
                    &&& (#[trigger] marks@[k]).cx.num == 200 * (2 * r.black_win_count
                        + r.draw_count)
                    &&& marks@[k].cx.den == t
                    &&& marks@[k].cy.num == plot_y_num(r.draw_count as int, t)
                    &&& marks@[k].cy.den == plot_y_den(t)
                    &&& marks@[k].r_squared.num == 400 * c
                    &&& marks@[k].r_squared.den == spec_max_count(wdb_counts@)
                    &&& marks@[k].cx.wf() && marks@[k].cy.wf() && marks@[k].r_squared.wf()
                },
        decreases wdb_counts@.len() - j,
    {
        let result = wdb_counts[j].0;
        let count: u32 = wdb_counts[j].1;
        let total: u32 = result.total_games();
        let side: i128 = SIDE as i128;
        let unit: i128 = (SIDE / 2 / NUM_TICKS) as i128;
        let t: i128 = total as i128;
        let d: i128 = result.draw_count as i128;
        let b: i128 = result.black_win_count as i128;
        let cx = Frac { num: (side / 2) * (2 * b + d), den: t };
        let cy = Frac {
            num: side * (ALTITUDE_RATIO_DEN * t - ALTITUDE_RATIO_NUM * d),
            den: ALTITUDE_RATIO_DEN * t,
        };
        proof {
            assert(unit == 20);
            assert(unit * unit == 400) by (nonlinear_arith)
                requires unit == 20;
        }
        let r_squared = Frac { num: unit * unit * (count as i128), den: m as i128 };
        marks.push(ScatterMark { cx, cy, r_squared });
        j = j + 1;
    }
    marks
}

/// The offsets of the translation that places the plot's main group: the
/// margin on the x axis, and on the y axis the margin less the height of
/// the triangle's top corner.
pub fn draw_main_group_start() -> (off: PlotPoint)
    ensures
        off.wf(),
        off.x.num == 80 && off.x.den == 1,
        off.y.num == 400 * ALTITUDE_RATIO_NUM - 320 * ALTITUDE_RATIO_DEN,
        off.y.den == ALTITUDE_RATIO_DEN,
{
    let margin: i128 = MARGIN as i128;
    let side: i128 = SIDE as i128;
    PlotPoint {
        x: Frac { num: margin, den: 1 },
        y: Frac {
            num: margin * ALTITUDE_RATIO_DEN - side * (ALTITUDE_RATIO_DEN - ALTITUDE_RATIO_NUM),
            den: ALTITUDE_RATIO_DEN,
        },
    }
}

/// The fixed furniture of the ternary plot: the triangle's outline, the
/// three families of tick lines (ordered clockwise), the tick labels in
/// percent with their label offsets, and the three axis arrows.
pub struct TriangleFigure {
    pub corner_white: PlotPoint,
    pub corner_draw: PlotPoint,
    pub corner_black: PlotPoint,
    pub draw_lines: Vec<PlotLine>,
    pub black_lines: Vec<PlotLine>,
    pub white_lines: Vec<PlotLine>,
    pub tick_percents: Vec<u32>,
    pub tick_offsets: Vec<u32>,
    pub left_arrow: PlotLine,
    pub right_arrow: PlotLine,
    pub bottom_arrow: PlotLine,
    pub bottom_arrow_reverse: PlotLine,
}

/// Lays out the main triangle with its ticks, labels and axis arrows.
/// Tick line `i` of each family belongs to the graduation `(i+1)/10`:
/// the draw lines run from just left of the left edge across to the right
/// edge, the black lines from the base up past the right edge, the white
/// lines from the left edge down past the base, exactly as wide as one
/// tick length beyond the triangle.
pub fn draw_main_triangle() -> (fig: TriangleFigure)
    ensures
        fig.corner_white.x.num == 0 && fig.corner_white.x.den == 1,
        fig.corner_white.y.num == 400 && fig.corner_white.y.den == 1,
        fig.corner_draw.x.num == 200 && fig.corner_draw.x.den == 1,
        fig.corner_draw.y.num == 400 * (ALTITUDE_RATIO_DEN - ALTITUDE_RATIO_NUM),
        fig.corner_draw.y.den == ALTITUDE_RATIO_DEN,
        fig.corner_black.x.num == 400 && fig.corner_black.x.den == 1,
        fig.corner_black.y.num == 400 && fig.corner_black.y.den == 1,
        fig.draw_lines@.len() == 9,
        fig.black_lines@.len() == 9,
        fig.white_lines@.len() == 9,
        fig.tick_percents@.len() == 9,
        fig.tick_offsets@.len() == 9,
        forall|i: int|
            0 <= i < 9 ==> {
                let line = #[trigger] fig.draw_lines@[i];
                &&& line.start.x.num == plot_x_num(9 - i, i + 1, 10) - 40 * plot_x_den(10)
                &&& line.start.x.den == plot_x_den(10)
                &&& line.start.y.num == plot_y_num(i + 1, 10)
                &&& line.start.y.den == plot_y_den(10)
                &&& line.end.x.num == plot_x_num(0, i + 1, 10)
                &&& line.end.x.den == plot_x_den(10)
                &&& line.end.y.num == plot_y_num(i + 1, 10)
                &&& line.end.y.den == plot_y_den(10)
                &&& line.wf()
            },
        forall|i: int|
            0 <= i < 9 ==> {
                let line = #[trigger] fig.black_lines@[i];
                &&& line.start.x.num == plot_x_num(9 - i, 0, 10)
                &&& line.start.x.den == plot_x_den(10)
                &&& line.start.y.num == plot_y_num(0, 10)
                &&& line.start.y.den == plot_y_den(10)
                &&& line.end.x.num == plot_x_num(0, 9 - i, 10) + 20 * plot_x_den(10)
                &&& line.end.x.den == plot_x_den(10)
                &&& line.end.y.num == plot_y_num(9 - i, 10) - 400 * ALTITUDE_RATIO_NUM
                &&& line.end.y.den == plot_y_den(10)
                &&& line.wf()
            },
        forall|i: int|
            0 <= i < 9 ==> {
                let line = #[trigger] fig.white_lines@[i];
                &&& line.start.x.num == plot_x_num(i + 1, 9 - i, 10)
                &&& line.start.x.den == plot_x_den(10)
                &&& line.start.y.num == plot_y_num(9 - i, 10)
                &&& line.start.y.den == plot_y_den(10)
                &&& line.end.x.num == plot_x_num(i + 1, 0, 10) + 20 * plot_x_den(10)
                &&& line.end.x.den == plot_x_den(10)
                &&& line.end.y.num == plot_y_num(0, 10) + 400 * ALTITUDE_RATIO_NUM
                &&& line.end.y.den == plot_y_den(10)
                &&& line.wf()
            },
        forall|i: int|
            0 <= i < 9 ==> (#[trigger] fig.tick_percents@[i]) == 10 * (i + 1),
        forall|i: int|
            0 <= i < 9 ==> (#[trigger] fig.tick_offsets@[i]) == 400 - 40 * i,
        fig.left_arrow.start.x.num == 50 * ALTITUDE_RATIO_DEN - 60 * ALTITUDE_RATIO_NUM,
        fig.left_arrow.start.y.num == 370 * ALTITUDE_RATIO_DEN - 100 * ALTITUDE_RATIO_NUM,
        fig.left_arrow.end.x.num == 150 * ALTITUDE_RATIO_DEN - 60 * ALTITUDE_RATIO_NUM,
        fig.left_arrow.end.y.num == 370 * ALTITUDE_RATIO_DEN - 300 * ALTITUDE_RATIO_NUM,
        fig.left_arrow.start.x.den == ALTITUDE_RATIO_DEN,
        fig.left_arrow.start.y.den == ALTITUDE_RATIO_DEN,
        fig.left_arrow.end.x.den == ALTITUDE_RATIO_DEN,
        fig.left_arrow.end.y.den == ALTITUDE_RATIO_DEN,
        fig.right_arrow.start.x.num == 250 * ALTITUDE_RATIO_DEN + 60 * ALTITUDE_RATIO_NUM,
        fig.right_arrow.start.y.num == 370 * ALTITUDE_RATIO_DEN - 300 * ALTITUDE_RATIO_NUM,
        fig.right_arrow.end.x.num == 350 * ALTITUDE_RATIO_DEN + 60 * ALTITUDE_RATIO_NUM,
        fig.right_arrow.end.y.num == 370 * ALTITUDE_RATIO_DEN - 100 * ALTITUDE_RATIO_NUM,
        fig.right_arrow.start.x.den == ALTITUDE_RATIO_DEN,
        fig.right_arrow.start.y.den == ALTITUDE_RATIO_DEN,
        fig.right_arrow.end.x.den == ALTITUDE_RATIO_DEN,
        fig.right_arrow.end.y.den == ALTITUDE_RATIO_DEN,
        fig.bottom_arrow.start.x.num == 300 && fig.bottom_arrow.start.y.num == 460,
        fig.bottom_arrow.end.x.num == 100 && fig.bottom_arrow.end.y.num == 460,
        fig.bottom_arrow_reverse.start.x.num == 100 && fig.bottom_arrow_reverse.start.y.num == 460,
        fig.bottom_arrow_reverse.end.x.num == 300 && fig.bottom_arrow_reverse.end.y.num == 460,
        fig.bottom_arrow.start.x.den == 1 && fig.bottom_arrow.start.y.den == 1,
        fig.bottom_arrow.end.x.den == 1 && fig.bottom_arrow.end.y.den == 1,
        fig.bottom_arrow_reverse.start.x.den == 1 && fig.bottom_arrow_reverse.start.y.den == 1,
        fig.bottom_arrow_reverse.end.x.den == 1 && fig.bottom_arrow_reverse.end.y.den == 1,
{
    let mut draw_lines: Vec<PlotLine> = Vec::new();
    let mut black_lines: Vec<PlotLine> = Vec::new();
    let mut white_lines: Vec<PlotLine> = Vec::new();
    let mut tick_percents: Vec<u32> = Vec::new();
    let mut tick_offsets: Vec<u32> = Vec::new();
    let mut i: u32 = 0;
    while i < 9
        invariant
            0 <= i <= 9,
            draw_lines@.len() == i,
            black_lines@.len() == i,
            white_lines@.len() == i,
            tick_percents@.len() == i,
            tick_offsets@.len() == i,
            forall|p: int|
                0 <= p < i ==> {
                    let line = #[trigger] draw_lines@[p];
                    &&& line.start.x.num == plot_x_num(9 - p, p + 1, 10) - 40 * plot_x_den(10)
                    &&& line.start.x.den == plot_x_den(10)
                    &&& line.start.y.num == plot_y_num(p + 1, 10)
                    &&& line.start.y.den == plot_y_den(10)
                    &&& line.end.x.num == plot_x_num(0, p + 1, 10)
                    &&& line.end.x.den == plot_x_den(10)
                    &&& line.end.y.num == plot_y_num(p + 1, 10)
                    &&& line.end.y.den == plot_y_den(10)
                    &&& line.wf()
                },
            forall|p: int|
                0 <= p < i ==> {
                    let line = #[trigger] black_lines@[p];
                    &&& line.start.x.num == plot_x_num(9 - p, 0, 10)
                    &&& line.start.x.den == plot_x_den(10)
                    &&& line.start.y.num == plot_y_num(0, 10)
                    &&& line.start.y.den == plot_y_den(10)
                    &&& line.end.x.num == plot_x_num(0, 9 - p, 10) + 20 * plot_x_den(10)
                    &&& line.end.x.den == plot_x_den(10)
                    &&& line.end.y.num == plot_y_num(9 - p, 10) - 400 * ALTITUDE_RATIO_NUM
                    &&& line.end.y.den == plot_y_den(10)
                    &&& line.wf()
                },
            forall|p: int|
                0 <= p < i ==> {
                    let line = #[trigger] white_lines@[p];
                    &&& line.start.x.num == plot_x_num(p + 1, 9 - p, 10)
                    &&& line.start.x.den == plot_x_den(10)
                    &&& line.start.y.num == plot_y_num(9 - p, 10)
                    &&& line.start.y.den == plot_y_den(10)
                    &&& line.end.x.num == plot_x_num(p + 1, 0, 10) + 20 * plot_x_den(10)
                    &&& line.end.x.den == plot_x_den(10)
                    &&& line.end.y.num == plot_y_num(0, 10) + 400 * ALTITUDE_RATIO_NUM
                    &&& line.end.y.den == plot_y_den(10)
                    &&& line.wf()
                },
            forall|p: int|
                0 <= p < i ==> (#[trigger] tick_percents@[p]) == 10 * (p + 1),
            forall|p: int|
                0 <= p < i ==> (#[trigger] tick_offsets@[p]) == 400 - 40 * p,
        decreases 9 - i,
    {
        let left = convert_to_plot_coords(&SimplexPoint { num1: 9 - i, num2: i + 1, den: 10 });
        let right_far = convert_to_plot_coords(&SimplexPoint { num1: 0, num2: i + 1, den: 10 });
        draw_lines.push(PlotLine {
            start: PlotPoint {
                x: Frac { num: left.x.num - (TICK_LENGTH as i128) * left.x.den, den: left.x.den },
                y: left.y,
            },
            end: right_far,
        });

        let bottom_far = convert_to_plot_coords(&SimplexPoint { num1: 9 - i, num2: 0, den: 10 });
        let right_near = convert_to_plot_coords(&SimplexPoint { num1: 0, num2: 9 - i, den: 10 });
        black_lines.push(PlotLine {
            start: bottom_far,
            end: PlotPoint {
                x: Frac {
                    num: right_near.x.num + ((TICK_LENGTH / 2) as i128) * right_near.x.den,
                    den: right_near.x.den,
                },
                y: Frac {
                    num: right_near.y.num - ((TICK_LENGTH * NUM_TICKS) as i128) * ALTITUDE_RATIO_NUM,
                    den: right_near.y.den,
                },
            },
        });

        let left_far = convert_to_plot_coords(&SimplexPoint { num1: i + 1, num2: 9 - i, den: 10 });
        let bottom_near = convert_to_plot_coords(&SimplexPoint { num1: i + 1, num2: 0, den: 10 });
        white_lines.push(PlotLine {
            start: left_far,
            end: PlotPoint {
                x: Frac {
                    num: bottom_near.x.num + ((TICK_LENGTH / 2) as i128) * bottom_near.x.den,
                    den: bottom_near.x.den,
                },
                y: Frac {
                    num: bottom_near.y.num + ((TICK_LENGTH * NUM_TICKS) as i128) * ALTITUDE_RATIO_NUM,
                    den: bottom_near.y.den,
                },
            },
        });

        tick_percents.push((100 / NUM_TICKS) * (i + 1));
        tick_offsets.push(SIDE - TICK_LENGTH * i);
        i = i + 1;
    }

    TriangleFigure {
        corner_white: PlotPoint { x: Frac { num: 0, den: 1 }, y: Frac { num: 400, den: 1 } },
        corner_draw: PlotPoint {
            x: Frac { num: 200, den: 1 },
            y: Frac {
                num: 400 * (ALTITUDE_RATIO_DEN - ALTITUDE_RATIO_NUM),
                den: ALTITUDE_RATIO_DEN,
            },
        },
        corner_black: PlotPoint { x: Frac { num: 400, den: 1 }, y: Frac { num: 400, den: 1 } },
        draw_lines,
        black_lines,
        white_lines,
        tick_percents,
        tick_offsets,
        left_arrow: PlotLine {
            start: PlotPoint {
                x: Frac {
                    num: 50 * ALTITUDE_RATIO_DEN - (AXIS_ARROW_SPACE as i128) * ALTITUDE_RATIO_NUM,
                    den: ALTITUDE_RATIO_DEN,
                },
                y: Frac {
                    num: 370 * ALTITUDE_RATIO_DEN - 100 * ALTITUDE_RATIO_NUM,
                    den: ALTITUDE_RATIO_DEN,
                },
            },
            end: PlotPoint {
                x: Frac {
                    num: 150 * ALTITUDE_RATIO_DEN - (AXIS_ARROW_SPACE as i128) * ALTITUDE_RATIO_NUM,
                    den: ALTITUDE_RATIO_DEN,
                },
                y: Frac {
                    num: 370 * ALTITUDE_RATIO_DEN - 300 * ALTITUDE_RATIO_NUM,
                    den: ALTITUDE_RATIO_DEN,
                },
            },
        },
        right_arrow: PlotLine {
            start: PlotPoint {
                x: Frac {
                    num: 250 * ALTITUDE_RATIO_DEN + (AXIS_ARROW_SPACE as i128) * ALTITUDE_RATIO_NUM,
                    den: ALTITUDE_RATIO_DEN,
                },
                y: Frac {
                    num: 370 * ALTITUDE_RATIO_DEN - 300 * ALTITUDE_RATIO_NUM,
                    den: ALTITUDE_RATIO_DEN,
                },
            },
            end: PlotPoint {
                x: Frac {
                    num: 350 * ALTITUDE_RATIO_DEN + (AXIS_ARROW_SPACE as i128) * ALTITUDE_RATIO_NUM,
                    den: ALTITUDE_RATIO_DEN,
                },
                y: Frac {
                    num: 370 * ALTITUDE_RATIO_DEN - 100 * ALTITUDE_RATIO_NUM,
                    den: ALTITUDE_RATIO_DEN,
                },
            },
        },
        bottom_arrow: PlotLine {
            start: PlotPoint { x: Frac { num: 300, den: 1 }, y: Frac { num: 460, den: 1 } },
            end: PlotPoint { x: Frac { num: 100, den: 1 }, y: Frac { num: 460, den: 1 } },
        },
        bottom_arrow_reverse: PlotLine {
            start: PlotPoint { x: Frac { num: 100, den: 1 }, y: Frac { num: 460, den: 1 } },
            end: PlotPoint { x: Frac { num: 300, den: 1 }, y: Frac { num: 460, den: 1 } },
        },
    }
}

} // verus!
