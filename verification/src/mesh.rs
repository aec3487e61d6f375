use vstd::prelude::*;
use vstd::arithmetic::div_mod::{lemma_fundamental_div_mod, lemma_fundamental_div_mod_converse};

verus! {

/// A point of the 2-simplex with exact rational coordinates `num1/den`
/// and `num2/den`; the implied third coordinate is `(den - num1 - num2)/den`.
#[derive(PartialEq, Eq, Structural, Clone, Copy, Debug)]
pub struct SimplexPoint {
    pub num1: u32,
    pub num2: u32,
    pub den: u32,
}

impl SimplexPoint {
    /// A valid simplex point: positive denominator, coordinates non-negative
    /// and summing to at most one.
    pub open spec fn wf(self) -> bool {
        self.den > 0 && self.num1 + self.num2 <= self.den
    }
}

/// One cell of the uniform triangular subdivision of the simplex.
#[derive(PartialEq, Eq, Structural, Clone, Copy, Debug)]
pub struct Triangle {
    pub point1: SimplexPoint,
    pub point2: SimplexPoint,
    pub point3: SimplexPoint,
}

impl Triangle {
    pub open spec fn wf(self) -> bool {
        self.point1.wf() && self.point2.wf() && self.point3.wf()
    }
}

/// Grid coordinates (numerators over `num_rows`) of the vertex that the
/// sliding window of row `r` introduces at step `i`; steps `-1` and `0`
/// stand for the two vertices in place before the first triangle of the row.
/// Even steps take the vertex from the upper edge of the row's strip, odd
/// steps from the lower edge.
pub open spec fn strip_vertex(n: int, r: int, i: int) -> (int, int) {
    if i % 2 == 0 {
        (r - 1 - i / 2, n - r + 1)
    } else {
        (r - (i + 1) / 2, n - r)
    }
}

/// Grid coordinates of the three vertices of triangle `i` (1-based) of row `r`.
pub open spec fn tri_vertices(n: int, r: int, i: int) -> ((int, int), (int, int), (int, int)) {
    (strip_vertex(n, r, i - 2), strip_vertex(n, r, i - 1), strip_vertex(n, r, i))
}

/// The triangles of row `r`, in order of emission.
pub open spec fn row_seq(n: int, r: int) -> Seq<((int, int), (int, int), (int, int))> {
    Seq::new((2 * r - 1) as nat, |i: int| tri_vertices(n, r, i + 1))
}

/// The triangles of rows `1..=r`, concatenated in row-major order.
pub open spec fn mesh_rows(n: int, r: int) -> Seq<((int, int), (int, int), (int, int))>
    decreases r,
{
    if r <= 0 {
        Seq::empty()
    } else {
        mesh_rows(n, r - 1) + row_seq(n, r)
    }
}

/// An executable triangle holds exactly the grid vertices `v` over denominator `n`.
pub open spec fn tri_matches(t: Triangle, n: int, v: ((int, int), (int, int), (int, int))) -> bool {
    &&& t.point1.num1 == v.0.0 && t.point1.num2 == v.0.1 && t.point1.den == n
    &&& t.point2.num1 == v.1.0 && t.point2.num2 == v.1.1 && t.point2.den == n
    &&& t.point3.num1 == v.2.0 && t.point3.num2 == v.2.1 && t.point3.den == n
}

pub proof fn lemma_mesh_rows_len(n: int, r: int)
    requires
        r >= 0,
    ensures
        mesh_rows(n, r).len() == r * r,
    decreases r,
{
    if r > 0 {
        lemma_mesh_rows_len(n, r - 1);
        assert(mesh_rows(n, r) == mesh_rows(n, r - 1) + row_seq(n, r));
        assert(mesh_rows(n, r).len() == mesh_rows(n, r - 1).len() + row_seq(n, r).len());
        assert(row_seq(n, r).len() == 2 * r - 1);
        assert((r - 1) * (r - 1) + (2 * r - 1) == r * r) by (nonlinear_arith);
    } else {
        assert(r * r == 0) by (nonlinear_arith)
            requires r == 0;
    }
}

/// Division and remainder by two, split by parity of `i`, for the steps
/// adjacent to step `i` of a row's sliding window.
proof fn lemma_parity_halves(i: int)
    requires
        i >= 1,
    ensures
        i % 2 == 1 ==> (i + 1) / 2 == i / 2 + 1 && (i - 1) / 2 == i / 2 && (i - 1) % 2 == 0
            && (i - 2) % 2 == 1,
        i % 2 == 0 ==> (i - 2) / 2 == i / 2 - 1 && (i - 2) % 2 == 0 && (i - 1) % 2 == 1
            && (i - 1) / 2 == i / 2 - 1,
{
    lemma_fundamental_div_mod(i, 2);
    let q: int = i / 2;
    if i % 2 == 1 {
        lemma_fundamental_div_mod_converse(i + 1, 2, q + 1, 0);
        lemma_fundamental_div_mod_converse(i - 1, 2, q, 0);
        lemma_fundamental_div_mod_converse(i - 2, 2, q - 1, 1);
    } else {
        lemma_fundamental_div_mod_converse(i + 1, 2, q, 1);
        lemma_fundamental_div_mod_converse(i - 1, 2, q - 1, 1);
        lemma_fundamental_div_mod_converse(i - 2, 2, q - 1, 0);
    }
}

pub proof fn lemma_mesh_rows_index(n: int, r: int, rr: int, i: int)
    requires
        1 <= rr <= r,
        1 <= i <= 2 * rr - 1,
    ensures
        mesh_rows(n, r).len() == r * r,
        0 <= (rr - 1) * (rr - 1) + i - 1 < r * r,
        mesh_rows(n, r)[(rr - 1) * (rr - 1) + i - 1] == tri_vertices(n, rr, i),
    decreases r,
{
    lemma_mesh_rows_len(n, r);
    lemma_mesh_rows_len(n, r - 1);
    assert((rr - 1) * (rr - 1) + i - 1 < r * r) by (nonlinear_arith)
        requires 1 <= rr <= r, 1 <= i <= 2 * rr - 1;
    if rr == r {
        assert(mesh_rows(n, r) == mesh_rows(n, r - 1) + row_seq(n, r));
        assert(mesh_rows(n, r)[(rr - 1) * (rr - 1) + i - 1] == row_seq(n, r)[i - 1]);
    } else {
        lemma_mesh_rows_index(n, r - 1, rr, i);
        assert((rr - 1) * (rr - 1) + i - 1 < (r - 1) * (r - 1)) by (nonlinear_arith)
            requires 1 <= rr <= r - 1, 1 <= i <= 2 * rr - 1;
    }
}

/// Every vertex a row's sliding window can introduce is a valid grid point:
/// non-negative coordinates summing to at most `n`.
pub proof fn lemma_strip_vertex_valid(n: int, r: int, j: int)
    requires
        1 <= r <= n,
        -1 <= j <= 2 * r - 1,
    ensures
        0 <= strip_vertex(n, r, j).0,
        0 <= strip_vertex(n, r, j).1,
        strip_vertex(n, r, j).0 + strip_vertex(n, r, j).1 <= n,
{
    lemma_fundamental_div_mod(j, 2);
    lemma_fundamental_div_mod(j + 1, 2);
}

/// Twice the signed area of a triangle with the given grid vertices, in grid
/// units (the whole simplex has `n * n` such units of doubled area).
pub open spec fn doubled_grid_area(v: ((int, int), (int, int), (int, int))) -> int {
    (v.1.0 - v.0.0) * (v.2.1 - v.0.1) - (v.1.1 - v.0.1) * (v.2.0 - v.0.0)
}

/// Every cell of the subdivision covers exactly one grid unit of doubled
/// area; the orientation alternates along each row, upward triangles (odd
/// steps) positive, downward ones (even steps) negative.
pub proof fn lemma_cell_area(n: int, r: int, i: int)
    requires
        1 <= i,
    ensures
        doubled_grid_area(tri_vertices(n, r, i)) == if i % 2 == 1 { 1int } else { -1int },
{
    lemma_parity_halves(i);
    let v = tri_vertices(n, r, i);
    let a1: int = v.1.0 - v.0.0;
    let a2: int = v.2.1 - v.0.1;
    let b1: int = v.1.1 - v.0.1;
    let b2: int = v.2.0 - v.0.0;
    if i % 2 == 1 {
        assert(v.0 == (r - i / 2, n - r));
        assert(v.1 == (r - 1 - i / 2, n - r + 1));
        assert(v.2 == (r - 1 - i / 2, n - r));
        assert(a1 * a2 - b1 * b2 == 1) by (nonlinear_arith)
            requires a1 == -1, a2 == 0, b1 == 1, b2 == -1;
    } else {
        assert(v.0 == (r - i / 2, n - r + 1));
        assert(v.1 == (r - i / 2, n - r));
        assert(v.2 == (r - 1 - i / 2, n - r + 1));
        assert(a1 * a2 - b1 * b2 == -1) by (nonlinear_arith)
            requires a1 == 0, a2 == 0, b1 == -1, b2 == -1;
    }
}

/// The subdivision at resolution `n` tiles the simplex: it has exactly
/// `n * n` cells, and every cell covers exactly one grid unit of doubled
/// area. The simplex itself covers `n * n` such units, so the cells' areas
/// sum to the whole simplex: one, in simplex-probability units.
pub proof fn lemma_mesh_tiles(n: int)
    requires
        n >= 0,
    ensures
        mesh_rows(n, n).len() == n * n,
        forall|k: int|
            0 <= k < n * n ==> doubled_grid_area(#[trigger] mesh_rows(n, n)[k]) == 1
                || doubled_grid_area(mesh_rows(n, n)[k]) == -1,
{
    lemma_mesh_rows_area(n, n);
}

proof fn lemma_mesh_rows_area(n: int, r: int)
    requires
        r >= 0,
    ensures
        mesh_rows(n, r).len() == r * r,
        forall|k: int|
            0 <= k < r * r ==> doubled_grid_area(#[trigger] mesh_rows(n, r)[k]) == 1
                || doubled_grid_area(mesh_rows(n, r)[k]) == -1,
    decreases r,
{
    lemma_mesh_rows_len(n, r);
    if r > 0 {
        lemma_mesh_rows_area(n, r - 1);
        lemma_mesh_rows_len(n, r - 1);
        assert(mesh_rows(n, r) == mesh_rows(n, r - 1) + row_seq(n, r));
        assert forall|k: int|
            0 <= k < r * r implies doubled_grid_area(#[trigger] mesh_rows(n, r)[k]) == 1
            || doubled_grid_area(mesh_rows(n, r)[k]) == -1 by {
            if k < (r - 1) * (r - 1) {
                assert(mesh_rows(n, r)[k] == mesh_rows(n, r - 1)[k]);
            } else {
                let i: int = k - (r - 1) * (r - 1) + 1;
                assert((r - 1) * (r - 1) + (2 * r - 1) == r * r) by (nonlinear_arith);
                assert(mesh_rows(n, r)[k] == row_seq(n, r)[k - (r - 1) * (r - 1)]);
                assert(row_seq(n, r)[i - 1] == tri_vertices(n, r, i));
                lemma_cell_area(n, r, i);
            }
        }
    }
}

/// Restartable enumerator of the cells of the uniform subdivision of the
/// simplex at resolution `num_rows`: rows are walked from the apex toward
/// the base, each row sliding a three-vertex window across its strip.
pub struct TriangleIterator {
    row: u32,
    index: u32,
    num_rows: u32,
    point1: SimplexPoint,
    point2: SimplexPoint,
    point3: SimplexPoint,
}

impl TriangleIterator {
    pub closed spec fn wf(self) -> bool {
        let n: int = self.num_rows as int;
        let r: int = self.row as int;
        let i: int = self.index as int;
        &&& self.num_rows <= 0xFFFF
        &&& {
            ||| (r == 0 && i == 0)
            ||| (1 <= r <= n && 1 <= i <= 2 * r - 1 && tri_matches(
                Triangle { point1: self.point1, point2: self.point2, point3: self.point3 },
                n,
                tri_vertices(n, r, i),
            ))
            ||| r == n + 1
        }
    }

    /// The resolution this enumerator was started with.
    pub closed spec fn resolution(self) -> int {
        self.num_rows as int
    }

    /// How many triangles have been handed out so far.
    pub closed spec fn emitted(self) -> int {
        let n: int = self.num_rows as int;
        if self.row == 0 {
            0
        } else if self.row > self.num_rows {
            n * n
        } else {
            (self.row - 1) * (self.row - 1) + self.index
        }
    }

    /// Hands out the next cell of the subdivision, in row-major order, or
    /// `None` once all `resolution * resolution` cells have been produced.
    pub fn next(&mut self) -> (res: Option<Triangle>)
        requires
            old(self).wf(),
        ensures
            final(self).wf(),
            final(self).resolution() == old(self).resolution(),
            old(self).emitted() < old(self).resolution() * old(self).resolution() ==> {
                &&& res is Some
                &&& final(self).emitted() == old(self).emitted() + 1
                &&& tri_matches(
                    res->Some_0,
                    old(self).resolution(),
                    mesh_rows(old(self).resolution(), old(self).resolution())[old(self).emitted()],
                )
                &&& res->Some_0.wf()
            },
            old(self).emitted() >= old(self).resolution() * old(self).resolution() ==> {
                &&& res is None
                &&& final(self).emitted() == old(self).emitted()
            },
    {
        let ghost n: int = self.num_rows as int;
        proof {
            lemma_mesh_rows_len(n, n);
        }
        if self.row > self.num_rows {
            proof {
                assert(self.emitted() == n * n);
            }
            return None;
        }
        proof {
            if self.row as int == n {
                assert((n - 1) * (n - 1) + (2 * n - 1) == n * n) by (nonlinear_arith);
            } else if self.row >= 1 {
                assert((self.row as int - 1) * (self.row as int - 1) + (self.index as int) < n * n)
                    by (nonlinear_arith)
                    requires 1 <= self.row as int <= n - 1, self.index as int <= 2 * self.row as int - 1;
            } else {
                assert(n * n >= 0) by (nonlinear_arith);
            }
        }
        self.index = self.index + 1;
        if self.index >= 2 * self.row {
            self.row = self.row + 1;
            if self.row > self.num_rows {
                proof {
                    assert(old(self).emitted() == n * n);
                }
                return None;
            }

            let r: u32 = self.row;
            self.point1 = SimplexPoint { num1: r, num2: self.num_rows - r, den: self.num_rows };
            self.point2 = SimplexPoint {
                num1: r - 1,
                num2: self.num_rows - r + 1,
                den: self.num_rows,
            };
            self.point3 = SimplexPoint { num1: r - 1, num2: self.num_rows - r, den: self.num_rows };

            self.index = 1;
            proof {
                let r: int = self.row as int;
                assert(strip_vertex(n, r, -1) == (r, n - r));
                assert(strip_vertex(n, r, 0) == (r - 1, n - r + 1));
                assert(strip_vertex(n, r, 1) == (r - 1, n - r));
                lemma_mesh_rows_index(n, n, r, 1);
                let e: int = old(self).emitted();
                assert((r - 1) * (r - 1) == e) by (nonlinear_arith)
                    requires e == if r == 1 { 0int } else { (r - 2) * (r - 2) + (2 * (r - 1) - 1) };
            }
        } else {
            let ghost r: int = self.row as int;
            let ghost iold: int = old(self).index as int;
            proof {
                assert(1 <= r <= n && 1 <= iold <= 2 * r - 2);
                lemma_strip_vertex_valid(n, r, iold + 1);
            }
            self.point1 = self.point2;
            self.point2 = self.point3;
            let idx: u32 = self.index;
            proof {
                assert(idx as int == iold + 1);
                lemma_fundamental_div_mod(idx as int, 2);
                lemma_fundamental_div_mod(idx as int - 1, 2);
                assert(self.row as int - (idx as int - 1) % 2 <= self.num_rows as int);
            }
            self.point3 = SimplexPoint {
                num1: self.row - 1 - idx / 2,
                num2: self.num_rows - self.row + (idx - 1) % 2,
                den: self.num_rows,
            };
            proof {
                let i: int = idx as int;
                lemma_parity_halves(i);
                if i % 2 == 1 {
                    assert(strip_vertex(n, r, i) == (r - 1 - i / 2, n - r));
                } else {
                    assert(strip_vertex(n, r, i) == (r - 1 - i / 2, n - r + 1));
                }
                lemma_mesh_rows_index(n, n, r, i);
                assert((r - 1) * (r - 1) + iold == old(self).emitted());
            }
        }
        proof {
            let r: int = self.row as int;
            let i: int = self.index as int;
            lemma_strip_vertex_valid(n, r, i - 2);
            lemma_strip_vertex_valid(n, r, i - 1);
            lemma_strip_vertex_valid(n, r, i);
        }
        Some(Triangle { point1: self.point1, point2: self.point2, point3: self.point3 })
    }
}

/// Starts an enumeration of the `num_rows * num_rows` cells of the uniform
/// subdivision of the simplex with each edge divided into `num_rows` parts.
pub fn iterate_triangles(num_rows: u32) -> (it: TriangleIterator)
    requires
        num_rows <= 0xFFFF,
    ensures
        it.wf(),
        it.resolution() == num_rows,
        it.emitted() == 0,
{
    TriangleIterator {
        row: 0,
        index: 0,
        num_rows,
        point1: SimplexPoint { num1: 0, num2: 0, den: 1 },
        point2: SimplexPoint { num1: 0, num2: 0, den: 1 },
        point3: SimplexPoint { num1: 0, num2: 0, den: 1 },
    }
}

/// All cells of the subdivision at the given resolution, eagerly collected
/// in row-major order: exactly `resolution * resolution` triangles, each one
/// a valid cell of the mesh.
pub fn subdivide(resolution: u32) -> (cells: Vec<Triangle>)
    requires
        resolution <= 0xFFFF,
    ensures
        cells@.len() == resolution * resolution,
        forall|k: int|
            0 <= k < cells@.len() ==> #[trigger] tri_matches(
                cells@[k],
                resolution as int,
                mesh_rows(resolution as int, resolution as int)[k],
            ),
        forall|k: int| 0 <= k < cells@.len() ==> (#[trigger] cells@[k]).wf(),
{
    let ghost n: int = resolution as int;
    proof {
        lemma_mesh_rows_len(n, n);
        assert(n * n <= 0xFFFF * 0xFFFF) by (nonlinear_arith)
            requires 0 <= n <= 0xFFFF;
    }
    let target: usize = (resolution as usize) * (resolution as usize);
    let mut it = iterate_triangles(resolution);
    let mut cells: Vec<Triangle> = Vec::new();
    while cells.len() < target
        invariant
            it.wf(),
            it.resolution() == n,
            target == n * n,
            0 <= it.emitted() <= n * n,
            cells@.len() == it.emitted(),
            forall|k: int|
                0 <= k < cells@.len() ==> #[trigger] tri_matches(
                    cells@[k],
                    n,
                    mesh_rows(n, n)[k],
                ),
            forall|k: int| 0 <= k < cells@.len() ==> (#[trigger] cells@[k]).wf(),
        decreases n * n - it.emitted(),
    {
        let t = it.next();
        cells.push(t.unwrap());
    }
    cells
}

} // verus!
