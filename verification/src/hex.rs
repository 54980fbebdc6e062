//! Axial hex coordinates, the hex distance metric, adjacency, and
//! hexagonal field generation.

use vstd::prelude::*;

verus! {

broadcast use vstd::seq_lib::lemma_seq_contains_after_push;

/// An axial coordinate on a hexagonal grid. A value type: equality is by
/// `(q, r)`, and a coordinate is never mutated in place — movement replaces
/// an entity's position with a new value.
#[derive(Clone, Copy, PartialEq, Eq, Structural, Debug, Hash)]
pub struct Hexagon {
    pub q: i32,
    pub r: i32,
}

pub open spec fn abs_val(x: int) -> int {
    if x < 0 { -x } else { x }
}

/// The hex (cube/axial) distance:
/// `(|a.q − b.q| + |a.r − b.r| + |(a.q + a.r) − (b.q + b.r)|) / 2`.
pub open spec fn hex_distance(a: Hexagon, b: Hexagon) -> int {
    (abs_val(a.q - b.q) + abs_val(a.r - b.r) + abs_val((a.q + a.r) - (b.q + b.r))) / 2
}

/// The same metric as the largest of the three cube-coordinate differences.
pub open spec fn hex_distance_max_form(a: Hexagon, b: Hexagon) -> int {
    max3(
        abs_val(a.q - b.q),
        abs_val(a.r - b.r),
        abs_val((a.q + a.r) - (b.q + b.r)),
    )
}

pub open spec fn max3(x: int, y: int, z: int) -> int {
    if x >= y && x >= z {
        x
    } else if y >= z {
        y
    } else {
        z
    }
}

/// Of the three cube differences, the two smaller ones sum to the largest,
/// so the halved sum of absolute values equals their maximum.
pub proof fn lemma_distance_max_form(a: Hexagon, b: Hexagon)
    ensures
        hex_distance(a, b) == hex_distance_max_form(a, b),
{
    let dq = a.q - b.q;
    let dr = a.r - b.r;
    assert(abs_val(dq) + abs_val(dr) + abs_val(dq + dr) == 2 * max3(
        abs_val(dq),
        abs_val(dr),
        abs_val(dq + dr),
    ));
}

/// `distance(a, a) == 0`, and the distance is zero only between equal
/// coordinates.
pub proof fn lemma_distance_zero(a: Hexagon, b: Hexagon)
    ensures
        hex_distance(a, a) == 0,
        hex_distance(a, b) == 0 <==> a == b,
{
    lemma_distance_max_form(a, b);
}

/// The hex distance is symmetric.
pub proof fn lemma_distance_symmetric(a: Hexagon, b: Hexagon)
    ensures
        hex_distance(a, b) == hex_distance(b, a),
{
}

/// The hex distance satisfies the triangle inequality.
pub proof fn lemma_distance_triangle(a: Hexagon, b: Hexagon, c: Hexagon)
    ensures
        hex_distance(a, b) <= hex_distance(a, c) + hex_distance(c, b),
{
    lemma_distance_max_form(a, b);
    lemma_distance_max_form(a, c);
    lemma_distance_max_form(c, b);
}

/// The hex distance is never negative.
pub proof fn lemma_distance_nonnegative(a: Hexagon, b: Hexagon)
    ensures
        hex_distance(a, b) >= 0,
{
    lemma_distance_max_form(a, b);
}

impl Hexagon {
    /// Builds the coordinate from its two axial components.
    pub fn new_axial(q: i32, r: i32) -> (h: Hexagon)
        ensures
            h == (Hexagon { q, r }),
    {
        Hexagon { q, r }
    }

    pub fn get_q(&self) -> (q: i32)
        ensures
            q == self.q,
    {
        self.q
    }

    pub fn get_r(&self) -> (r: i32)
        ensures
            r == self.r,
    {
        self.r
    }

    /// The hex distance between two coordinates; total over all coordinate
    /// values, so the result is widened.
    pub fn distance_to(&self, other: &Hexagon) -> (d: i64)
        ensures
            d == hex_distance(*self, *other),
            d >= 0,
    {
        let dq: i64 = self.q as i64 - other.q as i64;
        let dr: i64 = self.r as i64 - other.r as i64;
        let ds: i64 = dq + dr;
        let adq: i64 = if dq < 0 { -dq } else { dq };
        let adr: i64 = if dr < 0 { -dr } else { dr };
        let ads: i64 = if ds < 0 { -ds } else { ds };
        proof {
            lemma_distance_nonnegative(*self, *other);
        }
        (adq + adr + ads) / 2
    }

    /// Two coordinates are neighbours exactly when their distance is 1.
    pub fn is_neighbour(&self, other: &Hexagon) -> (b: bool)
        ensures
            b <==> hex_distance(*self, *other) == 1,
    {
        self.distance_to(other) == 1
    }
}

/// Two cells are at distance 1 exactly when their coordinate difference is
/// one of the six axial direction offsets.
pub proof fn lemma_neighbour_offsets(a: Hexagon, b: Hexagon)
    ensures
        hex_distance(a, b) == 1 <==> {
            let dq = b.q - a.q;
            let dr = b.r - a.r;
            ||| (dq, dr) == (1int, 0int)
            ||| (dq, dr) == (1int, -1int)
            ||| (dq, dr) == (0int, -1int)
            ||| (dq, dr) == (-1int, 0int)
            ||| (dq, dr) == (-1int, 1int)
            ||| (dq, dr) == (0int, 1int)
        },
{
    lemma_distance_max_form(a, b);
}

/// Membership in the hexagonal field of the given radius, centred at the
/// origin: `|q| <= radius`, `|r| <= radius`, `|q + r| <= radius`.
pub open spec fn in_field(h: Hexagon, radius: int) -> bool {
    &&& abs_val(h.q as int) <= radius
    &&& abs_val(h.r as int) <= radius
    &&& abs_val(h.q + h.r) <= radius
}

/// Largest field radius the crate works with, so that cell coordinates, grid
/// indices and loop counters all stay well inside the machine integer types.
pub const MAX_FIELD_RADIUS: i32 = 0x3fff;

/// Cells of the field in the rows strictly before column `q`: row `j` of a
/// radius-`R` field holds `2R + 1 - |j|` cells.
pub open spec fn rows_total(radius: int, q: int) -> int
    decreases q + radius,
{
    if q <= -radius {
        0
    } else {
        rows_total(radius, q - 1) + (2 * radius + 1 - abs_val(q - 1))
    }
}

/// Twice the row sum, in closed form, to keep the arithmetic division-free.
pub open spec fn twice_rows_total(radius: int, q: int) -> int {
    if q <= 0 {
        (q + radius) * (3 * radius + q + 1)
    } else {
        radius * (3 * radius + 1) + 2 * q * (2 * radius + 1) - q * (q - 1)
    }
}

proof fn lemma_rows_total_closed(radius: int, q: int)
    requires
        0 <= radius,
        -radius <= q <= radius + 1,
    ensures
        2 * rows_total(radius, q) == twice_rows_total(radius, q),
    decreases q + radius,
{
    if q > -radius {
        lemma_rows_total_closed(radius, q - 1);
        assert(2 * rows_total(radius, q) == twice_rows_total(radius, q - 1) + 2 * (2 * radius + 1
            - abs_val(q - 1)));
        assert(twice_rows_total(radius, q - 1) + 2 * (2 * radius + 1 - abs_val(q - 1))
            == twice_rows_total(radius, q)) by (nonlinear_arith)
            requires
                0 <= radius,
                -radius < q <= radius + 1,
        ;
    } else {
        assert(twice_rows_total(radius, q) == 0) by (nonlinear_arith)
            requires
                q == -radius,
                0 <= radius,
        ;
    }
}

/// The whole field: `3·radius² + 3·radius + 1` cells.
pub proof fn lemma_field_cell_count(radius: int)
    requires
        0 <= radius,
    ensures
        rows_total(radius, radius + 1) == 3 * radius * radius + 3 * radius + 1,
{
    lemma_rows_total_closed(radius, radius + 1);
    assert(twice_rows_total(radius, radius + 1) == 2 * (3 * radius * radius + 3 * radius + 1))
        by (nonlinear_arith)
        requires
            0 <= radius,
    ;
}

/// Cells of row `q` in the columns strictly before `r`.
pub open spec fn row_prefix(radius: int, q: int, r: int) -> int {
    let lo = if -q - radius > -radius {
        -q - radius
    } else {
        -radius
    };
    let hi = if -q + radius < radius {
        -q + radius
    } else {
        radius
    };
    if r <= lo {
        0
    } else if r > hi {
        hi - lo + 1
    } else {
        r - lo
    }
}

/// All coordinates of the hexagonal field of the given radius, each exactly
/// once — `3·radius² + 3·radius + 1` of them.
pub fn generate_field(radius: i32) -> (field: Vec<Hexagon>)
    requires
        0 <= radius <= MAX_FIELD_RADIUS,
    ensures
        forall|h: Hexagon| #[trigger] field@.contains(h) <==> in_field(h, radius as int),
        forall|i: int, j: int| 0 <= i < j < field@.len() ==> field@[i] != field@[j],
        field@.len() == 3 * (radius as int) * (radius as int) + 3 * radius + 1,
{
    let mut field: Vec<Hexagon> = Vec::new();
    let mut q: i32 = -radius;
    while q <= radius
        invariant
            0 <= radius <= MAX_FIELD_RADIUS,
            -radius <= q <= radius + 1,
            forall|h: Hexagon|
                #[trigger] field@.contains(h) <==> (in_field(h, radius as int) && h.q < q),
            forall|i: int, j: int| 0 <= i < j < field@.len() ==> field@[i] != field@[j],
            field@.len() == rows_total(radius as int, q as int),
        decreases radius + 1 - q,
    {
        let mut r: i32 = -radius;
        while r <= radius
            invariant
                0 <= radius <= MAX_FIELD_RADIUS,
                -radius <= q <= radius,
                -radius <= r <= radius + 1,
                forall|h: Hexagon|
                    #[trigger] field@.contains(h) <==> (in_field(h, radius as int) && (h.q < q
                        || (h.q == q && h.r < r))),
                forall|i: int, j: int| 0 <= i < j < field@.len() ==> field@[i] != field@[j],
                field@.len() == rows_total(radius as int, q as int) + row_prefix(
                    radius as int,
                    q as int,
                    r as int,
                ),
            decreases radius + 1 - r,
        {
            let s: i32 = q + r;
            if -radius <= s && s <= radius {
                let h = Hexagon { q, r };
                proof {
                    let pre = field@;
                    assert forall|i: int| 0 <= i < pre.len() implies pre[i] != h by {
                        assert(pre.contains(pre[i]));
                    }
                }
                field.push(h);
            }
            r = r + 1;
        }
        q = q + 1;
    }
    proof {
        lemma_field_cell_count(radius as int);
    }
    field
}

} // verus!
