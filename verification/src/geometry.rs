//! Integer geometry: the floor of a square root, discs and their outlines.

use vstd::prelude::*;

verus! {

/// `root` is the integer square root of `n`: the largest number whose square
/// does not exceed `n`.
pub open spec fn is_root(n: int, root: int) -> bool {
    0 <= root && root * root <= n < (root + 1) * (root + 1)
}

/// The integer square root, and zero of a number that is not positive.
pub open spec fn floor_sqrt(n: int) -> int
    decreases n,
{
    if n <= 0 {
        0
    } else {
        let below = floor_sqrt(n - 1);
        if (below + 1) * (below + 1) <= n {
            below + 1
        } else {
            below
        }
    }
}

/// The distance of a coordinate from zero.
pub open spec fn dist(d: int) -> int {
    if d < 0 {
        -d
    } else {
        d
    }
}

/// The offset `(dx, dy)` from the centre lies in the disc of radius `r`.
pub open spec fn in_disc(dx: int, dy: int, r: int) -> bool {
    0 <= r && dx * dx + dy * dy <= r * r
}

/// The offset lies in the disc and the next one outwards in its row does not.
pub open spec fn row_end(dx: int, dy: int, r: int) -> bool {
    in_disc(dx, dy, r) && !in_disc(dist(dx) + 1, dy, r)
}

/// The offset lies in the disc and the next one outwards in its column does not.
pub open spec fn column_end(dx: int, dy: int, r: int) -> bool {
    in_disc(dx, dy, r) && !in_disc(dx, dist(dy) + 1, r)
}

/// The outline of a disc: the ends of its rows and the ends of its columns.
pub open spec fn on_circle(dx: int, dy: int, r: int) -> bool {
    row_end(dx, dy, r) || column_end(dx, dy, r)
}

/// `floor_sqrt` is the integer square root of every number that has one.
pub proof fn law_floor_sqrt_is_root(n: int)
    requires
        0 <= n,
    ensures
        is_root(n, floor_sqrt(n)),
    decreases n,
{
    if n > 0 {
        law_floor_sqrt_is_root(n - 1);
        let s = floor_sqrt(n - 1);
        assert((s + 2) * (s + 2) > (s + 1) * (s + 1)) by (nonlinear_arith)
            requires
                0 <= s,
        ;
    }
}

/// A number has one integer square root.
pub proof fn law_root_is_unique(n: int, a: int, b: int)
    requires
        is_root(n, a),
        is_root(n, b),
    ensures
        a == b,
{
    assert(a == b) by (nonlinear_arith)
        requires
            0 <= a,
            0 <= b,
            a * a <= n < (a + 1) * (a + 1),
            b * b <= n < (b + 1) * (b + 1),
    ;
}

/// The integer square root of a square is its side.
pub proof fn law_root_of_square(r: int)
    requires
        0 <= r,
    ensures
        floor_sqrt(r * r) == r,
{
    assert(0 <= r * r < (r + 1) * (r + 1)) by (nonlinear_arith)
        requires
            0 <= r,
    ;
    law_floor_sqrt_is_root(r * r);
    law_root_is_unique(r * r, floor_sqrt(r * r), r);
}

/// The integer square root grows with its argument.
pub proof fn law_root_is_monotone(m: int, n: int)
    requires
        m <= n,
    ensures
        floor_sqrt(m) <= floor_sqrt(n),
{
    if m > 0 {
        law_floor_sqrt_is_root(m);
        law_floor_sqrt_is_root(n);
        let a = floor_sqrt(m);
        let b = floor_sqrt(n);
        assert(a <= b) by (nonlinear_arith)
            requires
                0 <= a,
                0 <= b,
                a * a <= m,
                m <= n,
                n < (b + 1) * (b + 1),
        ;
    } else {
        if n > 0 {
            law_floor_sqrt_is_root(n);
        }
    }
}

/// A row of a disc is the span that reaches `half` to each side of the centre,
/// where `half` is the root of what the row leaves of the squared radius.
pub proof fn lemma_disc_row(dx: int, dy: int, r: int, half: int)
    requires
        0 <= r,
        -r <= dy <= r,
        is_root(r * r - dy * dy, half),
    ensures
        in_disc(dx, dy, r) <==> -half <= dx <= half,
        half <= r,
{
    assert(dx * dx <= half * half <==> -half <= dx <= half) by (nonlinear_arith)
        requires
            0 <= half,
    ;
    assert(dx * dx >= (half + 1) * (half + 1) <==> !(-half <= dx <= half)) by (nonlinear_arith)
        requires
            0 <= half,
    ;
    assert(half <= r) by (nonlinear_arith)
        requires
            0 <= half,
            0 <= r,
            half * half <= r * r - dy * dy,
    ;
}

/// What a row leaves of the squared radius is a machine number.
pub proof fn lemma_disc_row_range(dy: int, r: int)
    requires
        0 <= r <= 46340,
        -r <= dy <= r,
    ensures
        0 <= dy * dy <= r * r <= 2147395600,
{
    assert(0 <= dy * dy <= r * r) by (nonlinear_arith)
        requires
            0 <= r,
            -r <= dy <= r,
    ;
    assert(r * r <= 46340 * 46340) by (nonlinear_arith)
        requires
            0 <= r <= 46340,
    ;
}

/// A disc has no pixel in the rows and columns beyond its radius.
pub proof fn lemma_disc_bounds(dx: int, dy: int, r: int)
    requires
        in_disc(dx, dy, r),
    ensures
        -r <= dx <= r,
        -r <= dy <= r,
{
    assert(-r <= dx <= r && -r <= dy <= r) by (nonlinear_arith)
        requires
            0 <= r,
            dx * dx + dy * dy <= r * r,
    ;
}

/// A disc is its own mirror image in both axes and in the diagonal.
pub proof fn law_disc_is_symmetric(dx: int, dy: int, r: int)
    ensures
        in_disc(dx, dy, r) == in_disc(-dx, dy, r),
        in_disc(dx, dy, r) == in_disc(dx, -dy, r),
        in_disc(dx, dy, r) == in_disc(dy, dx, r),
{
    assert((-dx) * (-dx) == dx * dx && (-dy) * (-dy) == dy * dy) by (nonlinear_arith);
}

/// The outer pixels of a row of the disc are the two that stand `half` from
/// the centre.
pub proof fn lemma_row_ends(dx: int, dy: int, r: int, half: int)
    requires
        0 <= r,
        -r <= dy <= r,
        is_root(r * r - dy * dy, half),
    ensures
        row_end(dx, dy, r) <==> dist(dx) == half,
        column_end(dy, dx, r) <==> dist(dx) == half,
{
    lemma_disc_row(dx, dy, r, half);
    lemma_disc_row(dist(dx) + 1, dy, r, half);
    law_disc_is_symmetric(dx, dy, r);
    law_disc_is_symmetric(dist(dx) + 1, dy, r);
}

/// An outline is its own mirror image in both axes and in the diagonal.
pub proof fn law_outline_is_symmetric(dx: int, dy: int, r: int)
    ensures
        on_circle(dx, dy, r) == on_circle(-dx, dy, r),
        on_circle(dx, dy, r) == on_circle(dx, -dy, r),
        on_circle(dx, dy, r) == on_circle(dy, dx, r),
{
    law_disc_is_symmetric(dx, dy, r);
    law_disc_is_symmetric(dist(dx) + 1, dy, r);
    law_disc_is_symmetric(dx, dist(dy) + 1, r);
}

/// An outline lies in its disc.
pub proof fn law_outline_lies_in_disc(dx: int, dy: int, r: int)
    requires
        on_circle(dx, dy, r),
    ensures
        in_disc(dx, dy, r),
{
}

/// An outline, walked along a quarter from its top to its side, has no gap:
/// next to every pixel of it but the last, straight or diagonally, stands
/// another one further down or further out. By symmetry the same holds of the
/// other quarters.
pub proof fn law_outline_has_no_gap(dx: int, dy: int, r: int)
    requires
        on_circle(dx, dy, r),
        0 <= dx,
        0 < dy,
    ensures
        on_circle(dx, dy - 1, r) || on_circle(dx + 1, dy - 1, r) || on_circle(dx + 1, dy, r),
{
    assert((dy - 1) * (dy - 1) < dy * dy) by (nonlinear_arith)
        requires
            0 < dy,
    ;
    assert(in_disc(dx, dy - 1, r));
    if in_disc(dx + 1, dy, r) {
        // The column ends here, so the next column ends here as well.
        assert(!in_disc(dx, dy + 1, r));
        assert(!in_disc(dx + 1, dy + 1, r)) by (nonlinear_arith)
            requires
                0 <= dx,
                !(dx * dx + (dy + 1) * (dy + 1) <= r * r),
        ;
        assert(on_circle(dx + 1, dy, r));
    } else if in_disc(dx + 1, dy - 1, r) {
        // Above it the next column has already ended.
        assert(!in_disc(dx + 1, (dy - 1) + 1, r));
        assert(on_circle(dx + 1, dy - 1, r));
    } else {
        assert(on_circle(dx, dy - 1, r));
    }
}

/// Every column that an outline of radius `r` spans holds a pixel of its upper
/// half, and so does every row.
pub proof fn law_outline_spans_the_disc(d: int, r: int)
    requires
        0 <= r,
        -r <= d <= r,
    ensures
        on_circle(d, floor_sqrt(r * r - d * d), r),
        on_circle(floor_sqrt(r * r - d * d), d, r),
        floor_sqrt(r * r - d * d) >= 0,
{
    assert(d * d <= r * r) by (nonlinear_arith)
        requires
            0 <= r,
            -r <= d <= r,
    ;
    let h = floor_sqrt(r * r - d * d);
    law_floor_sqrt_is_root(r * r - d * d);
    lemma_row_ends(h, d, r, h);
    law_disc_is_symmetric(h, d, r);
    law_disc_is_symmetric(h + 1, d, r);
}

/// The square of the integer square root does not exceed the number, and that
/// of the next larger one does; what is not positive has root zero.
pub proof fn law_root_brackets_its_number(n: int)
    ensures
        floor_sqrt(n) >= 0,
        n <= 0 ==> floor_sqrt(n) == 0,
        n > 0 ==> floor_sqrt(n) * floor_sqrt(n) <= n < (floor_sqrt(n) + 1) * (floor_sqrt(n) + 1),
{
    if n > 0 {
        law_floor_sqrt_is_root(n);
    }
}

} // verus!
