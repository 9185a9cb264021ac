//! The picture that a framebuffer holds, as mathematics.
//!
//! A framebuffer is a sequence of bytes; each pixel of the panel is one
//! little-endian 16-bit word in it. What a drawing operation does is stated as
//! a [`Layer`]: the words that it puts on the pixels it touches. The predicate
//! [`painted`] says that one buffer is another with a layer put over it.

use vstd::prelude::*;

use crate::board::{FB_SIZE, H_RES, V_RES};

verus! {

/// What a drawing operation puts on each pixel: `Some(word)` where it paints,
/// `None` where it leaves the pixel alone.
pub type Layer = spec_fn(int, int) -> Option<int>;

/// The panel's pixels.
pub open spec fn on_panel(x: int, y: int) -> bool {
    0 <= x < H_RES && 0 <= y < V_RES
}

/// Where a pixel's first byte lies in the buffer.
pub open spec fn offset(x: int, y: int) -> int {
    (y * H_RES + x) * 2
}

/// The word that a pixel holds.
pub open spec fn pixel(bytes: Seq<u8>, x: int, y: int) -> int {
    bytes[offset(x, y)] + 256 * bytes[offset(x, y) + 1]
}

/// `post` is `pre` with `layer` painted over it: every pixel of the panel, and
/// every byte beyond the panel's, is accounted for.
pub open spec fn painted(pre: Seq<u8>, post: Seq<u8>, layer: Layer) -> bool {
    &&& post.len() == pre.len()
    &&& forall|x: int, y: int|
        on_panel(x, y) ==> #[trigger] pixel(post, x, y) == match layer(x, y) {
            Some(word) => word,
            None => pixel(pre, x, y),
        }
    &&& forall|i: int| FB_SIZE <= i < post.len() ==> #[trigger] post[i] == pre[i]
}

/// The layer that paints nothing.
pub open spec fn nothing() -> Layer {
    |x: int, y: int| None
}

/// `top` painted over `bottom`.
pub open spec fn over(top: Layer, bottom: Layer) -> Layer {
    |x: int, y: int|
        match top(x, y) {
            Some(word) => Some(word),
            None => bottom(x, y),
        }
}

/// An inclusive rectangle, given as `(x0, y0, x1, y1)`.
pub open spec fn in_box(b: (i32, i32, i32, i32), x: int, y: int) -> bool {
    b.0 <= x <= b.2 && b.1 <= y <= b.3
}

/// The layer paints nothing outside the rectangle.
pub open spec fn confined(layer: Layer, b: (i32, i32, i32, i32)) -> bool {
    forall|x: int, y: int| on_panel(x, y) && #[trigger] layer(x, y) is Some ==> in_box(b, x, y)
}

/// The part of a layer in the rectangle.
pub open spec fn clipped(layer: Layer, b: (i32, i32, i32, i32)) -> Layer {
    |x: int, y: int|
        if in_box(b, x, y) {
            layer(x, y)
        } else {
            None
        }
}

/// The part of a layer in the rows before `row`.
pub open spec fn rows_before(layer: Layer, row: int) -> Layer {
    |x: int, y: int|
        if y < row {
            layer(x, y)
        } else {
            None
        }
}

/// Painting one layer and then another is painting the second over the first.
pub proof fn law_paint_twice(a: Seq<u8>, b: Seq<u8>, c: Seq<u8>, first: Layer, second: Layer)
    requires
        painted(a, b, first),
        painted(b, c, second),
    ensures
        painted(a, c, over(second, first)),
{
    assert forall|x: int, y: int| on_panel(x, y) implies #[trigger] pixel(c, x, y) == match over(
        second,
        first,
    )(x, y) {
        Some(word) => word,
        None => pixel(a, x, y),
    } by {
        assert(pixel(b, x, y) == match first(x, y) {
            Some(word) => word,
            None => pixel(a, x, y),
        });
    }
}

/// Layers that agree on the panel paint the same.
pub proof fn lemma_same_layer(a: Seq<u8>, b: Seq<u8>, layer: Layer, same: Layer)
    requires
        painted(a, b, layer),
        forall|x: int, y: int| on_panel(x, y) ==> #[trigger] same(x, y) == layer(x, y),
    ensures
        painted(a, b, same),
{
    assert forall|x: int, y: int| on_panel(x, y) implies #[trigger] pixel(b, x, y) == match same(
        x,
        y,
    ) {
        Some(word) => word,
        None => pixel(a, x, y),
    } by {
        assert(same(x, y) == layer(x, y));
    }
}

/// Where `sum` is `second` over `first` on the panel, painting the two after
/// each other paints `sum`.
pub proof fn lemma_add_layer(
    a: Seq<u8>,
    b: Seq<u8>,
    c: Seq<u8>,
    first: Layer,
    second: Layer,
    sum: Layer,
)
    requires
        painted(a, b, first),
        painted(b, c, second),
        forall|x: int, y: int|
            on_panel(x, y) ==> #[trigger] sum(x, y) == over(second, first)(x, y),
    ensures
        painted(a, c, sum),
{
    law_paint_twice(a, b, c, first, second);
    lemma_same_layer(a, c, over(second, first), sum);
}

/// A layer says everything about a buffer: there is only one buffer that is
/// `pre` with `layer` painted over it.
pub proof fn law_painted_is_exact(pre: Seq<u8>, a: Seq<u8>, b: Seq<u8>, layer: Layer)
    requires
        pre.len() >= FB_SIZE,
        painted(pre, a, layer),
        painted(pre, b, layer),
    ensures
        a == b,
{
    assert forall|i: int| 0 <= i < a.len() implies a[i] == b[i] by {
        if i < FB_SIZE {
            let x = (i / 2) % 480;
            let y = (i / 2) / 480;
            assert(on_panel(x, y));
            assert(pixel(a, x, y) == pixel(b, x, y));
            assert(offset(x, y) <= i <= offset(x, y) + 1);
        }
    }
    assert(a =~= b);
}

/// Painting a layer a second time changes nothing.
pub proof fn law_paint_idempotent(a: Seq<u8>, b: Seq<u8>, c: Seq<u8>, layer: Layer)
    requires
        a.len() >= FB_SIZE,
        painted(a, b, layer),
        painted(b, c, layer),
    ensures
        b == c,
{
    assert forall|x: int, y: int| on_panel(x, y) implies #[trigger] pixel(c, x, y) == match layer(
        x,
        y,
    ) {
        Some(word) => word,
        None => pixel(a, x, y),
    } by {
        assert(pixel(b, x, y) == match layer(x, y) {
            Some(word) => word,
            None => pixel(a, x, y),
        });
    }
    law_painted_is_exact(a, b, c, layer);
}

/// A layer that touches no pixel of the panel changes nothing.
pub proof fn law_off_panel_is_dropped(a: Seq<u8>, b: Seq<u8>, layer: Layer)
    requires
        a.len() >= FB_SIZE,
        painted(a, b, layer),
        forall|x: int, y: int| on_panel(x, y) ==> #[trigger] layer(x, y) is None,
    ensures
        a == b,
{
    assert(painted(a, a, layer)) by {
        assert forall|x: int, y: int| on_panel(x, y) implies #[trigger] pixel(a, x, y)
            == match layer(x, y) {
            Some(word) => word,
            None => pixel(a, x, y),
        } by {
            assert(layer(x, y) is None);
        }
    }
    law_painted_is_exact(a, a, b, layer);
}

/// Where a painted buffer holds its pixels: each is two bytes, the low one
/// first, row after row from the top left. A pixel that the layer leaves alone
/// keeps its bytes, and so does everything behind the last pixel.
pub proof fn law_painted_bytes(pre: Seq<u8>, post: Seq<u8>, layer: Layer, x: int, y: int)
    requires
        painted(pre, post, layer),
        0 <= x < 480,
        0 <= y < 480,
    ensures
        post.len() == pre.len(),
        ({
            let i = 960 * y + 2 * x;
            match layer(x, y) {
                Some(word) => post[i] + 256 * post[i + 1] == word,
                None => post[i] == pre[i] && post[i + 1] == pre[i + 1],
            }
        }),
        forall|i: int| 460800 <= i < post.len() ==> #[trigger] post[i] == pre[i],
{
    assert(on_panel(x, y));
    assert(offset(x, y) == 960 * y + 2 * x);
    assert(pixel(post, x, y) == match layer(x, y) {
        Some(word) => word,
        None => pixel(pre, x, y),
    });
}

} // verus!
