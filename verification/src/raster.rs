//! The rasterizer: solid triangle fill, Bresenham lines, wireframe overlay and the
//! face loop. Overlaps are resolved by draw order alone: the last write wins.

use vstd::prelude::*;
use crate::color::Color;
use crate::framebuffer::Framebuffer;
use crate::geometria::{
    caras_en_rango, edge, edge_fn, es_frontal, lemma_edge_decomposition, Cara, Punto, Vec2i,
};

verus! {

/// The point `(x, y)`.
pub open spec fn punto(x: int, y: int) -> Punto {
    Punto { x, y }
}

/// The least of three numbers.
pub open spec fn min3(a: int, b: int, c: int) -> int {
    if a <= b && a <= c {
        a
    } else if b <= c {
        b
    } else {
        c
    }
}

/// The greatest of three numbers.
pub open spec fn max3(a: int, b: int, c: int) -> int {
    if a >= b && a >= c {
        a
    } else if b >= c {
        b
    } else {
        c
    }
}

/// `p` belongs to the filled triangle `a`, `b`, `c`: the triangle has non-zero area
/// and the three edge functions at `p` all agree in sign with that area, zero
/// included. A triangle of zero area contains no point.
pub open spec fn dentro(a: Punto, b: Punto, c: Punto, p: Punto) -> bool {
    let area = edge(a, b, c);
    let w0 = edge(b, c, p);
    let w1 = edge(c, a, p);
    let w2 = edge(a, b, p);
    ||| area > 0 && w0 >= 0 && w1 >= 0 && w2 >= 0
    ||| area < 0 && w0 <= 0 && w1 <= 0 && w2 <= 0
}

/// Weighted by the three edge functions at `p`, the corners of a triangle balance
/// around `p`, coordinate by coordinate.
proof fn lemma_balance(a: Punto, b: Punto, c: Punto, p: Punto)
    ensures
        edge(b, c, p) * (a.x - p.x) + edge(c, a, p) * (b.x - p.x) + edge(a, b, p) * (c.x - p.x)
            == 0,
        edge(b, c, p) * (a.y - p.y) + edge(c, a, p) * (b.y - p.y) + edge(a, b, p) * (c.y - p.y)
            == 0,
{
    let u1 = a.x - p.x;
    let v1 = a.y - p.y;
    let u2 = b.x - p.x;
    let v2 = b.y - p.y;
    let u3 = c.x - p.x;
    let v3 = c.y - p.y;
    lemma_cross_from(u2, v2, u3, v3);
    lemma_cross_from(u3, v3, u1, v1);
    lemma_cross_from(u1, v1, u2, v2);
    assert(edge(b, c, p) == u2 * v3 - v2 * u3);
    assert(edge(c, a, p) == u3 * v1 - v3 * u1);
    assert(edge(a, b, p) == u1 * v2 - v1 * u2);
    lemma_triple_cancel(u1, u2, u3, v1, v2, v3);
    lemma_triple_cancel(v1, v2, v3, u1, u2, u3);
}

/// The edge function of two points against the origin of their offsets.
proof fn lemma_cross_from(u1: int, v1: int, u2: int, v2: int)
    by (nonlinear_arith)
    ensures
        (u2 - u1) * (0 - v1) - (v2 - v1) * (0 - u1) == u1 * v2 - v1 * u2,
{
}

/// For three vectors of the plane, each weighted by the cross product of the other
/// two in turn, the weighted sum vanishes in both coordinates.
proof fn lemma_triple_cancel(u1: int, u2: int, u3: int, v1: int, v2: int, v3: int)
    by (nonlinear_arith)
    ensures
        (u2 * v3 - v2 * u3) * u1 + (u3 * v1 - v3 * u1) * u2 + (u1 * v2 - v1 * u2) * u3 == 0,
        (v2 * u3 - u2 * v3) * u1 + (v3 * u1 - u3 * v1) * u2 + (v1 * u2 - u1 * v2) * u3 == 0,
{
}

/// The sign of a product, and when it vanishes, for a factor `u` that is not zero.
proof fn lemma_product_sign(w: int, u: int)
    by (nonlinear_arith)
    requires
        u != 0,
    ensures
        (w >= 0 && u > 0) || (w <= 0 && u < 0) ==> w * u >= 0,
        (w >= 0 && u < 0) || (w <= 0 && u > 0) ==> w * u <= 0,
        w * u == 0 ==> w == 0,
{
}

/// Weights of one sign cannot balance offsets that all point the same way.
proof fn lemma_no_balance(w0: int, w1: int, w2: int, u1: int, u2: int, u3: int)
    requires
        (w0 >= 0 && w1 >= 0 && w2 >= 0) || (w0 <= 0 && w1 <= 0 && w2 <= 0),
        (u1 > 0 && u2 > 0 && u3 > 0) || (u1 < 0 && u2 < 0 && u3 < 0),
        w0 * u1 + w1 * u2 + w2 * u3 == 0,
    ensures
        w0 == 0 && w1 == 0 && w2 == 0,
{
    lemma_product_sign(w0, u1);
    lemma_product_sign(w1, u2);
    lemma_product_sign(w2, u3);
}

/// A point of the filled triangle lies within the triangle's bounding box.
pub proof fn lemma_dentro_en_caja(a: Punto, b: Punto, c: Punto, p: Punto)
    requires
        dentro(a, b, c, p),
    ensures
        min3(a.x, b.x, c.x) <= p.x <= max3(a.x, b.x, c.x),
        min3(a.y, b.y, c.y) <= p.y <= max3(a.y, b.y, c.y),
{
    lemma_balance(a, b, c, p);
    lemma_edge_decomposition(a, b, c, p);
    let w0 = edge(b, c, p);
    let w1 = edge(c, a, p);
    let w2 = edge(a, b, p);
    if p.x < min3(a.x, b.x, c.x) || p.x > max3(a.x, b.x, c.x) {
        lemma_no_balance(w0, w1, w2, a.x - p.x, b.x - p.x, c.x - p.x);
    }
    if p.y < min3(a.y, b.y, c.y) || p.y > max3(a.y, b.y, c.y) {
        lemma_no_balance(w0, w1, w2, a.y - p.y, b.y - p.y, c.y - p.y);
    }
}

/// The least of three coordinates.
fn min3_i32(a: i32, b: i32, c: i32) -> (m: i32)
    ensures
        m == min3(a as int, b as int, c as int),
{
    if a <= b && a <= c {
        a
    } else if b <= c {
        b
    } else {
        c
    }
}

/// The greatest of three coordinates.
fn max3_i32(a: i32, b: i32, c: i32) -> (m: i32)
    ensures
        m == max3(a as int, b as int, c as int),
{
    if a >= b && a >= c {
        a
    } else if b >= c {
        b
    } else {
        c
    }
}

/// The last cell index along an axis of `n` cells that a 32-bit coordinate no
/// greater than `tope` can name: `min(tope, n - 1)`.
fn recortar_tope(tope: i32, n: usize) -> (r: i64)
    ensures
        r == if tope < n { tope as int } else { n - 1 },
{
    if n > i32::MAX as usize {
        tope as i64
    } else if (tope as i64) < (n as i64) {
        tope as i64
    } else {
        n as i64 - 1
    }
}

/// Fills the triangle `a`, `b`, `c` with `color`.
///
/// Every cell of the buffer that belongs to the triangle takes the colour; every
/// other cell keeps its value. A triangle of zero area writes nothing.
pub fn dibujar_triangulo(frame: &mut Framebuffer, a: Vec2i, b: Vec2i, c: Vec2i, color: Color)
    requires
        old(frame).wf(),
    ensures
        final(frame).wf(),
        final(frame).mismo_marco(old(frame)),
        forall|x: int, y: int|
            old(frame).contiene(x, y) ==> #[trigger] final(frame).pixel(x, y) == if dentro(
                a@,
                b@,
                c@,
                punto(x, y),
            ) {
                color.spec_to_u32()
            } else {
                old(frame).pixel(x, y)
            },
        edge(a@, b@, c@) == 0 ==> final(frame).pixeles@ == old(frame).pixeles@,
{
    let area: i128 = edge_fn(&a, &b, &c);
    if area == 0 {
        return ;
    }
    let lo_x: i32 = min3_i32(a.x, b.x, c.x);
    let lo_y: i32 = min3_i32(a.y, b.y, c.y);
    let minx: i64 = if lo_x < 0 {
        0
    } else {
        lo_x as i64
    };
    let miny: i64 = if lo_y < 0 {
        0
    } else {
        lo_y as i64
    };
    let maxx: i64 = recortar_tope(max3_i32(a.x, b.x, c.x), frame.ancho);
    let maxy: i64 = recortar_tope(max3_i32(a.y, b.y, c.y), frame.alto);
    let ghost inicial: Framebuffer = *frame;
    let ghost relleno: u32 = color.spec_to_u32();
    let mut y: i64 = miny;
    while y <= maxy
        invariant
            0 <= miny <= y,
            0 <= minx,
            maxx < inicial.ancho,
            maxy < inicial.alto,
            maxx <= i32::MAX,
            maxy <= i32::MAX,
            area == edge(a@, b@, c@),
            relleno == color.spec_to_u32(),
            inicial.wf(),
            frame.wf(),
            frame.mismo_marco(&inicial),
            forall|i: int, j: int|
                inicial.contiene(i, j) ==> #[trigger] frame.pixel(i, j) == if dentro(
                    a@,
                    b@,
                    c@,
                    punto(i, j),
                ) && minx <= i <= maxx && miny <= j < y {
                    relleno
                } else {
                    inicial.pixel(i, j)
                },
        decreases maxy + 1 - y,
    {
        let mut x: i64 = minx;
        while x <= maxx
            invariant
                0 <= miny <= y <= maxy,
                0 <= minx <= x,
                maxx < inicial.ancho,
                maxy < inicial.alto,
                maxx <= i32::MAX,
                maxy <= i32::MAX,
                area == edge(a@, b@, c@),
                relleno == color.spec_to_u32(),
                inicial.wf(),
                frame.wf(),
                frame.mismo_marco(&inicial),
                forall|i: int, j: int|
                    inicial.contiene(i, j) ==> #[trigger] frame.pixel(i, j) == if dentro(
                        a@,
                        b@,
                        c@,
                        punto(i, j),
                    ) && minx <= i <= maxx && (miny <= j < y || (j == y && i < x)) {
                        relleno
                    } else {
                        inicial.pixel(i, j)
                    },
            decreases maxx + 1 - x,
        {
            let p = Vec2i { x: x as i32, y: y as i32 };
            let w0: i128 = edge_fn(&b, &c, &p);
            let w1: i128 = edge_fn(&c, &a, &p);
            let w2: i128 = edge_fn(&a, &b, &p);
            assert(p@ == punto(x as int, y as int));
            if (w0 >= 0 && w1 >= 0 && w2 >= 0 && area > 0) || (w0 <= 0 && w1 <= 0 && w2 <= 0
                && area < 0) {
                let ghost previo: Framebuffer = *frame;
                frame.put_pixel(x as i32, y as i32, color);
                assert forall|i: int, j: int| inicial.contiene(i, j) implies #[trigger] frame.pixel(
                    i,
                    j,
                ) == if dentro(a@, b@, c@, punto(i, j)) && minx <= i <= maxx && (miny <= j < y || (j
                    == y && i < x + 1)) {
                    relleno
                } else {
                    inicial.pixel(i, j)
                } by {
                    assert(previo.contiene(i, j));
                }
            }
            x += 1;
        }
        y += 1;
    }
    proof {
        assert forall|i: int, j: int| inicial.contiene(i, j) implies #[trigger] frame.pixel(i, j)
            == if dentro(a@, b@, c@, punto(i, j)) {
            relleno
        } else {
            inicial.pixel(i, j)
        } by {
            if dentro(a@, b@, c@, punto(i, j)) {
                lemma_dentro_en_caja(a@, b@, c@, punto(i, j));
            }
        }
    }
}

/// The distance between two coordinates.
pub open spec fn distancia(a: int, b: int) -> int {
    if a < b {
        b - a
    } else {
        a - b
    }
}

/// How many unit steps lead from `desde` to `v`, walking towards `hacia`.
pub open spec fn pasos(desde: int, hacia: int, v: int) -> int {
    if desde < hacia {
        v - desde
    } else {
        desde - v
    }
}

/// `p` is one of the points of the line walked from `p0` to `p1`.
///
/// With `dx` and `dy` the extents of the line and `i`, `j` the steps from `p0` to
/// `p` along each axis, `j * dx - i * dy` measures how far `p` is from the ideal
/// line. The points of the walk are those within half a step of it along the minor
/// axis; a point exactly half a step away is rounded away from `p0`.
pub open spec fn en_tramo(p0: Punto, p1: Punto, p: Punto) -> bool {
    let dx = distancia(p0.x, p1.x);
    let dy = distancia(p0.y, p1.y);
    let i = pasos(p0.x, p1.x, p.x);
    let j = pasos(p0.y, p1.y, p.y);
    let desvio = 2 * (j * dx - i * dy);
    &&& 0 <= i <= dx
    &&& 0 <= j <= dy
    &&& if dx >= dy {
        -dx < desvio <= dx || dx == 0
    } else {
        -dy <= desvio < dy
    }
}

/// The position of `p` along the major axis of the line walked from `p0` to `p1`.
pub open spec fn paso_tramo(p0: Punto, p1: Punto, p: Punto) -> int {
    if distancia(p0.x, p1.x) >= distancia(p0.y, p1.y) {
        pasos(p0.x, p1.x, p.x)
    } else {
        pasos(p0.y, p1.y, p.y)
    }
}

/// Within a window of width `2 * d` there is room for one multiple of `d` only.
proof fn lemma_one_multiple(d: int, c: int, j1: int, j2: int)
    by (nonlinear_arith)
    requires
        d > 0,
        (-d < 2 * (j1 * d - c) <= d && -d < 2 * (j2 * d - c) <= d) || (-d <= 2 * (c - j1 * d) < d
            && -d <= 2 * (c - j2 * d) < d),
    ensures
        j1 == j2,
{
}

/// A walk has one point at each position along its major axis.
proof fn lemma_tramo_paso_unico(p0: Punto, p1: Punto, p: Punto, q: Punto)
    requires
        en_tramo(p0, p1, p),
        en_tramo(p0, p1, q),
        paso_tramo(p0, p1, p) == paso_tramo(p0, p1, q),
    ensures
        p == q,
{
    let dx = distancia(p0.x, p1.x);
    let dy = distancia(p0.y, p1.y);
    let ip = pasos(p0.x, p1.x, p.x);
    let jp = pasos(p0.y, p1.y, p.y);
    let iq = pasos(p0.x, p1.x, q.x);
    let jq = pasos(p0.y, p1.y, q.y);
    if dx >= dy {
        if dx > 0 {
            lemma_one_multiple(dx, ip * dy, jp, jq);
        }
    } else {
        lemma_one_multiple(dy, jp * dx, ip, iq);
    }
}

/// Both ends of a walk belong to it, and the walk starts at its first end.
proof fn lemma_tramo_extremos(p0: Punto, p1: Punto)
    ensures
        en_tramo(p0, p1, p0),
        en_tramo(p0, p1, p1),
        paso_tramo(p0, p1, p0) == 0,
{
    let dx = distancia(p0.x, p1.x);
    let dy = distancia(p0.y, p1.y);
    assert(dy * dx - dx * dy == 0) by (nonlinear_arith);
}

/// Neighbouring points of a walk touch.
proof fn lemma_tramo_conexo(p0: Punto, p1: Punto, p: Punto, q: Punto)
    requires
        en_tramo(p0, p1, p),
        en_tramo(p0, p1, q),
        paso_tramo(p0, p1, q) == paso_tramo(p0, p1, p) + 1,
    ensures
        distancia(p.x, q.x) <= 1,
        distancia(p.y, q.y) <= 1,
{
    let dx = distancia(p0.x, p1.x);
    let dy = distancia(p0.y, p1.y);
    let ip = pasos(p0.x, p1.x, p.x);
    let jp = pasos(p0.y, p1.y, p.y);
    let iq = pasos(p0.x, p1.x, q.x);
    let jq = pasos(p0.y, p1.y, q.y);
    if dx >= dy {
        lemma_minor_step(dx, dy, ip, jp, jq);
    } else {
        lemma_minor_step_mirrored(dy, dx, jp, ip, iq);
    }
}

/// Along the major axis `d`, one step forward moves the minor coordinate by zero
/// or one.
proof fn lemma_minor_step(d: int, e: int, i: int, j1: int, j2: int)
    by (nonlinear_arith)
    requires
        0 <= e <= d,
        d > 0,
        -d < 2 * (j1 * d - i * e) <= d,
        -d < 2 * (j2 * d - (i + 1) * e) <= d,
    ensures
        j1 <= j2 <= j1 + 1,
{
}

/// The same fact for a line whose major axis is `y`, where ties round the other way.
proof fn lemma_minor_step_mirrored(d: int, e: int, j: int, i1: int, i2: int)
    by (nonlinear_arith)
    requires
        0 <= e < d,
        -d <= 2 * (j * e - i1 * d) < d,
        -d <= 2 * ((j + 1) * e - i2 * d) < d,
    ensures
        i1 <= i2 <= i1 + 1,
{
}

/// One step of the walk changes the deviation by the extents of the line.
proof fn lemma_desvio_step(dx: int, dy: int, i: int, j: int)
    by (nonlinear_arith)
    ensures
        j * dx - (i + 1) * dy == j * dx - i * dy - dy,
        (j + 1) * dx - i * dy == j * dx - i * dy + dx,
        (j + 1) * dx - (i + 1) * dy == j * dx - i * dy + dx - dy,
{
}

/// On a line that is at least as wide as tall, the last column holds the end point.
proof fn lemma_last_column(dx: int, dy: int, j: int)
    by (nonlinear_arith)
    requires
        dx > 0,
        -dx < 2 * (j * dx - dx * dy) <= dx,
    ensures
        j == dy,
{
}

/// On a line that is taller than wide, the last row holds the end point.
proof fn lemma_last_row(dx: int, dy: int, i: int)
    by (nonlinear_arith)
    requires
        dy > 0,
        -dy <= 2 * (dy * dx - i * dy) < dy,
    ensures
        i == dx,
{
}

/// When the walk steps along `y`, a row is left to step into.
proof fn lemma_room_y(dx: int, dy: int, i: int, j: int)
    by (nonlinear_arith)
    requires
        dx > 0,
        0 <= dy,
        0 <= i < dx,
        2 * (j * dx - i * dy) <= 2 * dy - dx,
    ensures
        j < dy,
{
}

/// When the walk steps along `x`, a column is left to step into.
proof fn lemma_room_x(dx: int, dy: int, i: int, j: int)
    by (nonlinear_arith)
    requires
        dy > 0,
        0 <= dx,
        0 <= j < dy,
        2 * (j * dx - i * dy) >= dy - 2 * dx,
    ensures
        i < dx,
{
}

/// Walks from `p0` to `p1`, both ends included, with Bresenham's algorithm, and
/// colours every cell of the buffer on the way.
fn trazar(frame: &mut Framebuffer, p0: Vec2i, p1: Vec2i, color: Color)
    requires
        old(frame).wf(),
    ensures
        final(frame).wf(),
        final(frame).mismo_marco(old(frame)),
        forall|x: int, y: int|
            old(frame).contiene(x, y) ==> #[trigger] final(frame).pixel(x, y) == if en_tramo(
                p0@,
                p1@,
                punto(x, y),
            ) {
                color.spec_to_u32()
            } else {
                old(frame).pixel(x, y)
            },
{
    let x0: i64 = p0.x as i64;
    let y0: i64 = p0.y as i64;
    let x1: i64 = p1.x as i64;
    let y1: i64 = p1.y as i64;
    let dx: i64 = if x0 < x1 {
        x1 - x0
    } else {
        x0 - x1
    };
    let dy: i64 = if y0 < y1 {
        y1 - y0
    } else {
        y0 - y1
    };
    let sx: i64 = if x0 < x1 {
        1
    } else {
        -1
    };
    let sy: i64 = if y0 < y1 {
        1
    } else {
        -1
    };
    let mut x: i64 = x0;
    let mut y: i64 = y0;
    let mut err: i64 = dx - dy;
    let ghost inicial: Framebuffer = *frame;
    let ghost tinta: u32 = color.spec_to_u32();
    let ghost mut i: int = 0;
    let ghost mut j: int = 0;
    frame.put_pixel(p0.x, p0.y, color);
    proof {
        lemma_tramo_extremos(p0@, p1@);
        assert forall|u: int, v: int| inicial.contiene(u, v) implies #[trigger] frame.pixel(u, v)
            == if en_tramo(p0@, p1@, punto(u, v)) && paso_tramo(p0@, p1@, punto(u, v)) <= 0 {
            tinta
        } else {
            inicial.pixel(u, v)
        } by {
            if en_tramo(p0@, p1@, punto(u, v)) && paso_tramo(p0@, p1@, punto(u, v)) <= 0 {
                lemma_tramo_paso_unico(p0@, p1@, punto(u, v), p0@);
            }
        }
    }
    while x != x1 || y != y1
        invariant
            x0 == p0.x,
            y0 == p0.y,
            x1 == p1.x,
            y1 == p1.y,
            dx == distancia(p0.x as int, p1.x as int),
            dy == distancia(p0.y as int, p1.y as int),
            sx == if x0 < x1 {
                1i64
            } else {
                -1i64
            },
            sy == if y0 < y1 {
                1i64
            } else {
                -1i64
            },
            0 <= i <= dx,
            0 <= j <= dy,
            x == if x0 < x1 {
                x0 + i
            } else {
                x0 - i
            },
            y == if y0 < y1 {
                y0 + j
            } else {
                y0 - j
            },
            err == (j * dx - i * dy) + dx - dy,
            if dx >= dy {
                -dx < 2 * (j * dx - i * dy) <= dx || dx == 0
            } else {
                -dy <= 2 * (j * dx - i * dy) < dy
            },
            tinta == color.spec_to_u32(),
            inicial.wf(),
            frame.wf(),
            frame.mismo_marco(&inicial),
            forall|u: int, v: int|
                inicial.contiene(u, v) ==> #[trigger] frame.pixel(u, v) == if en_tramo(
                    p0@,
                    p1@,
                    punto(u, v),
                ) && paso_tramo(p0@, p1@, punto(u, v)) <= (if dx >= dy {
                    i
                } else {
                    j
                }) {
                    tinta
                } else {
                    inicial.pixel(u, v)
                },
        decreases dx + dy - i - j,
    {
        let ghost dev: int = j * dx - i * dy;
        let ghost i0: int = i;
        let ghost j0: int = j;
        proof {
            lemma_desvio_step(dx as int, dy as int, i, j);
            if dx >= dy {
                if i == dx {
                    lemma_last_column(dx as int, dy as int, j);
                }
                assert(i < dx);
                if 2 * dev <= 2 * dy - dx {
                    lemma_room_y(dx as int, dy as int, i, j);
                }
            } else {
                if j == dy {
                    lemma_last_row(dx as int, dy as int, i);
                }
                assert(j < dy);
                if 2 * dev >= dy - 2 * dx {
                    lemma_room_x(dx as int, dy as int, i, j);
                }
            }
        }
        let e2: i64 = 2 * err;
        if e2 >= -dy {
            err -= dy;
            x += sx;
            proof {
                i = i + 1;
            }
        }
        if e2 <= dx {
            err += dx;
            y += sy;
            proof {
                j = j + 1;
            }
        }
        let ghost previo: Framebuffer = *frame;
        frame.put_pixel(x as i32, y as i32, color);
        proof {
            let t: int = if dx >= dy {
                i
            } else {
                j
            };
            let q: Punto = punto(x as int, y as int);
            assert(pasos(p0@.x, p1@.x, q.x) == i);
            assert(pasos(p0@.y, p1@.y, q.y) == j);
            assert(en_tramo(p0@, p1@, q));
            assert(paso_tramo(p0@, p1@, q) == t);
            assert forall|u: int, v: int| inicial.contiene(u, v) implies #[trigger] frame.pixel(
                u,
                v,
            ) == if en_tramo(p0@, p1@, punto(u, v)) && paso_tramo(p0@, p1@, punto(u, v)) <= t {
                tinta
            } else {
                inicial.pixel(u, v)
            } by {
                assert(previo.contiene(u, v));
                if en_tramo(p0@, p1@, punto(u, v)) && paso_tramo(p0@, p1@, punto(u, v)) == t {
                    lemma_tramo_paso_unico(p0@, p1@, punto(u, v), q);
                }
            }
        }
    }
}

/// `a` comes no later than `b` when points are ordered by column, then by row.
pub open spec fn precede(a: Punto, b: Punto) -> bool {
    a.x < b.x || (a.x == b.x && a.y <= b.y)
}

/// `p` is one of the points of the line between `p0` and `p1`.
///
/// The line does not depend on which end is given first: it is the walk from the
/// end that comes first by column, then by row, to the other. Its points are those
/// within half a step of the ideal line along the minor axis, and a point exactly
/// half a step away is rounded away from that first end.
pub open spec fn en_linea(p0: Punto, p1: Punto, p: Punto) -> bool {
    if precede(p0, p1) {
        en_tramo(p0, p1, p)
    } else {
        en_tramo(p1, p0, p)
    }
}

/// The position of `p` along the major axis of the line between `p0` and `p1`,
/// counted from the end that comes first by column, then by row.
pub open spec fn paso_mayor(p0: Punto, p1: Punto, p: Punto) -> int {
    if precede(p0, p1) {
        paso_tramo(p0, p1, p)
    } else {
        paso_tramo(p1, p0, p)
    }
}

/// A line is the same set of points whichever of its ends is given first.
pub proof fn lemma_linea_simetrica(p0: Punto, p1: Punto, p: Punto)
    ensures
        en_linea(p0, p1, p) == en_linea(p1, p0, p),
        paso_mayor(p0, p1, p) == paso_mayor(p1, p0, p),
{
    if precede(p0, p1) && precede(p1, p0) {
        assert(p0 == p1);
    }
}

/// Both ends of a line belong to it.
pub proof fn lemma_linea_extremos(p0: Punto, p1: Punto)
    ensures
        en_linea(p0, p1, p0),
        en_linea(p0, p1, p1),
{
    lemma_tramo_extremos(p0, p1);
    lemma_tramo_extremos(p1, p0);
}

/// A line has one point at each position along its major axis.
pub proof fn lemma_linea_paso_unico(p0: Punto, p1: Punto, p: Punto, q: Punto)
    requires
        en_linea(p0, p1, p),
        en_linea(p0, p1, q),
        paso_mayor(p0, p1, p) == paso_mayor(p0, p1, q),
    ensures
        p == q,
{
    if precede(p0, p1) {
        lemma_tramo_paso_unico(p0, p1, p, q);
    } else {
        lemma_tramo_paso_unico(p1, p0, p, q);
    }
}

/// Neighbouring points of a line touch: from one position along the major axis to
/// the next, neither coordinate moves by more than one cell.
pub proof fn lemma_linea_conexa(p0: Punto, p1: Punto, p: Punto, q: Punto)
    requires
        en_linea(p0, p1, p),
        en_linea(p0, p1, q),
        paso_mayor(p0, p1, q) == paso_mayor(p0, p1, p) + 1,
    ensures
        distancia(p.x, q.x) <= 1,
        distancia(p.y, q.y) <= 1,
{
    if precede(p0, p1) {
        lemma_tramo_conexo(p0, p1, p, q);
    } else {
        lemma_tramo_conexo(p1, p0, p, q);
    }
}

/// Draws the line between `p0` and `p1`, both ends included, with Bresenham's
/// algorithm.
///
/// Every cell of the buffer that is a point of the line takes the colour; every
/// other cell keeps its value. Points of the line outside the buffer are skipped.
/// The same cells are coloured whichever end is given first.
pub fn dibujar_linea(frame: &mut Framebuffer, p0: Vec2i, p1: Vec2i, color: Color)
    requires
        old(frame).wf(),
    ensures
        final(frame).wf(),
        final(frame).mismo_marco(old(frame)),
        forall|x: int, y: int|
            old(frame).contiene(x, y) ==> #[trigger] final(frame).pixel(x, y) == if en_linea(
                p0@,
                p1@,
                punto(x, y),
            ) {
                color.spec_to_u32()
            } else {
                old(frame).pixel(x, y)
            },
{
    if p0.x < p1.x || (p0.x == p1.x && p0.y <= p1.y) {
        trazar(frame, p0, p1, color);
    } else {
        trazar(frame, p1, p0, color);
    }
}

/// `p` is a point of one of the three edges of the triangle `a`, `b`, `c`.
pub open spec fn en_wireframe(a: Punto, b: Punto, c: Punto, p: Punto) -> bool {
    en_linea(a, b, p) || en_linea(b, c, p) || en_linea(c, a, p)
}

/// Draws the three edges of a triangle: `a` to `b`, `b` to `c` and `c` to `a`.
pub fn dibujar_wireframe(frame: &mut Framebuffer, a: Vec2i, b: Vec2i, c: Vec2i, color: Color)
    requires
        old(frame).wf(),
    ensures
        final(frame).wf(),
        final(frame).mismo_marco(old(frame)),
        forall|x: int, y: int|
            old(frame).contiene(x, y) ==> #[trigger] final(frame).pixel(x, y) == if en_wireframe(
                a@,
                b@,
                c@,
                punto(x, y),
            ) {
                color.spec_to_u32()
            } else {
                old(frame).pixel(x, y)
            },
{
    let ghost inicial: Framebuffer = *frame;
    dibujar_linea(frame, a, b, color);
    let ghost uno: Framebuffer = *frame;
    dibujar_linea(frame, b, c, color);
    let ghost dos: Framebuffer = *frame;
    dibujar_linea(frame, c, a, color);
    assert forall|x: int, y: int| inicial.contiene(x, y) implies #[trigger] frame.pixel(x, y)
        == if en_wireframe(a@, b@, c@, punto(x, y)) {
        color.spec_to_u32()
    } else {
        inicial.pixel(x, y)
    } by {
        assert(uno.contiene(x, y) && dos.contiene(x, y));
        assert(uno.pixel(x, y) == if en_linea(a@, b@, punto(x, y)) {
            color.spec_to_u32()
        } else {
            inicial.pixel(x, y)
        });
        assert(dos.pixel(x, y) == if en_linea(b@, c@, punto(x, y)) {
            color.spec_to_u32()
        } else {
            uno.pixel(x, y)
        });
    }
}

/// The value of a cell at `p` after one face has been drawn over the value `previo`.
///
/// With culling on, a face that is not front-facing leaves the cell alone.
/// Otherwise the face is filled with `relleno` and, if `wireframe` is set, its
/// edges are drawn over the fill with `borde`.
pub open spec fn pintar_cara(
    previo: u32,
    a: Punto,
    b: Punto,
    c: Punto,
    p: Punto,
    relleno: u32,
    borde: u32,
    culling: bool,
    wireframe: bool,
) -> u32 {
    if culling && !es_frontal(a, b, c) {
        previo
    } else if wireframe && en_wireframe(a, b, c, p) {
        borde
    } else if dentro(a, b, c, p) {
        relleno
    } else {
        previo
    }
}

/// The value of a cell at `p` that held `base`, after the first `n` faces of
/// `caras` have been drawn in order. Later faces paint over earlier ones.
pub open spec fn pixel_tras_caras(
    base: u32,
    verts: Seq<Vec2i>,
    caras: Seq<Cara>,
    n: int,
    p: Punto,
    relleno: u32,
    borde: u32,
    culling: bool,
    wireframe: bool,
) -> u32
    decreases n,
{
    if n <= 0 {
        base
    } else {
        let cara = caras[n - 1];
        pintar_cara(
            pixel_tras_caras(base, verts, caras, n - 1, p, relleno, borde, culling, wireframe),
            verts[cara.i0 as int]@,
            verts[cara.i1 as int]@,
            verts[cara.i2 as int]@,
            p,
            relleno,
            borde,
            culling,
            wireframe,
        )
    }
}

/// Draws every face of `caras`, in order, over the current contents of the buffer.
///
/// Each face is looked up in `verts2d`, culled if `culling` is set and its signed
/// area is not positive, filled with `color`, and outlined with `color_wireframe`
/// if `mostrar_wireframe` is set. The draw colour of the buffer becomes `color`.
pub fn render_modelo(
    fb: &mut Framebuffer,
    verts2d: &[Vec2i],
    caras: &[Cara],
    color: Color,
    color_wireframe: Color,
    culling: bool,
    mostrar_wireframe: bool,
)
    requires
        old(fb).wf(),
        caras_en_rango(caras@, verts2d@.len() as int),
    ensures
        final(fb).wf(),
        final(fb).ancho == old(fb).ancho,
        final(fb).alto == old(fb).alto,
        final(fb).color_actual == color,
        forall|x: int, y: int|
            old(fb).contiene(x, y) ==> #[trigger] final(fb).pixel(x, y) == pixel_tras_caras(
                old(fb).pixel(x, y),
                verts2d@,
                caras@,
                caras@.len() as int,
                punto(x, y),
                color.spec_to_u32(),
                color_wireframe.spec_to_u32(),
                culling,
                mostrar_wireframe,
            ),
{
    fb.set_color(color);
    let ghost inicial: Framebuffer = *fb;
    let ghost relleno: u32 = color.spec_to_u32();
    let ghost borde: u32 = color_wireframe.spec_to_u32();
    let mut k: usize = 0;
    while k < caras.len()
        invariant
            k <= caras.len(),
            caras_en_rango(caras@, verts2d@.len() as int),
            relleno == color.spec_to_u32(),
            borde == color_wireframe.spec_to_u32(),
            inicial.wf(),
            inicial.color_actual == color,
            fb.wf(),
            fb.mismo_marco(&inicial),
            forall|x: int, y: int|
                inicial.contiene(x, y) ==> #[trigger] fb.pixel(x, y) == pixel_tras_caras(
                    inicial.pixel(x, y),
                    verts2d@,
                    caras@,
                    k as int,
                    punto(x, y),
                    relleno,
                    borde,
                    culling,
                    mostrar_wireframe,
                ),
        decreases caras.len() - k,
    {
        let cara = caras[k];
        assert(caras@[k as int].en_rango(verts2d@.len() as int));
        let a = verts2d[cara.i0];
        let b = verts2d[cara.i1];
        let c = verts2d[cara.i2];
        let ghost previo: Framebuffer = *fb;
        let visible: bool = !culling || edge_fn(&a, &b, &c) > 0;
        if visible {
            dibujar_triangulo(fb, a, b, c, fb.color_actual);
            let ghost lleno: Framebuffer = *fb;
            if mostrar_wireframe {
                dibujar_wireframe(fb, a, b, c, color_wireframe);
            }
            assert forall|x: int, y: int| inicial.contiene(x, y) implies #[trigger] fb.pixel(x, y)
                == pintar_cara(
                previo.pixel(x, y),
                a@,
                b@,
                c@,
                punto(x, y),
                relleno,
                borde,
                culling,
                mostrar_wireframe,
            ) by {
                assert(previo.contiene(x, y) && lleno.contiene(x, y));
                assert(lleno.pixel(x, y) == if dentro(a@, b@, c@, punto(x, y)) {
                    relleno
                } else {
                    previo.pixel(x, y)
                });
            }
        }
        k += 1;
    }
}

/// The buffer holds the frame of the given faces over the background `fondo`:
/// every cell has the value that the faces, drawn in order, leave there.
pub open spec fn es_cuadro(
    fb: Framebuffer,
    verts: Seq<Vec2i>,
    caras: Seq<Cara>,
    fondo: u32,
    relleno: u32,
    borde: u32,
    culling: bool,
    wireframe: bool,
) -> bool {
    forall|x: int, y: int|
        fb.contiene(x, y) ==> #[trigger] fb.pixel(x, y) == pixel_tras_caras(
            fondo,
            verts,
            caras,
            caras.len() as int,
            punto(x, y),
            relleno,
            borde,
            culling,
            wireframe,
        )
}

/// A frame is determined by what is drawn: two buffers of one size that hold the
/// frame of the same faces, colours and flags hold the same pixels, whatever they
/// held before. Drawing a frame twice therefore changes nothing.
pub proof fn lemma_cuadro_unico(
    f: Framebuffer,
    g: Framebuffer,
    verts: Seq<Vec2i>,
    caras: Seq<Cara>,
    fondo: u32,
    relleno: u32,
    borde: u32,
    culling: bool,
    wireframe: bool,
)
    requires
        f.wf(),
        g.wf(),
        f.ancho == g.ancho,
        f.alto == g.alto,
        es_cuadro(f, verts, caras, fondo, relleno, borde, culling, wireframe),
        es_cuadro(g, verts, caras, fondo, relleno, borde, culling, wireframe),
    ensures
        f.pixeles@ == g.pixeles@,
{
    assert forall|x: int, y: int| f.contiene(x, y) implies #[trigger] f.pixel(x, y) == g.pixel(
        x,
        y,
    ) by {
        assert(g.contiene(x, y));
    }
    crate::framebuffer::lemma_celdas_determinan(f, g);
}

/// With culling on, a face that is not front-facing changes no cell.
pub proof fn lemma_cara_descartada(
    previo: u32,
    a: Punto,
    b: Punto,
    c: Punto,
    p: Punto,
    relleno: u32,
    borde: u32,
    wireframe: bool,
)
    requires
        !es_frontal(a, b, c),
    ensures
        pintar_cara(previo, a, b, c, p, relleno, borde, true, wireframe) == previo,
{
}

/// With culling on, of the two windings of a triangle of non-zero area one is
/// drawn and the other is dropped.
pub proof fn lemma_culling_por_orientacion(a: Punto, b: Punto, c: Punto)
    requires
        edge(a, b, c) != 0,
    ensures
        es_frontal(a, b, c) != es_frontal(a, c, b),
        es_frontal(a, b, c) != es_frontal(b, a, c),
        es_frontal(a, b, c) != es_frontal(c, b, a),
{
    crate::geometria::lemma_reversed_winding_flips_facing(a, b, c);
}

/// Draws one frame: clears the buffer to `fondo`, then draws every face.
///
/// The result depends on the arguments alone, not on what the buffer held before:
/// drawing the same frame again gives the same buffer.
pub fn render_cuadro(
    fb: &mut Framebuffer,
    verts2d: &[Vec2i],
    caras: &[Cara],
    fondo: Color,
    color: Color,
    color_wireframe: Color,
    culling: bool,
    mostrar_wireframe: bool,
)
    requires
        old(fb).wf(),
        caras_en_rango(caras@, verts2d@.len() as int),
    ensures
        final(fb).wf(),
        final(fb).ancho == old(fb).ancho,
        final(fb).alto == old(fb).alto,
        final(fb).color_actual == color,
        es_cuadro(
            *final(fb),
            verts2d@,
            caras@,
            fondo.spec_to_u32(),
            color.spec_to_u32(),
            color_wireframe.spec_to_u32(),
            culling,
            mostrar_wireframe,
        ),
{
    fb.limpiar(fondo);
    let ghost limpio: Framebuffer = *fb;
    render_modelo(fb, verts2d, caras, color, color_wireframe, culling, mostrar_wireframe);
    assert forall|x: int, y: int| old(fb).contiene(x, y) implies #[trigger] fb.pixel(x, y)
        == pixel_tras_caras(
        fondo.spec_to_u32(),
        verts2d@,
        caras@,
        caras@.len() as int,
        punto(x, y),
        color.spec_to_u32(),
        color_wireframe.spec_to_u32(),
        culling,
        mostrar_wireframe,
    ) by {
        crate::framebuffer::lemma_cell_index(fb.ancho as int, fb.alto as int, x, y);
        assert(limpio.contiene(x, y));
        assert(limpio.pixel(x, y) == fondo.spec_to_u32());
    }
}

} // verus!
