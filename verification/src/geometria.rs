//! Screen points, indexed faces and the signed-area (edge) function.

use vstd::prelude::*;

verus! {

/// A point of the integer plane: the mathematical value of a screen point.
pub struct Punto {
    pub x: int,
    pub y: int,
}

/// A point in pixel space.
#[derive(Copy, Clone, Debug, PartialEq, Eq, Structural)]
pub struct Vec2i {
    pub x: i32,
    pub y: i32,
}

impl View for Vec2i {
    type V = Punto;

    open spec fn view(&self) -> Punto {
        Punto { x: self.x as int, y: self.y as int }
    }
}

/// A triangular face: three 0-based indices into a vertex list.
#[derive(Copy, Clone, Debug, PartialEq, Eq, Structural)]
pub struct Cara {
    pub i0: usize,
    pub i1: usize,
    pub i2: usize,
}

impl Cara {
    /// All three indices address a vertex list of `n` entries.
    pub open spec fn en_rango(self, n: int) -> bool {
        self.i0 < n && self.i1 < n && self.i2 < n
    }
}

/// Every face of `caras` addresses a vertex list of `n` entries.
pub open spec fn caras_en_rango(caras: Seq<Cara>, n: int) -> bool {
    forall|k: int| 0 <= k < caras.len() ==> (#[trigger] caras[k]).en_rango(n)
}

/// Tells whether every face addresses a vertex list of `n` entries.
pub fn indices_validos(caras: &[Cara], n: usize) -> (ok: bool)
    ensures
        ok == caras_en_rango(caras@, n as int),
{
    let mut k: usize = 0;
    while k < caras.len()
        invariant
            k <= caras.len(),
            forall|j: int| 0 <= j < k ==> (#[trigger] caras@[j]).en_rango(n as int),
        decreases caras.len() - k,
    {
        let cara = caras[k];
        if cara.i0 >= n || cara.i1 >= n || cara.i2 >= n {
            assert(!caras@[k as int].en_rango(n as int));
            return false;
        }
        k += 1;
    }
    true
}

/// The edge function: twice the signed area of the triangle `a`, `b`, `c`.
///
/// Its sign is the winding order of the three points; it is zero exactly when they
/// lie on one line.
pub open spec fn edge(a: Punto, b: Punto, c: Punto) -> int {
    (b.x - a.x) * (c.y - a.y) - (b.y - a.y) * (c.x - a.x)
}

/// A face is front-facing when its screen-space winding has positive signed area.
pub open spec fn es_frontal(a: Punto, b: Punto, c: Punto) -> bool {
    edge(a, b, c) > 0
}

/// Computes the edge function exactly, for any three points.
///
/// The result is wider than the coordinates: the doubled area of a triangle with
/// 32-bit coordinates needs up to 66 bits.
pub fn edge_fn(a: &Vec2i, b: &Vec2i, c: &Vec2i) -> (r: i128)
    ensures
        r == edge(a@, b@, c@),
{
    let bax: i128 = b.x as i128 - a.x as i128;
    let cay: i128 = c.y as i128 - a.y as i128;
    let bay: i128 = b.y as i128 - a.y as i128;
    let cax: i128 = c.x as i128 - a.x as i128;
    proof {
        lemma_product_bound(bax as int, cay as int);
        lemma_product_bound(bay as int, cax as int);
    }
    bax * cay - bay * cax
}

/// The product of two coordinate differences stays within 64 bits of magnitude.
proof fn lemma_product_bound(p: int, q: int)
    by (nonlinear_arith)
    requires
        -0x1_0000_0000 < p < 0x1_0000_0000,
        -0x1_0000_0000 < q < 0x1_0000_0000,
    ensures
        -0x1_0000_0000_0000_0000 < p * q < 0x1_0000_0000_0000_0000,
{
}

/// Swapping any two of the three arguments negates the edge function.
pub proof fn lemma_edge_antisymmetric(a: Punto, b: Punto, c: Punto)
    by (nonlinear_arith)
    ensures
        edge(b, a, c) == -edge(a, b, c),
        edge(a, c, b) == -edge(a, b, c),
        edge(c, b, a) == -edge(a, b, c),
{
}

/// Rotating the three arguments leaves the edge function unchanged.
pub proof fn lemma_edge_cyclic(a: Punto, b: Punto, c: Punto)
    by (nonlinear_arith)
    ensures
        edge(b, c, a) == edge(a, b, c),
        edge(c, a, b) == edge(a, b, c),
{
}

/// The edge function is the shoelace sum of the triangle, whose absolute value is
/// twice the triangle's area.
pub proof fn lemma_edge_is_doubled_area(a: Punto, b: Punto, c: Punto)
    by (nonlinear_arith)
    ensures
        edge(a, b, c) == a.x * (b.y - c.y) + b.x * (c.y - a.y) + c.x * (a.y - b.y),
{
}

/// For a right triangle with legs `w` and `h` along the axes, the edge function is
/// `w * h`: twice the area `w * h / 2`.
pub proof fn lemma_edge_right_triangle(o: Punto, p: Punto, q: Punto)
    by (nonlinear_arith)
    requires
        p.y == o.y,
        q.x == o.x,
    ensures
        edge(o, p, q) == (p.x - o.x) * (q.y - o.y),
{
}

/// The doubled area of a triangle is the sum of the doubled areas of the three
/// triangles that any point `p` forms with its edges.
pub proof fn lemma_edge_decomposition(a: Punto, b: Punto, c: Punto, p: Punto)
    ensures
        edge(b, c, p) + edge(c, a, p) + edge(a, b, p) == edge(a, b, c),
{
    lemma_decomposition_identity(a.x, a.y, b.x, b.y, c.x, c.y, p.x, p.y);
}

proof fn lemma_decomposition_identity(
    ax: int,
    ay: int,
    bx: int,
    by: int,
    cx: int,
    cy: int,
    px: int,
    py: int,
)
    ensures
        ((cx - bx) * (py - by) - (cy - by) * (px - bx)) + ((ax - cx) * (py - cy) - (ay - cy) * (px
            - cx)) + ((bx - ax) * (py - ay) - (by - ay) * (px - ax)) == (bx - ax) * (cy - ay) - (by
            - ay) * (cx - ax),
{
    lemma_expand_xy(cx, bx, py, by);
    lemma_expand_yx(cy, by, px, bx);
    lemma_expand_xy(ax, cx, py, cy);
    lemma_expand_yx(ay, cy, px, cx);
    lemma_expand_xy(bx, ax, py, ay);
    lemma_expand_yx(by, ay, px, ax);
    lemma_expand_xy(bx, ax, cy, ay);
    lemma_expand_yx(by, ay, cx, ax);
}

/// `(u - v) * (w - z)` written out, each monomial with the factor of the first
/// difference in front.
proof fn lemma_expand_xy(u: int, v: int, w: int, z: int)
    by (nonlinear_arith)
    ensures
        (u - v) * (w - z) == u * w - u * z - v * w + v * z,
{
}

/// `(u - v) * (w - z)` written out, each monomial with the factor of the second
/// difference in front.
proof fn lemma_expand_yx(u: int, v: int, w: int, z: int)
    by (nonlinear_arith)
    ensures
        (u - v) * (w - z) == w * u - z * u - w * v + z * v,
{
}

/// Three points on one line span no area: if `b` and `c` are both reached from `a`
/// by integer multiples of one direction `(dx, dy)`, the edge function is zero.
pub proof fn lemma_collinear_has_zero_area(a: Punto, b: Punto, c: Punto, dx: int, dy: int, s: int, t: int)
    by (nonlinear_arith)
    requires
        b.x == a.x + s * dx,
        b.y == a.y + s * dy,
        c.x == a.x + t * dx,
        c.y == a.y + t * dy,
    ensures
        edge(a, b, c) == 0,
{
}

/// Reversing the winding of a triangle of non-zero area flips whether it is
/// front-facing, whichever two corners are swapped.
pub proof fn lemma_reversed_winding_flips_facing(a: Punto, b: Punto, c: Punto)
    requires
        edge(a, b, c) != 0,
    ensures
        es_frontal(b, a, c) == !es_frontal(a, b, c),
        es_frontal(a, c, b) == !es_frontal(a, b, c),
        es_frontal(c, b, a) == !es_frontal(a, b, c),
{
    lemma_edge_antisymmetric(a, b, c);
}

} // verus!
