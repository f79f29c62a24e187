//! A fixed-size buffer of packed colours with bounds-checked writes.

use vstd::prelude::*;
use crate::color::Color;

verus! {

/// A `ancho` by `alto` grid of packed ARGB8888 colours, stored row by row.
///
/// The pixel at column `x` of row `y` is `pixeles[y * ancho + x]`.
pub struct Framebuffer {
    pub ancho: usize,
    pub alto: usize,
    pub pixeles: Vec<u32>,
    pub color_actual: Color,
}

impl Framebuffer {
    /// The buffer holds exactly one packed colour per cell.
    pub open spec fn wf(&self) -> bool {
        self.pixeles@.len() == self.ancho * self.alto
    }

    /// `(x, y)` names a cell of the buffer.
    pub open spec fn contiene(&self, x: int, y: int) -> bool {
        0 <= x < self.ancho && 0 <= y < self.alto
    }

    /// The packed colour at column `x` of row `y`.
    pub open spec fn pixel(&self, x: int, y: int) -> u32
        recommends
            self.contiene(x, y),
    {
        self.pixeles@[y * self.ancho + x]
    }

    /// `otro` has the same size and draw colour as `self`.
    pub open spec fn mismo_marco(&self, otro: &Framebuffer) -> bool {
        &&& self.ancho == otro.ancho
        &&& self.alto == otro.alto
        &&& self.color_actual == otro.color_actual
    }

    /// Allocates a buffer of `ancho * alto` cells, all zero, with an opaque yellow
    /// draw colour.
    pub fn nuevo(ancho: usize, alto: usize) -> (fb: Self)
        requires
            ancho * alto <= usize::MAX,
        ensures
            fb.wf(),
            fb.ancho == ancho,
            fb.alto == alto,
            fb.pixeles@ == Seq::new((ancho * alto) as nat, |i: int| 0u32),
            fb.color_actual == (Color { r: 255, g: 255, b: 0, a: 255 }),
    {
        let pixeles: Vec<u32> = vec![0u32; ancho * alto];
        Self { ancho, alto, pixeles, color_actual: Color::rgba(255, 255, 0, 255) }
    }

    /// Sets every cell to the packed form of `color`.
    pub fn limpiar(&mut self, color: Color)
        requires
            old(self).wf(),
        ensures
            final(self).wf(),
            final(self).mismo_marco(old(self)),
            final(self).pixeles@ == Seq::new(old(self).pixeles@.len(), |i: int| color.spec_to_u32()),
    {
        let v: u32 = color.to_u32();
        let n: usize = self.pixeles.len();
        let mut i: usize = 0;
        while i < n
            invariant
                i <= n,
                n == self.pixeles@.len(),
                self.mismo_marco(old(self)),
                self.wf(),
                v == color.spec_to_u32(),
                forall|k: int| 0 <= k < i ==> self.pixeles@[k] == v,
            decreases n - i,
        {
            self.pixeles[i] = v;
            i += 1;
        }
    }

    /// Sets the draw colour.
    pub fn set_color(&mut self, c: Color)
        ensures
            final(self).color_actual == c,
            final(self).ancho == old(self).ancho,
            final(self).alto == old(self).alto,
            final(self).pixeles == old(self).pixeles,
    {
        self.color_actual = c;
    }

    /// Writes one pixel if `(x, y)` is inside the buffer, and does nothing otherwise.
    pub fn put_pixel(&mut self, x: i32, y: i32, c: Color)
        requires
            old(self).wf(),
        ensures
            final(self).wf(),
            final(self).mismo_marco(old(self)),
            final(self).pixeles@ == if old(self).contiene(x as int, y as int) {
                old(self).pixeles@.update(y * old(self).ancho + x, c.spec_to_u32())
            } else {
                old(self).pixeles@
            },
            forall|i: int, j: int|
                old(self).contiene(i, j) ==> #[trigger] final(self).pixel(i, j) == if i == x && j
                    == y {
                    c.spec_to_u32()
                } else {
                    old(self).pixel(i, j)
                },
    {
        if x < 0 || y < 0 {
            return ;
        }
        let ux: usize = x as usize;
        let uy: usize = y as usize;
        if ux >= self.ancho || uy >= self.alto {
            return ;
        }
        proof {
            lemma_cell_index(self.ancho as int, self.alto as int, ux as int, uy as int);
            assert(self.pixeles.len() == self.pixeles@.len());
        }
        let idx: usize = uy * self.ancho + ux;
        self.pixeles[idx] = c.to_u32();
        proof {
            let w: int = self.ancho as int;
            assert forall|i: int, j: int| old(self).contiene(i, j) implies #[trigger] self.pixel(
                i,
                j,
            ) == if i == x && j == y {
                c.spec_to_u32()
            } else {
                old(self).pixel(i, j)
            } by {
                lemma_cell_index(w, self.alto as int, i, j);
                if j * w + i == uy * w + ux {
                    lemma_cell_index_injective(w, i, j, ux as int, uy as int);
                }
            }
        }
    }
}

/// The row-major index of a cell lies inside the buffer.
pub proof fn lemma_cell_index(ancho: int, alto: int, x: int, y: int)
    by (nonlinear_arith)
    requires
        0 <= x < ancho,
        0 <= y < alto,
    ensures
        0 <= y * ancho <= y * ancho + x < ancho * alto,
{
}

/// Distinct cells have distinct row-major indices.
pub proof fn lemma_cell_index_injective(ancho: int, x1: int, y1: int, x2: int, y2: int)
    by (nonlinear_arith)
    requires
        0 <= x1 < ancho,
        0 <= x2 < ancho,
        y1 * ancho + x1 == y2 * ancho + x2,
    ensures
        x1 == x2,
        y1 == y2,
{
}

/// A row-major index below `ancho * alto` names a cell: its column is the
/// remainder, its row the quotient of the division by `ancho`.
pub proof fn lemma_index_cell(ancho: int, alto: int, k: int)
    by (nonlinear_arith)
    requires
        0 <= ancho,
        0 <= alto,
        0 <= k < ancho * alto,
    ensures
        0 <= k % ancho < ancho,
        0 <= k / ancho < alto,
        (k / ancho) * ancho + k % ancho == k,
{
}

/// Two buffers of one size that agree on every cell hold the same pixels: what is
/// said of a buffer cell by cell says all there is to say of it.
pub proof fn lemma_celdas_determinan(f: Framebuffer, g: Framebuffer)
    requires
        f.wf(),
        g.wf(),
        f.ancho == g.ancho,
        f.alto == g.alto,
        forall|x: int, y: int| f.contiene(x, y) ==> #[trigger] f.pixel(x, y) == g.pixel(x, y),
    ensures
        f.pixeles@ == g.pixeles@,
{
    let w: int = f.ancho as int;
    let h: int = f.alto as int;
    assert forall|k: int| 0 <= k < f.pixeles@.len() implies f.pixeles@[k] == g.pixeles@[k] by {
        lemma_index_cell(w, h, k);
        assert(f.contiene(k % w, k / w));
        assert(f.pixel(k % w, k / w) == g.pixel(k % w, k / w));
    }
    assert(f.pixeles@ =~= g.pixeles@);
}

/// One of the four bytes that a colour occupies in a byte stream: alpha, red,
/// green, blue, in this order.
pub open spec fn canal_argb(c: Color, k: int) -> u8 {
    if k == 0 {
        c.a
    } else if k == 1 {
        c.r
    } else if k == 2 {
        c.g
    } else {
        c.b
    }
}

/// The byte at offset `j` of row `y` of a buffer written out as a byte stream,
/// four bytes per cell.
pub open spec fn byte_de_fila(pixeles: Seq<u32>, ancho: int, y: int, j: int) -> u8 {
    canal_argb(Color::spec_from_u32(pixeles[y * ancho + j / 4]), j % 4)
}

/// The byte at index `i` of a byte stream that held `previo`, after the first `n`
/// rows of a buffer have been written to it, row `y` starting at `y * pitch`. A
/// later row overwrites an earlier one where they overlap.
pub open spec fn byte_tras_filas(
    previo: Seq<u8>,
    pixeles: Seq<u32>,
    ancho: int,
    pitch: int,
    n: int,
    i: int,
) -> u8
    decreases n,
{
    if n <= 0 {
        previo[i]
    } else if (n - 1) * pitch <= i < (n - 1) * pitch + 4 * ancho {
        byte_de_fila(pixeles, ancho, n - 1, i - (n - 1) * pitch)
    } else {
        byte_tras_filas(previo, pixeles, ancho, pitch, n - 1, i)
    }
}

impl Framebuffer {
    /// Writes the buffer into `buf` as a stream of bytes for a display surface whose
    /// rows are `pitch` bytes apart: each cell becomes the four bytes alpha, red,
    /// green, blue. Bytes of `buf` that no row covers keep their value.
    pub fn volcar_argb(&self, buf: &mut [u8], pitch: usize)
        requires
            self.wf(),
            self.alto > 0 ==> (self.alto - 1) * pitch + 4 * self.ancho <= old(buf)@.len(),
        ensures
            final(buf)@.len() == old(buf)@.len(),
            forall|i: int|
                0 <= i < old(buf)@.len() ==> #[trigger] final(buf)@[i] == byte_tras_filas(
                    old(buf)@,
                    self.pixeles@,
                    self.ancho as int,
                    pitch as int,
                    self.alto as int,
                    i,
                ),
    {
        let w: usize = self.ancho;
        let h: usize = self.alto;
        let n: usize = buf.len();
        let ghost previo: Seq<u8> = buf@;
        let mut y: usize = 0;
        while y < h
            invariant
                y <= h,
                w == self.ancho,
                h == self.alto,
                self.wf(),
                n == buf@.len(),
                n == previo.len(),
                h > 0 ==> (h - 1) * pitch + 4 * w <= n,
                forall|i: int|
                    0 <= i < n ==> #[trigger] buf@[i] == byte_tras_filas(
                        previo,
                        self.pixeles@,
                        w as int,
                        pitch as int,
                        y as int,
                        i,
                    ),
            decreases h - y,
        {
            proof {
                lemma_row_fits(h as int, pitch as int, 4 * w, y as int);
            }
            let base: usize = y * pitch;
            let mut x: usize = 0;
            while x < w
                invariant
                    y < h,
                    x <= w,
                    w == self.ancho,
                    h == self.alto,
                    self.wf(),
                        n == buf@.len(),
                    n == previo.len(),
                    base == y * pitch,
                    base + 4 * w <= n,
                    forall|i: int|
                        0 <= i < n ==> #[trigger] buf@[i] == if base <= i < base + 4 * x {
                            byte_de_fila(self.pixeles@, w as int, y as int, i - base)
                        } else {
                            byte_tras_filas(
                                previo,
                                self.pixeles@,
                                w as int,
                                pitch as int,
                                y as int,
                                i,
                            )
                        },
                decreases w - x,
            {
                proof {
                    lemma_cell_index(w as int, h as int, x as int, y as int);
                    assert(self.pixeles.len() == self.pixeles@.len());
                }
                let c: Color = Color::from_u32(self.pixeles[y * w + x]);
                let d: usize = base + 4 * x;
                buf[d] = c.a;
                buf[d + 1] = c.r;
                buf[d + 2] = c.g;
                buf[d + 3] = c.b;
                proof {
                    assert forall|i: int| 0 <= i < n implies #[trigger] buf@[i] == if base <= i
                        < base + 4 * (x + 1) {
                        byte_de_fila(self.pixeles@, w as int, y as int, i - base)
                    } else {
                        byte_tras_filas(
                            previo,
                            self.pixeles@,
                            w as int,
                            pitch as int,
                            y as int,
                            i,
                        )
                    } by {
                        if d <= i < d + 4 {
                            let j: int = i - base;
                            assert(j / 4 == x && j % 4 == i - d);
                        }
                    }
                }
                x += 1;
            }
            y += 1;
        }
    }
}

/// Each row of a byte stream ends where the last one does, or before.
proof fn lemma_row_fits(alto: int, pitch: int, fila: int, y: int)
    by (nonlinear_arith)
    requires
        0 <= y < alto,
        0 <= pitch,
        0 <= fila,
    ensures
        0 <= y * pitch,
        y * pitch + fila <= (alto - 1) * pitch + fila,
{
}

} // verus!
