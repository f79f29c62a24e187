//! Conversion of a pixel buffer into an RGBA image of the `image` crate, ready to
//! be encoded.

use vstd::prelude::*;
use image::{ImageBuffer, Rgba};
use crate::color::Color;
use crate::framebuffer::{lemma_cell_index, Framebuffer};

verus! {

/// An 8-bit RGBA image of the `image` crate. What it holds is known to the
/// library only through `imagen_muestras`, `imagen_ancho` and `imagen_alto`.
#[verifier::external_body]
pub struct ImagenRgba {
    pub imagen: ImageBuffer<Rgba<u8>, Vec<u8>>,
}

/// The samples of an image: four per pixel, in the order red, green, blue, alpha,
/// pixel after pixel along each row and row after row.
pub uninterp spec fn imagen_muestras(img: ImagenRgba) -> Seq<u8>;

/// The width of an image, in pixels.
pub uninterp spec fn imagen_ancho(img: ImagenRgba) -> u32;

/// The height of an image, in pixels.
pub uninterp spec fn imagen_alto(img: ImagenRgba) -> u32;

/// `image::ImageBuffer::new`: an image of the given size whose samples are all
/// zero. It panics when the number of samples, computed as four times the width
/// times the height, does not fit a `usize` at either step; the precondition
/// leaves those sizes out.
#[verifier::external_body]
fn imagen_nueva(ancho: u32, alto: u32) -> (img: ImagenRgba)
    requires
        4 * ancho <= usize::MAX,
        4 * (ancho * alto) <= usize::MAX,
    ensures
        imagen_ancho(img) == ancho,
        imagen_alto(img) == alto,
        imagen_muestras(img) == Seq::new((4 * (ancho * alto)) as nat, |i: int| 0u8),
{
    ImagenRgba { imagen: ImageBuffer::new(ancho, alto) }
}

/// `image::ImageBuffer::put_pixel` with the pixel `Rgba([r, g, b, a])`: the four
/// samples of the pixel at `(x, y)` become `r`, `g`, `b`, `a`, and nothing else
/// changes. It panics when `(x, y)` is outside the image, which the precondition
/// leaves out.
#[verifier::external_body]
fn imagen_poner(
    img: &mut ImagenRgba,
    x: u32,
    y: u32,
    r: u8,
    g: u8,
    b: u8,
    a: u8,
)
    requires
        x < imagen_ancho(*old(img)),
        y < imagen_alto(*old(img)),
    ensures
        imagen_ancho(*final(img)) == imagen_ancho(*old(img)),
        imagen_alto(*final(img)) == imagen_alto(*old(img)),
        imagen_muestras(*final(img)) == imagen_muestras(*old(img)).update(
            4 * (y * imagen_ancho(*old(img)) + x),
            r,
        ).update(4 * (y * imagen_ancho(*old(img)) + x) + 1, g).update(
            4 * (y * imagen_ancho(*old(img)) + x) + 2,
            b,
        ).update(4 * (y * imagen_ancho(*old(img)) + x) + 3, a),
{
    img.imagen.put_pixel(x, y, Rgba([r, g, b, a]));
}

/// The samples of `img` are the channels of the first `n` cells of `pixeles`.
pub open spec fn muestras_de(muestras: Seq<u8>, pixeles: Seq<u32>, n: int) -> bool {
    forall|k: int|
        0 <= k < n ==> {
            let c = Color::spec_from_u32(#[trigger] pixeles[k]);
            &&& muestras[4 * k] == c.r
            &&& muestras[4 * k + 1] == c.g
            &&& muestras[4 * k + 2] == c.b
            &&& muestras[4 * k + 3] == c.a
        }
}

impl Framebuffer {
    /// Copies the buffer into an image of the same size: every packed colour is
    /// unpacked and stored as the four samples red, green, blue, alpha.
    pub fn a_imagen(&self) -> (img: ImagenRgba)
        requires
            self.wf(),
            self.ancho <= u32::MAX,
            self.alto <= u32::MAX,
            4 * self.ancho <= usize::MAX,
            4 * (self.ancho * self.alto) <= usize::MAX,
        ensures
            imagen_ancho(img) == self.ancho,
            imagen_alto(img) == self.alto,
            imagen_muestras(img).len() == 4 * self.pixeles@.len(),
            muestras_de(imagen_muestras(img), self.pixeles@, self.pixeles@.len() as int),
    {
        let w: usize = self.ancho;
        let h: usize = self.alto;
        let mut img = imagen_nueva(w as u32, h as u32);
        let mut y: usize = 0;
        while y < h
            invariant
                y <= h,
                w == self.ancho,
                h == self.alto,
                self.wf(),
                w <= u32::MAX,
                h <= u32::MAX,
                imagen_ancho(img) == w,
                imagen_alto(img) == h,
                imagen_muestras(img).len() == 4 * (w * h),
                muestras_de(imagen_muestras(img), self.pixeles@, y * w),
            decreases h - y,
        {
            let mut x: usize = 0;
            while x < w
                invariant
                    y < h,
                    x <= w,
                    w == self.ancho,
                    h == self.alto,
                    self.wf(),
                    w <= u32::MAX,
                    h <= u32::MAX,
                    imagen_ancho(img) == w,
                    imagen_alto(img) == h,
                    imagen_muestras(img).len() == 4 * (w * h),
                    muestras_de(imagen_muestras(img), self.pixeles@, y * w + x),
                decreases w - x,
            {
                proof {
                    lemma_cell_index(w as int, h as int, x as int, y as int);
                    assert(self.pixeles.len() == self.pixeles@.len());
                }
                let c: Color = Color::from_u32(self.pixeles[y * w + x]);
                let ghost antes: Seq<u8> = imagen_muestras(img);
                imagen_poner(&mut img, x as u32, y as u32, c.r, c.g, c.b, c.a);
                proof {
                    let k: int = y * w + x;
                    let ahora: Seq<u8> = imagen_muestras(img);
                    assert(ahora == antes.update(4 * k, c.r).update(4 * k + 1, c.g).update(
                        4 * k + 2,
                        c.b,
                    ).update(4 * k + 3, c.a));
                    assert forall|j: int| 0 <= j < k + 1 implies {
                        let d = Color::spec_from_u32(#[trigger] self.pixeles@[j]);
                        &&& ahora[4 * j] == d.r
                        &&& ahora[4 * j + 1] == d.g
                        &&& ahora[4 * j + 2] == d.b
                        &&& ahora[4 * j + 3] == d.a
                    } by {
                        if j < k {
                            assert(antes[4 * j] == Color::spec_from_u32(self.pixeles@[j]).r);
                        }
                    }
                }
                x += 1;
            }
            proof {
                assert(y * w + w == (y + 1) * w) by (nonlinear_arith);
            }
            y += 1;
        }
        proof {
            assert(h * w == w * h) by (nonlinear_arith);
        }
        img
    }
}

} // verus!
