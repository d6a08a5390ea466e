//! The mask reconstructor: combines per-instance mask coefficients with the
//! shared prototype tensor into a full-resolution 8-bit instance mask.
//!
//! The steps, each with an exact specification:
//! 1. a linear combination of prototype channels per prototype pixel (a dot
//!    product, no activation afterwards) — [`mask_score`];
//! 2. monotonic quantization to 8 bits, lossless at the extremes `0` and
//!    `255` — [`quantize_level`];
//! 3. a crop of the prototype canvas to the region that corresponds to the
//!    un-padded original image, using the letterbox relation in prototype
//!    space — [`crop_region`], [`valid_w`], [`valid_h`];
//! 4. smooth upsampling to the original image size through the `image`
//!    crate's Catmull-Rom filter — [`catmull_resize`];
//! 5. zeroing every pixel outside the candidate's box expanded by 10 pixels
//!    on each side — [`crop_to_box_spec`].

use vstd::prelude::*;

use crate::arith::lemma_abs_mul_bound;
use crate::arith::lemma_div_bound;
use crate::arith::lemma_grid_index;
use crate::arith::lemma_mul_bound;
use crate::arith::lemma_round_div_le;
use crate::decode::ratio_den;
use crate::decode::ratio_num;
use crate::errors::YoloError;
use crate::geometry::Bbox;
use crate::units::DIM_LIMIT;
use crate::units::NM_LIMIT;
use crate::units::RAW_LIMIT;
use crate::units::UNIT;
use crate::units::mul_div_round;
use crate::units::round_div;
use vstd::arithmetic::div_mod::lemma_fundamental_div_mod;
use vstd::arithmetic::div_mod::lemma_fundamental_div_mod_converse;

verus! {

/// The shared prototype tensor of one image: `nm` channels of a
/// `height x width` low-resolution canvas, in channel-major layout (the
/// value of channel `k` at pixel `(x, y)` sits at `(k*height + y)*width + x`).
#[derive(Debug)]
pub struct ProtoTensor {
    pub nm: usize,
    pub height: usize,
    pub width: usize,
    pub vals: Vec<i64>,
}

impl ProtoTensor {
    /// The value of channel `k` at pixel `(x, y)`.
    pub open spec fn at(self, k: int, y: int, x: int) -> int {
        self.vals@[(k * self.height + y) * self.width + x] as int
    }

    /// The checked shape contract of the reconstruction boundary:
    /// consistent dimensions, a dense channel-major layout, and every value
    /// a bounded raw tensor value.
    pub open spec fn wf(self) -> bool {
        &&& self.nm <= NM_LIMIT
        &&& 1 <= self.height <= DIM_LIMIT
        &&& 1 <= self.width <= DIM_LIMIT
        &&& self.vals@.len() == self.nm * self.height * self.width
        &&& forall|i: int|
            0 <= i < self.vals@.len() ==> -RAW_LIMIT <= #[trigger] self.vals@[i] <= RAW_LIMIT
    }

    /// Validate a raw channel-major buffer and wrap it as a prototype
    /// tensor.  Fails with `ShapeMismatch` exactly when the dimensions are
    /// inconsistent or a value is out of range.
    pub fn new(nm: usize, height: usize, width: usize, vals: Vec<i64>) -> (r: Result<
        ProtoTensor,
        YoloError,
    >)
        ensures
            r matches Ok(p) ==> p == (ProtoTensor { nm, height, width, vals }),
            r is Ok <==> (ProtoTensor { nm, height, width, vals }).wf(),
            r is Err ==> r == Err::<ProtoTensor, YoloError>(YoloError::ShapeMismatch),
    {
        let ghost target = ProtoTensor { nm, height, width, vals: vals };
        if nm > NM_LIMIT as usize || height < 1 || height > DIM_LIMIT as usize || width < 1
            || width > DIM_LIMIT as usize {
            return Err(YoloError::ShapeMismatch);
        }
        let n = vals.len();
        proof {
            if target.wf() {
                lemma_fundamental_div_mod_converse(
                    (nm * height) * (width as int), width as int, (nm * height) as int, 0);
            }
        }
        if n % width != 0 || (n / width) % height != 0 || (n / width) / height != nm {
            proof {
                if target.wf() {
                    lemma_fundamental_div_mod_converse(
                        (nm as int) * (height as int), height as int, nm as int, 0);
                }
            }
            return Err(YoloError::ShapeMismatch);
        }
        proof {
            lemma_fundamental_div_mod(n as int, width as int);
            lemma_fundamental_div_mod((n as int) / (width as int), height as int);
            assert((width as int) * ((height as int) * (nm as int)) == (nm as int) * (
            height as int) * (width as int)) by (nonlinear_arith);
        }
        let mut i: usize = 0;
        while i < n
            invariant
                i <= n,
                n == vals.len(),
                forall|j: int| 0 <= j < i ==> -RAW_LIMIT <= #[trigger] vals@[j] <= RAW_LIMIT,
            decreases n - i,
        {
            let v = vals[i];
            if v < -RAW_LIMIT || v > RAW_LIMIT {
                return Err(YoloError::ShapeMismatch);
            }
            i = i + 1;
        }
        Ok(ProtoTensor { nm, height, width, vals })
    }

    /// Read the value of channel `k` at pixel `(x, y)`.
    pub fn get(&self, k: usize, y: usize, x: usize) -> (r: i64)
        requires
            self.wf(),
            k < self.nm,
            y < self.height,
            x < self.width,
        ensures
            r == self.at(k as int, y as int, x as int),
            -RAW_LIMIT <= r <= RAW_LIMIT,
    {
        // a vector's length fits in usize, which bounds the index arithmetic
        let n = self.vals.len();
        proof {
            lemma_mul_bound(self.nm as int, self.height as int, NM_LIMIT as int,
                DIM_LIMIT as int);
            lemma_grid_index(k as int, y as int, self.nm as int, self.height as int);
            lemma_grid_index(
                (k * self.height + y) as int, x as int, (self.nm * self.height) as int,
                self.width as int);
        }
        self.vals[(k * self.height + y) * self.width + x]
    }
}

/// Partial dot product of the first `n` mask coefficients with the
/// prototype channels at pixel `(x, y)`.
pub open spec fn dot_upto(coefs: Seq<i64>, p: ProtoTensor, y: int, x: int, n: int) -> int
    decreases n,
{
    if n <= 0 {
        0
    } else {
        dot_upto(coefs, p, y, x, n - 1) + coefs[n - 1] * p.at(n - 1, y, x)
    }
}

/// The raw linear mask score at prototype pixel `(x, y)`: the coefficient
/// row vector dotted with the prototype channels, no activation applied.
pub open spec fn mask_score(coefs: Seq<i64>, p: ProtoTensor, y: int, x: int) -> int {
    dot_upto(coefs, p, y, x, p.nm as int)
}

/// Quantize a fixed-point intensity (scale `UNIT * UNIT`) to 8 bits:
/// clamp below at `0`, above at `255`, scale linearly in between.
/// Monotonic, and lossless at the extremes: `0` maps to `0` and a full
/// intensity of `1.0` maps to `255`.
pub open spec fn quantize_level(v: int) -> int {
    if v <= 0 {
        0
    } else if v * 255 / (UNIT * UNIT) >= 255 {
        255
    } else {
        v * 255 / (UNIT * UNIT)
    }
}

/// Quantization is monotonic: a higher intensity never maps to a lower
/// byte, and the result always lies in `[0, 255]`.
pub proof fn lemma_quantize_monotonic(a: int, b: int)
    requires
        a <= b,
    ensures
        0 <= quantize_level(a) <= quantize_level(b) <= 255,
{
    if 0 < a {
        crate::arith::lemma_mul_le_mono(a, b, 255);
        assert(a * 255 == 255 * a) by (nonlinear_arith);
        assert(b * 255 == 255 * b) by (nonlinear_arith);
        vstd::arithmetic::div_mod::lemma_div_is_ordered(a * 255, b * 255, UNIT * UNIT);
        crate::arith::lemma_div_bound(a * 255, UNIT * UNIT);
    }
    if 0 < b {
        crate::arith::lemma_div_bound(b * 255, UNIT * UNIT);
    }
}

/// Quantization is lossless at the extremes: zero intensity maps to `0` and
/// a full intensity of `1.0` (fixed point `UNIT * UNIT`) maps to `255`.
pub proof fn lemma_quantize_extremes()
    ensures
        quantize_level(0) == 0,
        quantize_level(UNIT * UNIT) == 255,
{
    crate::arith::lemma_div_exact(255, UNIT * UNIT);
    assert((UNIT * UNIT) * 255 == 255 * (UNIT * UNIT)) by (nonlinear_arith);
}

/// The quantized low-resolution instance mask, one byte per prototype
/// pixel, in row-major order.
pub open spec fn proto_mask(coefs: Seq<i64>, p: ProtoTensor) -> Seq<u8> {
    Seq::new(
        (p.height * p.width) as nat,
        |i: int|
            quantize_level(
                mask_score(coefs, p, i / (p.width as int), i % (p.width as int))) as u8,
    )
}

/// The top-left `w x h` region of a row-major `src_w`-wide canvas.
pub open spec fn crop_region(src: Seq<u8>, src_w: int, w: int, h: int) -> Seq<u8> {
    Seq::new((w * h) as nat, |i: int| src[(i / w) * src_w + (i % w)])
}

/// What `image::imageops::resize` with the Catmull-Rom filter returns for a
/// row-major 8-bit single-channel image: a function of the source pixels
/// and the dimensions alone.
pub uninterp spec fn catmull_resize(src: Seq<u8>, sw: int, sh: int, dw: int, dh: int) -> Seq<u8>;

/// A pixel is outside the candidate's box expanded by the fixed 10-pixel
/// padding margin.
pub open spec fn outside_box(b: Bbox, x: int, y: int) -> bool {
    ||| x < b.xmin - 10
    ||| x > b.spec_xmax() + 10
    ||| y < b.ymin - 10
    ||| y > b.spec_ymax() + 10
}

/// Zero every pixel outside the expanded box; keep every pixel inside.
pub open spec fn crop_to_box_spec(src: Seq<u8>, w: int, b: Bbox) -> Seq<u8> {
    Seq::new(
        src.len(),
        |i: int|
            if outside_box(b, i % w, i / w) {
                0u8
            } else {
                src[i]
            },
    )
}

/// Width of the valid (un-padded) region of the prototype canvas: the
/// original width scaled by `min(protoW/origW, protoH/origH)`, rounded.
pub open spec fn valid_w(p: ProtoTensor, ow: int, oh: int) -> int {
    round_div(
        ow * ratio_num(p.width as int, p.height as int, ow, oh),
        ratio_den(p.width as int, p.height as int, ow, oh),
    )
}

/// Height of the valid (un-padded) region of the prototype canvas.
pub open spec fn valid_h(p: ProtoTensor, ow: int, oh: int) -> int {
    round_div(
        oh * ratio_num(p.width as int, p.height as int, ow, oh),
        ratio_den(p.width as int, p.height as int, ow, oh),
    )
}

/// The finished instance mask: synthesize and quantize the prototype-space
/// mask, crop away the letterbox padding, upsample to the original image,
/// and zero everything outside the expanded candidate box.
pub open spec fn mask_spec(coefs: Seq<i64>, p: ProtoTensor, ow: int, oh: int, b: Bbox)
    -> Seq<u8> {
    let wv = valid_w(p, ow, oh);
    let hv = valid_h(p, ow, oh);
    crop_to_box_spec(
        catmull_resize(crop_region(proto_mask(coefs, p), p.width as int, wv, hv), wv, hv, ow, oh),
        ow,
        b,
    )
}

/// An 8-bit single-channel mask image, row-major.
#[derive(Debug)]
pub struct MaskImage {
    pub width: u32,
    pub height: u32,
    pub data: Vec<u8>,
}

/// The mathematical value of a [`MaskImage`].
pub struct MaskView {
    pub width: u32,
    pub height: u32,
    pub data: Seq<u8>,
}

impl View for MaskImage {
    type V = MaskView;

    open spec fn view(&self) -> MaskView {
        MaskView { width: self.width, height: self.height, data: self.data@ }
    }
}

/// Every pixel strictly outside the expanded box `[xmin-10, xmax+10] x
/// [ymin-10, ymax+10]` is exactly `0` in the cropped mask.
pub proof fn lemma_mask_crop_outside_zero(src: Seq<u8>, w: int, b: Bbox, x: int, y: int)
    requires
        1 <= w,
        0 <= x < w,
        0 <= y,
        y * w + x < src.len(),
        outside_box(b, x, y),
    ensures
        crop_to_box_spec(src, w, b)[y * w + x] == 0,
{
    lemma_fundamental_div_mod_converse(y * w + x, w, y, x);
}

/// Every pixel inside the expanded box keeps its value in the cropped mask.
pub proof fn lemma_mask_crop_inside_kept(src: Seq<u8>, w: int, b: Bbox, x: int, y: int)
    requires
        1 <= w,
        0 <= x < w,
        0 <= y,
        y * w + x < src.len(),
        !outside_box(b, x, y),
    ensures
        crop_to_box_spec(src, w, b)[y * w + x] == src[y * w + x],
{
    lemma_fundamental_div_mod_converse(y * w + x, w, y, x);
}

/// Compute the quantized low-resolution instance mask from the mask
/// coefficients and the prototype tensor.
pub fn synthesize_mask(coefs: &Vec<i64>, p: &ProtoTensor) -> (r: Vec<u8>)
    requires
        p.wf(),
        coefs@.len() == p.nm,
        forall|i: int| 0 <= i < coefs@.len() ==> -RAW_LIMIT <= #[trigger] coefs@[i] <= RAW_LIMIT,
    ensures
        r@ == proto_mask(coefs@, *p),
        r@.len() == p.height * p.width,
{
    let ghost pm = proto_mask(coefs@, *p);
    proof {
        lemma_mul_bound(p.height as int, p.width as int, DIM_LIMIT as int, DIM_LIMIT as int);
    }
    let mut out: Vec<u8> = Vec::new();
    let mut y: usize = 0;
    while y < p.height
        invariant
            p.wf(),
            coefs@.len() == p.nm,
            forall|i: int|
                0 <= i < coefs@.len() ==> -RAW_LIMIT <= #[trigger] coefs@[i] <= RAW_LIMIT,
            y <= p.height,
            pm == proto_mask(coefs@, *p),
            out@.len() == y * p.width,
            forall|i: int| 0 <= i < out@.len() ==> out@[i] == pm[i],
        decreases p.height - y,
    {
        let mut x: usize = 0;
        proof {
            lemma_grid_index(y as int, 0, p.height as int, p.width as int);
        }
        while x < p.width
            invariant
                p.wf(),
                coefs@.len() == p.nm,
                forall|i: int|
                    0 <= i < coefs@.len() ==> -RAW_LIMIT <= #[trigger] coefs@[i] <= RAW_LIMIT,
                y < p.height,
                x <= p.width,
                pm == proto_mask(coefs@, *p),
                out@.len() == y * p.width + x,
                forall|i: int| 0 <= i < out@.len() ==> out@[i] == pm[i],
            decreases p.width - x,
        {
            // raw linear score: coefficients dotted with prototype channels
            let mut acc: i128 = 0;
            let mut k: usize = 0;
            while k < p.nm
                invariant
                    p.wf(),
                    coefs@.len() == p.nm,
                    forall|i: int|
                        0 <= i < coefs@.len() ==> -RAW_LIMIT <= #[trigger] coefs@[i]
                            <= RAW_LIMIT,
                    y < p.height,
                    x < p.width,
                    k <= p.nm,
                    acc == dot_upto(coefs@, *p, y as int, x as int, k as int),
                    -(k * 0x1_0000_0000_0000) <= acc <= k * 0x1_0000_0000_0000,
                decreases p.nm - k,
            {
                let c = coefs[k];
                let v = p.get(k, y, x);
                proof {
                    lemma_abs_mul_bound(c as int, v as int, RAW_LIMIT as int, RAW_LIMIT as int);
                }
                let prod: i128 = (c as i128) * (v as i128);
                acc = acc + prod;
                k = k + 1;
            }
            // quantize: clamp to [0, 255], scale linearly in between
            let level: u8 = if acc <= 0 {
                0
            } else {
                proof {
                    lemma_div_bound(acc as int * 255, 1_000_000_000_000);
                }
                let q: i128 = acc * 255 / 1_000_000_000_000;
                if q >= 255 {
                    255
                } else {
                    q as u8
                }
            };
            proof {
                assert(acc == mask_score(coefs@, *p, y as int, x as int));
                assert(level as int == quantize_level(acc as int));
                let i = y * (p.width as int) + x;
                lemma_fundamental_div_mod_converse(i, p.width as int, y as int, x as int);
                lemma_grid_index(y as int, x as int, p.height as int, p.width as int);
                assert(pm[i] == level);
            }
            out.push(level);
            x = x + 1;
        }
        proof {
            assert((y as int + 1) * (p.width as int) == y * (p.width as int) + p.width) by (
            nonlinear_arith);
        }
        y = y + 1;
    }
    proof {
        assert(out@ =~= pm);
    }
    out
}

/// Copy the top-left `w x h` region out of a row-major `sw`-wide,
/// `sh`-high canvas.
pub fn crop_map(src: &Vec<u8>, sh: usize, sw: usize, w: usize, h: usize) -> (r: Vec<u8>)
    requires
        src@.len() == sh * sw,
        1 <= w <= sw,
        1 <= h <= sh,
        sw <= DIM_LIMIT,
        sh <= DIM_LIMIT,
    ensures
        r@ == crop_region(src@, sw as int, w as int, h as int),
        r@.len() == w * h,
{
    let ghost cr = crop_region(src@, sw as int, w as int, h as int);
    proof {
        lemma_mul_bound(w as int, h as int, DIM_LIMIT as int, DIM_LIMIT as int);
    }
    let mut out: Vec<u8> = Vec::new();
    let mut y: usize = 0;
    while y < h
        invariant
            src@.len() == sh * sw,
            1 <= w <= sw,
            1 <= h <= sh,
            sw <= DIM_LIMIT,
            sh <= DIM_LIMIT,
            y <= h,
            cr == crop_region(src@, sw as int, w as int, h as int),
            out@.len() == y * w,
            forall|i: int| 0 <= i < out@.len() ==> out@[i] == cr[i],
        decreases h - y,
    {
        let mut x: usize = 0;
        while x < w
            invariant
                src@.len() == sh * sw,
                1 <= w <= sw,
                1 <= h <= sh,
                sw <= DIM_LIMIT,
                sh <= DIM_LIMIT,
                y < h,
                x <= w,
                cr == crop_region(src@, sw as int, w as int, h as int),
                out@.len() == y * w + x,
                forall|i: int| 0 <= i < out@.len() ==> out@[i] == cr[i],
            decreases w - x,
        {
            proof {
                lemma_mul_bound(sh as int, sw as int, DIM_LIMIT as int, DIM_LIMIT as int);
                lemma_grid_index(y as int, x as int, sh as int, sw as int);
                lemma_grid_index(y as int, x as int, h as int, w as int);
                let i = y * (w as int) + x;
                lemma_fundamental_div_mod_converse(i, w as int, y as int, x as int);
            }
            let v = src[y * sw + x];
            out.push(v);
            x = x + 1;
        }
        proof {
            assert((y as int + 1) * (w as int) == y * (w as int) + w) by (nonlinear_arith);
        }
        y = y + 1;
    }
    proof {
        lemma_mul_bound(w as int, h as int, DIM_LIMIT as int, DIM_LIMIT as int);
        assert((h as int) * (w as int) == (w as int) * (h as int)) by (nonlinear_arith);
        assert(out@ =~= cr);
    }
    out
}

/// Relies on `image::imageops::resize` with `FilterType::CatmullRom`: it
/// resamples a row-major 8-bit single-channel image to the requested
/// dimensions, a deterministic function of the pixels and dimensions alone,
/// and returns a buffer of exactly `dw * dh` bytes.
#[verifier::external_body]
fn resize_catmull(src: &Vec<u8>, sw: u32, sh: u32, dw: u32, dh: u32) -> (r: Vec<u8>)
    requires
        1 <= sw,
        1 <= sh,
        1 <= dw <= DIM_LIMIT,
        1 <= dh <= DIM_LIMIT,
        src@.len() == sw * sh,
        dw * dh <= usize::MAX,
    ensures
        r@ == catmull_resize(src@, sw as int, sh as int, dw as int, dh as int),
        r@.len() == dw * dh,
{
    let img = image::GrayImage::from_raw(sw, sh, src.clone()).unwrap();
    let out = image::imageops::resize(&img, dw, dh, image::imageops::FilterType::CatmullRom);
    out.into_raw()
}

/// Zero every pixel of the row-major `w x h` mask that lies outside the
/// candidate's box expanded by 10 pixels on each side.
pub fn crop_mask_to_box(mask: &mut Vec<u8>, w: usize, h: usize, b: &Bbox)
    requires
        old(mask)@.len() == w * h,
        b.wf(),
        1 <= w <= DIM_LIMIT,
        1 <= h <= DIM_LIMIT,
    ensures
        final(mask)@ == crop_to_box_spec(old(mask)@, w as int, *b),
        final(mask)@.len() == old(mask)@.len(),
{
    let ghost src = mask@;
    let ghost cs = crop_to_box_spec(src, w as int, *b);
    let xmax = b.xmax();
    let ymax = b.ymax();
    let mut y: usize = 0;
    while y < h
        invariant
            mask@.len() == w * h,
            src.len() == w * h,
            b.wf(),
            1 <= w <= DIM_LIMIT,
            1 <= h <= DIM_LIMIT,
            xmax == b.spec_xmax(),
            ymax == b.spec_ymax(),
            y <= h,
            cs == crop_to_box_spec(src, w as int, *b),
            cs.len() == src.len(),
            forall|i: int|
                0 <= i < mask@.len() ==> mask@[i] == (if i < y * w {
                    cs[i]
                } else {
                    src[i]
                }),
        decreases h - y,
    {
        let mut x: usize = 0;
        while x < w
            invariant
                mask@.len() == w * h,
                src.len() == w * h,
                b.wf(),
                1 <= w <= DIM_LIMIT,
                1 <= h <= DIM_LIMIT,
                xmax == b.spec_xmax(),
                ymax == b.spec_ymax(),
                y < h,
                x <= w,
                cs == crop_to_box_spec(src, w as int, *b),
                cs.len() == src.len(),
                forall|i: int|
                    0 <= i < mask@.len() ==> mask@[i] == (if i < y * w + x {
                        cs[i]
                    } else {
                        src[i]
                    }),
            decreases w - x,
        {
            proof {
                lemma_mul_bound(h as int, w as int, DIM_LIMIT as int, DIM_LIMIT as int);
                lemma_grid_index(y as int, x as int, h as int, w as int);
                assert((h as int) * (w as int) == (w as int) * (h as int)) by (nonlinear_arith);
                lemma_fundamental_div_mod_converse(
                    y * (w as int) + x, w as int, y as int, x as int);
            }
            let xi = x as i64;
            let yi = y as i64;
            if xi < b.xmin - 10 || xi > xmax + 10 || yi < b.ymin - 10 || yi > ymax + 10 {
                mask.set(y * w + x, 0u8);
            }
            x = x + 1;
        }
        proof {
            assert((y as int + 1) * (w as int) == y * (w as int) + w) by (nonlinear_arith);
        }
        y = y + 1;
    }
    proof {
        lemma_mul_bound(w as int, h as int, DIM_LIMIT as int, DIM_LIMIT as int);
        assert((h as int) * (w as int) == (w as int) * (h as int)) by (nonlinear_arith);
        assert(mask@ =~= cs);
    }
}

/// Reconstruct the full-resolution instance mask of one surviving
/// candidate.  Returns `None` exactly when the valid letterbox region of
/// the prototype canvas is empty, which happens only for degenerate
/// aspect-ratio combinations.
pub fn reconstruct_mask(coefs: &Vec<i64>, p: &ProtoTensor, ow: u32, oh: u32, b: &Bbox) -> (r:
    Option<MaskImage>)
    requires
        p.wf(),
        coefs@.len() == p.nm,
        forall|i: int| 0 <= i < coefs@.len() ==> -RAW_LIMIT <= #[trigger] coefs@[i] <= RAW_LIMIT,
        1 <= ow <= DIM_LIMIT,
        1 <= oh <= DIM_LIMIT,
        b.wf(),
    ensures
        r is Some <==> valid_w(*p, ow as int, oh as int) >= 1 && valid_h(*p, ow as int, oh as int)
            >= 1,
        r matches Some(mi) ==> mi.width == ow && mi.height == oh && mi.data@ == mask_spec(
            coefs@, *p, ow as int, oh as int, *b) && mi.data@.len() == ow * oh,
{
    let ghost gow = ow as int;
    let ghost goh = oh as int;
    let pw = p.width;
    let ph = p.height;
    proof {
        lemma_mul_bound(pw as int, oh as int, DIM_LIMIT as int, DIM_LIMIT as int);
        lemma_mul_bound(ph as int, ow as int, DIM_LIMIT as int, DIM_LIMIT as int);
    }
    // letterbox ratio in prototype space: min(protoW/origW, protoH/origH)
    let (num, den) = if (pw as u64) * (oh as u64) <= (ph as u64) * (ow as u64) {
        (pw as u32, ow)
    } else {
        (ph as u32, oh)
    };
    proof {
        assert(num == ratio_num(pw as int, ph as int, gow, goh));
        assert(den == ratio_den(pw as int, ph as int, gow, goh));
    }
    let wv = mul_div_round(ow as i64, num as i64, den as i64);
    let hv = mul_div_round(oh as i64, num as i64, den as i64);
    proof {
        assert(wv == valid_w(*p, gow, goh));
        assert(hv == valid_h(*p, gow, goh));
        // the valid region never exceeds the prototype canvas
        if (pw as int) * goh <= (ph as int) * gow {
            assert(gow * (num as int) <= (pw as int) * (den as int)) by (nonlinear_arith)
                requires
                    num == pw as int,
                    den == gow,
            ;
            assert(goh * (num as int) <= (ph as int) * (den as int)) by (nonlinear_arith)
                requires
                    num == pw as int,
                    den == gow,
                    (pw as int) * goh <= (ph as int) * gow,
            ;
        } else {
            assert(gow * (num as int) <= (pw as int) * (den as int)) by (nonlinear_arith)
                requires
                    num == ph as int,
                    den == goh,
                    (ph as int) * gow <= (pw as int) * goh,
            ;
            assert(goh * (num as int) <= (ph as int) * (den as int)) by (nonlinear_arith)
                requires
                    num == ph as int,
                    den == goh,
            ;
        }
        lemma_round_div_le(gow * (num as int), den as int, pw as int);
        lemma_round_div_le(goh * (num as int), den as int, ph as int);
    }
    if wv == 0 || hv == 0 {
        return None;
    }
    let low = synthesize_mask(coefs, p);
    let cropped = crop_map(&low, ph, pw, wv as usize, hv as usize);
    proof {
        lemma_mul_bound(ow as int, oh as int, DIM_LIMIT as int, DIM_LIMIT as int);
    }
    let resized = resize_catmull(&cropped, wv as u32, hv as u32, ow, oh);
    let mut data = resized;
    crop_mask_to_box(&mut data, ow as usize, oh as usize, b);
    Some(MaskImage { width: ow, height: oh, data })
}

} // verus!
