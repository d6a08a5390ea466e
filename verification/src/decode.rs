//! The detection decoder: converts the raw per-anchor prediction tensor of
//! one image into scored, image-space candidate boxes plus raw mask
//! coefficients.
//!
//! The tensor is a 2D view `(channels, anchors)` whose channels are laid out
//! as `[cx, cy, w, h, class scores.., mask coefficients..]`.  For each
//! anchor the decoder selects the best class (ties to the first), rejects
//! the anchor when the best score falls below the confidence threshold,
//! undoes the letterbox scale `min(model_w/orig_w, model_h/orig_h)` on the
//! box, converts center form to corner form, and clamps only the box origin
//! to the image (width and height are deliberately left unclamped).

use vstd::prelude::*;

use crate::arith::lemma_grid_index;
use crate::arith::lemma_mul_bound;
use crate::errors::YoloError;
use crate::geometry::Bbox;
use crate::suppress::CandView;
use crate::suppress::Candidate;
use crate::suppress::all_wf;
use crate::suppress::views_of;
use crate::units::DIM_LIMIT;
use crate::units::NC_LIMIT;
use crate::units::NM_LIMIT;
use crate::units::RAW_LIMIT;
use crate::units::UNIT;
use crate::units::mul_div;
use crate::units::scale_div;

verus! {

/// The raw prediction tensor of one image, in channel-major layout: the
/// value of channel `c` at anchor `a` sits at index `c * anchors + a`.
/// Channels `0..4` are the model-space box `(cx, cy, w, h)`, channels
/// `4..4+nc` the class scores, and the trailing `nm` channels the mask
/// coefficients.
#[derive(Debug)]
pub struct PredMatrix {
    pub nc: usize,
    pub nm: usize,
    pub anchors: usize,
    pub vals: Vec<i64>,
}

/// The accepted range of one tensor cell: box channels are nonnegative
/// model-space coordinates, class scores are fixed-point confidences in
/// `[0, UNIT]`, and mask coefficients are bounded either way.
pub open spec fn cell_ok(nc: int, vals: Seq<i64>, anchors: int, c: int, a: int) -> bool {
    let v = vals[c * anchors + a];
    if c < 4 {
        0 <= v <= RAW_LIMIT
    } else if c < 4 + nc {
        0 <= v <= UNIT
    } else {
        -RAW_LIMIT <= v <= RAW_LIMIT
    }
}

impl PredMatrix {
    /// Number of channels, `4 + nc + nm`.
    pub open spec fn spec_channels(self) -> int {
        4 + self.nc + self.nm
    }

    /// The value of channel `c` at anchor `a`.
    pub open spec fn at(self, c: int, a: int) -> int {
        self.vals@[c * self.anchors + a] as int
    }

    /// The checked shape contract of the decode boundary: consistent
    /// dimensions, a dense channel-major layout, and every cell in range.
    pub open spec fn wf(self) -> bool {
        &&& 1 <= self.nc <= NC_LIMIT
        &&& self.nm <= NM_LIMIT
        &&& self.vals@.len() == self.spec_channels() * self.anchors
        &&& forall|c: int, a: int|
            0 <= c < self.spec_channels() && 0 <= a < self.anchors ==> #[trigger] cell_ok(
                self.nc as int, self.vals@, self.anchors as int, c, a)
    }

    /// Validate a raw channel-major buffer and wrap it as a prediction
    /// tensor.  Fails with `ShapeMismatch` exactly when the dimensions are
    /// inconsistent or a cell is out of range.
    pub fn new(nc: usize, nm: usize, anchors: usize, vals: Vec<i64>) -> (r: Result<
        PredMatrix,
        YoloError,
    >)
        ensures
            r matches Ok(m) ==> m == (PredMatrix { nc, nm, anchors, vals }),
            r is Ok <==> (PredMatrix { nc, nm, anchors, vals }).wf(),
            r is Err ==> r == Err::<PredMatrix, YoloError>(YoloError::ShapeMismatch),
    {
        let ghost target = PredMatrix { nc, nm, anchors, vals: vals };
        if nc < 1 || nc > NC_LIMIT as usize || nm > NM_LIMIT as usize {
            return Err(YoloError::ShapeMismatch);
        }
        let channels = 4 + nc + nm;
        let n = vals.len();
        if anchors == 0 {
            if n != 0 {
                return Err(YoloError::ShapeMismatch);
            }
        } else {
            if n / anchors != channels || n % anchors != 0 {
                proof {
                    if target.wf() {
                        vstd::arithmetic::div_mod::lemma_fundamental_div_mod(
                            n as int, anchors as int);
                        assert((channels * anchors) / (anchors as int) == channels
                            && (channels * anchors) % (anchors as int) == 0) by (nonlinear_arith)
                            requires
                                1 <= anchors,
                        ;
                    }
                }
                return Err(YoloError::ShapeMismatch);
            }
            proof {
                vstd::arithmetic::div_mod::lemma_fundamental_div_mod(n as int, anchors as int);
                assert((anchors as int) * (channels as int) == (channels as int) * (
                anchors as int)) by (nonlinear_arith);
            }
        }
        proof {
            assert(n as int == channels * anchors);
        }
        let mut c: usize = 0;
        while c < channels
            invariant
                c <= channels,
                channels == 4 + nc + nm,
                n == vals.len(),
                n as int == channels * anchors,
                forall|c2: int, a2: int|
                    0 <= c2 < c && 0 <= a2 < anchors ==> #[trigger] cell_ok(
                        nc as int, vals@, anchors as int, c2, a2),
            decreases channels - c,
        {
            let mut a: usize = 0;
            while a < anchors
                invariant
                    c < channels,
                    a <= anchors,
                    channels == 4 + nc + nm,
                    n == vals.len(),
                    n as int == channels * anchors,
                    forall|c2: int, a2: int|
                        0 <= c2 < c && 0 <= a2 < anchors ==> #[trigger] cell_ok(
                            nc as int, vals@, anchors as int, c2, a2),
                    forall|a2: int|
                        0 <= a2 < a ==> #[trigger] cell_ok(
                            nc as int, vals@, anchors as int, c as int, a2),
                decreases anchors - a,
            {
                proof {
                    lemma_grid_index(c as int, a as int, channels as int, anchors as int);
                }
                let v = vals[c * anchors + a];
                let bad = if c < 4 {
                    v < 0 || v > RAW_LIMIT
                } else if c < 4 + nc {
                    v < 0 || v > UNIT
                } else {
                    v < -RAW_LIMIT || v > RAW_LIMIT
                };
                if bad {
                    proof {
                        assert(!cell_ok(nc as int, vals@, anchors as int, c as int, a as int));
                    }
                    return Err(YoloError::ShapeMismatch);
                }
                a = a + 1;
            }
            c = c + 1;
        }
        Ok(PredMatrix { nc, nm, anchors, vals })
    }

    /// Read the value of channel `c` at anchor `a`.
    pub fn get(&self, c: usize, a: usize) -> (r: i64)
        requires
            self.wf(),
            c < self.spec_channels(),
            a < self.anchors,
        ensures
            r == self.at(c as int, a as int),
    {
        // a vector's length fits in usize, which bounds the index arithmetic
        let n = self.vals.len();
        proof {
            lemma_grid_index(c as int, a as int, self.spec_channels(), self.anchors as int);
        }
        self.vals[c * self.anchors + a]
    }
}

/// Index and score of the best class among the first `n` class channels of
/// anchor `a`, ties broken in favor of the first occurrence.
pub open spec fn best_of(m: PredMatrix, a: int, n: int) -> (int, int)
    decreases n,
{
    if n <= 1 {
        (0, m.at(4, a))
    } else if m.at(4 + (n - 1), a) > best_of(m, a, n - 1).1 {
        (n - 1, m.at(4 + (n - 1), a))
    } else {
        best_of(m, a, n - 1)
    }
}

/// The best class index is in range and its score is the value actually
/// stored at that class channel.
pub proof fn lemma_best_of(m: PredMatrix, a: int, n: int)
    requires
        1 <= n,
    ensures
        0 <= best_of(m, a, n).0 < n,
        best_of(m, a, n).1 == m.at(4 + best_of(m, a, n).0, a),
    decreases n,
{
    if n > 1 {
        lemma_best_of(m, a, n - 1);
    }
}

/// An anchor is kept when its best class score reaches the threshold.
pub open spec fn keep_anchor(m: PredMatrix, a: int, t: int) -> bool {
    best_of(m, a, m.nc as int).1 >= t
}

/// Numerator of the letterbox ratio `min(mw/ow, mh/oh)`.
pub open spec fn ratio_num(mw: int, mh: int, ow: int, oh: int) -> int {
    if mw * oh <= mh * ow {
        mw
    } else {
        mh
    }
}

/// Denominator of the letterbox ratio `min(mw/ow, mh/oh)`.
pub open spec fn ratio_den(mw: int, mh: int, ow: int, oh: int) -> int {
    if mw * oh <= mh * ow {
        ow
    } else {
        oh
    }
}

/// Clamp `v` into `[0, hi]`.
pub open spec fn clamp_to(v: int, hi: int) -> int {
    if v < 0 {
        0
    } else if v > hi {
        hi
    } else {
        v
    }
}

/// The image-space box decoded from anchor `a`: the model-space box divided
/// by the letterbox ratio, converted from center form to corner form, with
/// only the origin clamped to the image.
pub open spec fn decoded_box(m: PredMatrix, a: int, ow: int, oh: int, mw: int, mh: int) -> Bbox {
    let num = ratio_num(mw, mh, ow, oh);
    let den = ratio_den(mw, mh, ow, oh);
    let cx = scale_div(m.at(0, a), den, num);
    let cy = scale_div(m.at(1, a), den, num);
    let w = scale_div(m.at(2, a), den, num);
    let h = scale_div(m.at(3, a), den, num);
    let best = best_of(m, a, m.nc as int);
    Bbox {
        xmin: clamp_to(cx - w / 2, ow) as i64,
        ymin: clamp_to(cy - h / 2, oh) as i64,
        width: w as i64,
        height: h as i64,
        id: best.0 as usize,
        conf: best.1 as i64,
    }
}

/// The trailing `nm` channel values of anchor `a`: its mask coefficients.
pub open spec fn coef_seq(m: PredMatrix, a: int) -> Seq<i64> {
    Seq::new(m.nm as nat, |k: int| m.at(4 + m.nc + k, a) as i64)
}

/// The candidate emitted for a kept anchor.
pub open spec fn candidate_view(m: PredMatrix, a: int, ow: int, oh: int, mw: int, mh: int)
    -> CandView {
    CandView {
        bbox: decoded_box(m, a, ow, oh, mw, mh),
        keypoints: None,
        coefs: if m.nm == 0 {
            None
        } else {
            Some(coef_seq(m, a))
        },
    }
}

/// The candidates decoded from the first `n` anchors, in anchor order.
pub open spec fn decode_upto(
    m: PredMatrix,
    ow: int,
    oh: int,
    mw: int,
    mh: int,
    t: int,
    n: int,
) -> Seq<CandView>
    decreases n,
{
    if n <= 0 {
        Seq::empty()
    } else {
        let prefix = decode_upto(m, ow, oh, mw, mh, t, n - 1);
        if keep_anchor(m, n - 1, t) {
            prefix.push(candidate_view(m, n - 1, ow, oh, mw, mh))
        } else {
            prefix
        }
    }
}

/// The full decoded candidate list of one image at threshold `t`.
pub open spec fn decode_spec(m: PredMatrix, ow: int, oh: int, mw: int, mh: int, t: int)
    -> Seq<CandView> {
    decode_upto(m, ow, oh, mw, mh, t, m.anchors as int)
}

/// Decode the prediction tensor of one image into image-space candidates.
///
/// `ow`/`oh` are the original image dimensions, `mw`/`mh` the model input
/// dimensions used during letterbox preprocessing, and `conf_t` the
/// fixed-point confidence threshold.
pub fn decode(m: &PredMatrix, ow: u32, oh: u32, mw: u32, mh: u32, conf_t: i64) -> (r: Vec<
    Candidate,
>)
    requires
        m.wf(),
        1 <= ow <= DIM_LIMIT,
        1 <= oh <= DIM_LIMIT,
        1 <= mw <= DIM_LIMIT,
        1 <= mh <= DIM_LIMIT,
        0 <= conf_t <= UNIT,
    ensures
        views_of(r@) == decode_spec(*m, ow as int, oh as int, mw as int, mh as int, conf_t as int),
        all_wf(views_of(r@)),
{
    let ghost gow = ow as int;
    let ghost goh = oh as int;
    let ghost gmw = mw as int;
    let ghost gmh = mh as int;
    proof {
        lemma_mul_bound(mw as int, oh as int, DIM_LIMIT as int, DIM_LIMIT as int);
        lemma_mul_bound(mh as int, ow as int, DIM_LIMIT as int, DIM_LIMIT as int);
    }
    let (num, den) = if (mw as u64) * (oh as u64) <= (mh as u64) * (ow as u64) {
        (mw, ow)
    } else {
        (mh, oh)
    };
    proof {
        assert(num == ratio_num(gmw, gmh, gow, goh));
        assert(den == ratio_den(gmw, gmh, gow, goh));
    }
    let mut out: Vec<Candidate> = Vec::new();
    proof {
        assert(views_of(out@) =~= Seq::<CandView>::empty());
    }
    let mut a: usize = 0;
    while a < m.anchors
        invariant
            m.wf(),
            a <= m.anchors,
            1 <= ow <= DIM_LIMIT,
            1 <= oh <= DIM_LIMIT,
            1 <= mw <= DIM_LIMIT,
            1 <= mh <= DIM_LIMIT,
            0 <= conf_t <= UNIT,
            gow == ow as int,
            goh == oh as int,
            gmw == mw as int,
            gmh == mh as int,
            num == ratio_num(gmw, gmh, gow, goh),
            den == ratio_den(gmw, gmh, gow, goh),
            views_of(out@) == decode_upto(*m, gow, goh, gmw, gmh, conf_t as int, a as int),
            all_wf(views_of(out@)),
        decreases m.anchors - a,
    {
        // best class: index/value pair with the maximum score, first on ties
        let mut best_id: usize = 0;
        let mut best_v: i64 = m.get(4, a);
        proof {
            assert(cell_ok(m.nc as int, m.vals@, m.anchors as int, 4, a as int));
        }
        let mut c2: usize = 1;
        while c2 < m.nc
            invariant
                m.wf(),
                a < m.anchors,
                1 <= c2 <= m.nc,
                best_id == best_of(*m, a as int, c2 as int).0,
                best_v == best_of(*m, a as int, c2 as int).1,
            decreases m.nc - c2,
        {
            let v = m.get(4 + c2, a);
            if v > best_v {
                best_id = c2;
                best_v = v;
            }
            c2 = c2 + 1;
        }
        proof {
            lemma_best_of(*m, a as int, m.nc as int);
            assert(cell_ok(m.nc as int, m.vals@, m.anchors as int, 4 + best_id, a as int));
            assert(0 <= best_v <= UNIT);
        }
        let ghost prefix = views_of(out@);
        if best_v >= conf_t {
            // undo the letterbox scale and convert center form to corner form
            proof {
                assert(cell_ok(m.nc as int, m.vals@, m.anchors as int, 0, a as int));
                assert(cell_ok(m.nc as int, m.vals@, m.anchors as int, 1, a as int));
                assert(cell_ok(m.nc as int, m.vals@, m.anchors as int, 2, a as int));
                assert(cell_ok(m.nc as int, m.vals@, m.anchors as int, 3, a as int));
            }
            let cx = mul_div(m.get(0, a), den as i64, num as i64);
            let cy = mul_div(m.get(1, a), den as i64, num as i64);
            let w = mul_div(m.get(2, a), den as i64, num as i64);
            let h = mul_div(m.get(3, a), den as i64, num as i64);
            let mut xmin = cx - w / 2;
            let mut ymin = cy - h / 2;
            if xmin < 0 {
                xmin = 0;
            } else if xmin > ow as i64 {
                xmin = ow as i64;
            }
            if ymin < 0 {
                ymin = 0;
            } else if ymin > oh as i64 {
                ymin = oh as i64;
            }
            let bb = Bbox { xmin, ymin, width: w, height: h, id: best_id, conf: best_v };
            proof {
                assert(bb == decoded_box(*m, a as int, gow, goh, gmw, gmh));
                assert(bb.wf());
            }
            let coefs = if m.nm > 0 {
                let mut cv: Vec<i64> = Vec::new();
                let mut k: usize = 0;
                while k < m.nm
                    invariant
                        m.wf(),
                        a < m.anchors,
                        k <= m.nm,
                        cv@.len() == k,
                        forall|i: int|
                            0 <= i < k ==> cv@[i] == m.at(4 + m.nc + i, a as int),
                    decreases m.nm - k,
                {
                    let v = m.get(4 + m.nc + k, a);
                    cv.push(v);
                    k = k + 1;
                }
                proof {
                    assert(cv@ =~= coef_seq(*m, a as int));
                    assert forall|i: int| 0 <= i < cv@.len() implies -RAW_LIMIT
                        <= #[trigger] cv@[i] <= RAW_LIMIT by {
                        assert(cell_ok(m.nc as int, m.vals@, m.anchors as int, 4 + m.nc + i,
                            a as int));
                    }
                }
                Some(cv)
            } else {
                None
            };
            let cand = Candidate { bbox: bb, keypoints: None, coefs };
            proof {
                assert(cand@ == candidate_view(*m, a as int, gow, goh, gmw, gmh));
                assert(cand@.wf());
            }
            out.push(cand);
            proof {
                assert(views_of(out@) =~= prefix.push(cand@));
            }
        }
        a = a + 1;
        proof {
            assert(keep_anchor(*m, a as int - 1, conf_t as int) == (best_v >= conf_t));
        }
    }
    out
}

/// Raising the confidence threshold can only shrink the candidate set:
/// every candidate decoded at the higher threshold `t2` is also decoded at
/// any lower threshold `t1`.
pub proof fn lemma_decode_threshold_monotone(
    m: PredMatrix,
    ow: int,
    oh: int,
    mw: int,
    mh: int,
    t1: int,
    t2: int,
    x: CandView,
)
    requires
        t1 <= t2,
        decode_spec(m, ow, oh, mw, mh, t2).contains(x),
    ensures
        decode_spec(m, ow, oh, mw, mh, t1).contains(x),
{
    lemma_decode_upto_monotone(m, ow, oh, mw, mh, t1, t2, m.anchors as int, x);
}

proof fn lemma_decode_upto_monotone(
    m: PredMatrix,
    ow: int,
    oh: int,
    mw: int,
    mh: int,
    t1: int,
    t2: int,
    n: int,
    x: CandView,
)
    requires
        t1 <= t2,
        decode_upto(m, ow, oh, mw, mh, t2, n).contains(x),
    ensures
        decode_upto(m, ow, oh, mw, mh, t1, n).contains(x),
    decreases n,
{
    if n > 0 {
        let hi_prev = decode_upto(m, ow, oh, mw, mh, t2, n - 1);
        let lo_prev = decode_upto(m, ow, oh, mw, mh, t1, n - 1);
        let lo = decode_upto(m, ow, oh, mw, mh, t1, n);
        let c = candidate_view(m, n - 1, ow, oh, mw, mh);
        let in_prev = if keep_anchor(m, n - 1, t2) {
            let i = choose|i: int|
                0 <= i < hi_prev.push(c).len() && hi_prev.push(c)[i] == x;
            i < hi_prev.len()
        } else {
            true
        };
        if in_prev {
            if keep_anchor(m, n - 1, t2) {
                let i = choose|i: int|
                    0 <= i < hi_prev.push(c).len() && hi_prev.push(c)[i] == x;
                if i < hi_prev.len() {
                    assert(hi_prev[i] == x);
                }
            }
            assert(hi_prev.contains(x) || x == c);
            if hi_prev.contains(x) {
                lemma_decode_upto_monotone(m, ow, oh, mw, mh, t1, t2, n - 1, x);
                let j = choose|j: int| 0 <= j < lo_prev.len() && lo_prev[j] == x;
                if keep_anchor(m, n - 1, t1) {
                    assert(lo[j] == x);
                } else {
                    assert(lo[j] == x);
                }
            } else {
                assert(keep_anchor(m, n - 1, t2));
                assert(keep_anchor(m, n - 1, t1));
                assert(lo[lo_prev.len() as int] == c);
            }
        } else {
            assert(keep_anchor(m, n - 1, t2));
            let i = choose|i: int| 0 <= i < hi_prev.push(c).len() && hi_prev.push(c)[i] == x;
            assert(x == c);
            assert(keep_anchor(m, n - 1, t1));
            assert(lo[lo_prev.len() as int] == c);
        }
    }
}

} // verus!
