//! The pipeline orchestrator: model configuration and the post-processing
//! `postprocess` call that sequences decoding, suppression and mask
//! reconstruction for a batch of images.
//!
//! Inference itself is an external collaborator: the host runs the engine
//! and hands this module one validated prediction tensor (and optionally a
//! prototype tensor) per image.  A missing tensor marks a collaborator
//! failure for that image; the batch continues (failure isolation per
//! image).

use vstd::prelude::*;

use crate::decode::PredMatrix;
use crate::decode::decode;
use crate::decode::decode_spec;
use crate::errors::YoloError;
use crate::geometry::Bbox;
use crate::geometry::Point2;
use crate::masks::MaskImage;
use crate::masks::MaskView;
use crate::masks::ProtoTensor;
use crate::masks::mask_spec;
use crate::masks::reconstruct_mask;
use crate::masks::valid_h;
use crate::masks::valid_w;
use crate::suppress::CandView;
use crate::suppress::nms_spec;
use crate::suppress::non_max_suppression;
use crate::suppress::views_of;
use crate::units::DIM_LIMIT;
use crate::units::NC_LIMIT;
use crate::units::NM_LIMIT;
use crate::units::UNIT;
use crate::units::mul_div_round;
use crate::units::round_div;

verus! {

/// The detector task; this pipeline covers segmentation.
#[derive(Clone, Copy, Debug, PartialEq, Eq, Structural)]
pub enum YOLOTask {
    Segment,
}

/// Host-supplied configuration: thresholds in fixed point (`UNIT` is
/// `1.0`), an optional explicit class count, the model input size, and the
/// profiling switch.
#[derive(Clone, Debug)]
pub struct Args {
    pub conf: i64,
    pub kconf: i64,
    pub iou: i64,
    pub nc: Option<u32>,
    pub width: u32,
    pub height: u32,
    pub profile: bool,
}

/// What the built inference engine reports about itself.
#[derive(Clone, Debug)]
pub struct EngineInfo {
    pub batch: u32,
    pub width: u32,
    pub height: u32,
    pub task: YOLOTask,
    pub nc: Option<u32>,
    pub nm: u32,
    pub names: Option<Vec<String>>,
}

/// The class count actually used: the engine's report wins, the explicit
/// configuration value is the fallback.
pub open spec fn chosen_nc(engine_nc: Option<u32>, config_nc: Option<u32>) -> Option<u32> {
    if engine_nc is Some {
        engine_nc
    } else {
        config_nc
    }
}

/// Construction succeeds exactly on these inputs: a class count is known
/// and in range, the engine dimensions are usable, and every threshold is a
/// fixed-point value in `[0, 1]`.
pub open spec fn config_ok(config: Args, engine: EngineInfo) -> bool {
    &&& (chosen_nc(engine.nc, config.nc) matches Some(nc) && 1 <= nc <= NC_LIMIT)
    &&& engine.nm <= NM_LIMIT
    &&& 1 <= engine.width <= DIM_LIMIT
    &&& 1 <= engine.height <= DIM_LIMIT
    &&& 0 <= config.conf <= UNIT
    &&& 0 <= config.kconf <= UNIT
    &&& 0 <= config.iou <= UNIT
}

/// One finished detection: the box, optional keypoints, and, for
/// segmentation, the reconstructed instance mask.  Mask and box travel
/// together, so their pairing is structural rather than positional.
#[derive(Debug)]
pub struct Detection {
    pub bbox: Bbox,
    pub keypoints: Option<Vec<Point2>>,
    pub mask: Option<MaskImage>,
}

/// The mathematical value of a [`Detection`].
pub struct DetView {
    pub bbox: Bbox,
    pub keypoints: Option<Seq<Point2>>,
    pub mask: Option<MaskView>,
}

impl View for Detection {
    type V = DetView;

    open spec fn view(&self) -> DetView {
        DetView {
            bbox: self.bbox,
            keypoints: match self.keypoints {
                Some(k) => Some(k@),
                None => None,
            },
            mask: match self.mask {
                Some(m) => Some(m@),
                None => None,
            },
        }
    }
}

/// The result for one image: the suppression survivors in
/// descending-confidence order, each with its mask when one was produced.
#[derive(Debug)]
pub struct YOLOResult {
    pub detections: Vec<Detection>,
}

impl View for YOLOResult {
    type V = Seq<DetView>;

    open spec fn view(&self) -> Seq<DetView> {
        self.detections@.map_values(|d: Detection| d@)
    }
}

/// The mask produced for a surviving candidate: present exactly when the
/// candidate carries coefficients, a prototype tensor is available, their
/// channel counts agree, and the valid letterbox region is not empty.
pub open spec fn mask_for(c: CandView, protos: Option<ProtoTensor>, ow: int, oh: int) -> Option<
    MaskView,
> {
    match (c.coefs, protos) {
        (Some(cf), Some(p)) => {
            if cf.len() == p.nm && valid_w(p, ow, oh) >= 1 && valid_h(p, ow, oh) >= 1 {
                Some(
                    MaskView {
                        width: ow as u32,
                        height: oh as u32,
                        data: mask_spec(cf, p, ow, oh, c.bbox),
                    },
                )
            } else {
                None
            }
        },
        _ => None,
    }
}

/// The detection assembled from one suppression survivor.
pub open spec fn detection_of(c: CandView, protos: Option<ProtoTensor>, ow: int, oh: int)
    -> DetView {
    DetView { bbox: c.bbox, keypoints: c.keypoints, mask: mask_for(c, protos, ow, oh) }
}

/// The whole per-image pipeline: decode, suppress, reconstruct masks.
pub open spec fn postprocess_spec(
    m: PredMatrix,
    protos: Option<ProtoTensor>,
    ow: int,
    oh: int,
    mw: int,
    mh: int,
    conf_t: int,
    iou_t: int,
) -> Seq<DetView> {
    nms_spec(decode_spec(m, ow, oh, mw, mh, conf_t), iou_t).map_values(
        |c: CandView| detection_of(c, protos, ow, oh),
    )
}

/// The required outcome for one batch entry: `Inference` for a missing
/// output, `ShapeMismatch` for a tensor that disagrees with the model
/// description, and otherwise the exact per-image pipeline result.
pub open spec fn batch_entry_ok(
    m: YOLOv8,
    output: Option<(PredMatrix, Option<ProtoTensor>)>,
    dim: (u32, u32),
    r: Result<YOLOResult, YoloError>,
) -> bool {
    match output {
        None => r == Err::<YOLOResult, YoloError>(YoloError::Inference),
        Some(pair) => {
            if pair.0.nc == m.nc && pair.0.nm == m.nm {
                r matches Ok(res) && res@ == postprocess_spec(
                    pair.0, pair.1, dim.0 as int, dim.1 as int, m.width as int, m.height as int,
                    m.conf as int, m.iou as int)
            } else {
                r == Err::<YOLOResult, YoloError>(YoloError::ShapeMismatch)
            }
        },
    }
}

/// The value of an optional borrowed prototype tensor.
pub open spec fn deref_protos(p: Option<&ProtoTensor>) -> Option<ProtoTensor> {
    match p {
        Some(q) => Some(*q),
        None => None,
    }
}

/// The segmentation model: engine-reported dimensions and channel counts
/// plus the host configuration.  The engine itself lives with the host.
#[derive(Debug)]
pub struct YOLOv8 {
    pub nc: u32,
    pub nk: u32,
    pub nm: u32,
    pub height: u32,
    pub width: u32,
    pub batch: u32,
    pub task: YOLOTask,
    pub conf: i64,
    pub kconf: i64,
    pub iou: i64,
    pub names: Vec<String>,
    pub profile: bool,
}

impl YOLOv8 {
    /// The model invariant: usable dimensions and fixed-point thresholds.
    pub open spec fn wf(self) -> bool {
        &&& 1 <= self.nc <= NC_LIMIT
        &&& self.nm <= NM_LIMIT
        &&& 1 <= self.width <= DIM_LIMIT
        &&& 1 <= self.height <= DIM_LIMIT
        &&& 0 <= self.conf <= UNIT
        &&& 0 <= self.kconf <= UNIT
        &&& 0 <= self.iou <= UNIT
    }

    /// Build the model description from the host configuration and what the
    /// engine reports.  Fails with `Configuration` exactly when the class
    /// count is missing or out of range, a dimension is unusable, or a
    /// threshold is outside `[0, 1]`; such a failure is fatal.
    pub fn new(config: Args, engine: EngineInfo) -> (r: Result<YOLOv8, YoloError>)
        ensures
            r is Ok <==> config_ok(config, engine),
            r matches Ok(m) ==> {
                &&& m.wf()
                &&& Some(m.nc) == chosen_nc(engine.nc, config.nc)
                &&& m.nk == 0
                &&& m.nm == engine.nm
                &&& m.width == engine.width
                &&& m.height == engine.height
                &&& m.batch == engine.batch
                &&& m.task == engine.task
                &&& m.conf == config.conf
                &&& m.kconf == config.kconf
                &&& m.iou == config.iou
                &&& m.profile == config.profile
                &&& (engine.names matches Some(ns) ==> m.names == ns)
                &&& (engine.names is None ==> m.names@.len() == 1)
            },
            r is Err ==> r == Err::<YOLOv8, YoloError>(YoloError::Configuration),
    {
        let nc = match engine.nc {
            Some(n) => n,
            None => match config.nc {
                Some(n) => n,
                None => {
                    return Err(YoloError::Configuration);
                },
            },
        };
        if nc < 1 || nc > NC_LIMIT {
            return Err(YoloError::Configuration);
        }
        if engine.nm > NM_LIMIT {
            return Err(YoloError::Configuration);
        }
        if engine.width < 1 || engine.width > DIM_LIMIT || engine.height < 1 || engine.height
            > DIM_LIMIT {
            return Err(YoloError::Configuration);
        }
        if config.conf < 0 || config.conf > UNIT || config.kconf < 0 || config.kconf > UNIT
            || config.iou < 0 || config.iou > UNIT {
            return Err(YoloError::Configuration);
        }
        let names = match engine.names {
            Some(ns) => ns,
            None => {
                let mut ns: Vec<String> = Vec::new();
                ns.push("Unknown".to_string());
                ns
            },
        };
        Ok(
            YOLOv8 {
                nc,
                nk: 0,
                nm: engine.nm,
                height: engine.height,
                width: engine.width,
                batch: engine.batch,
                task: engine.task,
                conf: config.conf,
                kconf: config.kconf,
                iou: config.iou,
                names,
                profile: config.profile,
            },
        )
    }

    /// The letterbox relation: the scale `min(w1/w0, h1/h0)` as the exact
    /// rational `num/den`, and the source size scaled by it, rounded half
    /// up — the resized extent of a `w0 x h0` image inside a `w1 x h1`
    /// canvas.
    pub fn scale_wh(&self, w0: u32, h0: u32, w1: u32, h1: u32) -> (r: (u32, u32, i64, i64))
        requires
            1 <= w0 <= DIM_LIMIT,
            1 <= h0 <= DIM_LIMIT,
            1 <= w1 <= DIM_LIMIT,
            1 <= h1 <= DIM_LIMIT,
        ensures
            r.0 == crate::decode::ratio_num(w1 as int, h1 as int, w0 as int, h0 as int),
            r.1 == crate::decode::ratio_den(w1 as int, h1 as int, w0 as int, h0 as int),
            r.2 == round_div(w0 * r.0, r.1 as int),
            r.3 == round_div(h0 * r.0, r.1 as int),
    {
        proof {
            crate::arith::lemma_mul_bound(w1 as int, h0 as int, DIM_LIMIT as int,
                DIM_LIMIT as int);
            crate::arith::lemma_mul_bound(h1 as int, w0 as int, DIM_LIMIT as int,
                DIM_LIMIT as int);
        }
        let (num, den) = if (w1 as u64) * (h0 as u64) <= (h1 as u64) * (w0 as u64) {
            (w1, w0)
        } else {
            (h1, h0)
        };
        let w_new = mul_div_round(w0 as i64, num as i64, den as i64);
        let h_new = mul_div_round(h0 as i64, num as i64, den as i64);
        (num, den, w_new, h_new)
    }

    /// Post-process one image: decode the prediction tensor, suppress
    /// redundant boxes, and reconstruct a mask for each survivor that
    /// carries coefficients.  Fails with `ShapeMismatch` exactly when the
    /// tensor's channel counts disagree with the model description.
    pub fn postprocess_image(
        &self,
        preds: &PredMatrix,
        protos: Option<&ProtoTensor>,
        ow: u32,
        oh: u32,
    ) -> (r: Result<YOLOResult, YoloError>)
        requires
            self.wf(),
            preds.wf(),
            protos matches Some(p) ==> p.wf(),
            1 <= ow <= DIM_LIMIT,
            1 <= oh <= DIM_LIMIT,
        ensures
            r is Ok <==> preds.nc == self.nc && preds.nm == self.nm,
            r matches Ok(res) ==> res@ == postprocess_spec(
                *preds, deref_protos(protos), ow as int, oh as int, self.width as int,
                self.height as int, self.conf as int, self.iou as int),
            r is Err ==> r == Err::<YOLOResult, YoloError>(YoloError::ShapeMismatch),
    {
        if preds.nc != self.nc as usize || preds.nm != self.nm as usize {
            return Err(YoloError::ShapeMismatch);
        }
        let ghost gprotos = deref_protos(protos);
        let mut data = decode(preds, ow, oh, self.width, self.height, self.conf);
        non_max_suppression(&mut data, self.iou);
        let ghost surv = views_of(data@);
        let ghost total = surv.len();
        let mut dets: Vec<Detection> = Vec::new();
        while data.len() > 0
            invariant
                self.wf(),
                1 <= ow <= DIM_LIMIT,
                1 <= oh <= DIM_LIMIT,
                protos matches Some(p) ==> p.wf(),
                gprotos == deref_protos(protos),
                data@.len() <= total,
                total == surv.len(),
                views_of(data@) =~= surv.subrange(total - data@.len(), total as int),
                crate::suppress::all_wf(views_of(data@)),
                dets@.len() == total - data@.len(),
                forall|i: int|
                    0 <= i < dets@.len() ==> (#[trigger] dets@[i])@ == detection_of(
                        surv[i], gprotos, ow as int, oh as int),
            decreases data@.len(),
        {
            let ghost done = total - data@.len();
            let ghost vpre = views_of(data@);
            let c = data.remove(0);
            proof {
                assert(views_of(data@) =~= vpre.subrange(1, vpre.len() as int));
                assert(c@ == vpre[0]);
                assert(c@ == surv[done]);
                assert(c@.wf());
            }
            let mask: Option<MaskImage> = match (&c.coefs, protos) {
                (Some(cf), Some(p)) => {
                    if cf.len() == p.nm {
                        reconstruct_mask(cf, p, ow, oh, &c.bbox)
                    } else {
                        None
                    }
                },
                _ => None,
            };
            let det = Detection { bbox: c.bbox, keypoints: c.keypoints, mask };
            proof {
                assert(det@ == detection_of(c@, gprotos, ow as int, oh as int));
            }
            dets.push(det);
        }
        let res = YOLOResult { detections: dets };
        proof {
            assert(surv == nms_spec(
                decode_spec(*preds, ow as int, oh as int, self.width as int, self.height as int,
                self.conf as int), self.iou as int));
            assert(res@ =~= postprocess_spec(
                *preds, gprotos, ow as int, oh as int, self.width as int, self.height as int,
                self.conf as int, self.iou as int));
        }
        Ok(res)
    }

    /// Post-process a batch: one outcome per input image, in input order.
    /// A missing inference output marks that image as failed with
    /// `Inference`; other images are unaffected.
    pub fn postprocess(
        &self,
        outputs: &Vec<Option<(PredMatrix, Option<ProtoTensor>)>>,
        dims: &Vec<(u32, u32)>,
    ) -> (r: Vec<Result<YOLOResult, YoloError>>)
        requires
            self.wf(),
            dims@.len() == outputs@.len(),
            forall|i: int|
                0 <= i < dims@.len() ==> 1 <= (#[trigger] dims@[i]).0 <= DIM_LIMIT && 1
                    <= dims@[i].1 <= DIM_LIMIT,
            forall|i: int|
                0 <= i < outputs@.len() ==> ((#[trigger] outputs@[i]) matches Some(pair) ==> (
                pair.0.wf() && (pair.1 matches Some(p) ==> p.wf()))),
        ensures
            r@.len() == outputs@.len(),
            forall|i: int|
                0 <= i < r@.len() ==> #[trigger] batch_entry_ok(*self, outputs@[i], dims@[i],
                    r@[i]),
    {
        let n = outputs.len();
        let mut out: Vec<Result<YOLOResult, YoloError>> = Vec::new();
        let mut i: usize = 0;
        while i < n
            invariant
                self.wf(),
                n == outputs@.len(),
                dims@.len() == outputs@.len(),
                i <= n,
                forall|k: int|
                    0 <= k < dims@.len() ==> 1 <= (#[trigger] dims@[k]).0 <= DIM_LIMIT && 1
                        <= dims@[k].1 <= DIM_LIMIT,
                forall|k: int|
                    0 <= k < outputs@.len() ==> ((#[trigger] outputs@[k]) matches Some(pair)
                        ==> (pair.0.wf() && (pair.1 matches Some(p) ==> p.wf()))),
                out@.len() == i,
                forall|k: int|
                    0 <= k < out@.len() ==> #[trigger] batch_entry_ok(*self, outputs@[k],
                        dims@[k], out@[k]),
            decreases n - i,
        {
            let entry = match &outputs[i] {
                None => Err(YoloError::Inference),
                Some(pair) => {
                    let (w, h) = dims[i];
                    self.postprocess_image(&pair.0, pair.1.as_ref(), w, h)
                },
            };
            out.push(entry);
            i = i + 1;
        }
        out
    }

    pub fn conf(&self) -> (r: i64)
        ensures
            r == self.conf,
    {
        self.conf
    }

    pub fn set_conf(&mut self, val: i64)
        ensures
            *final(self) == (YOLOv8 { conf: val, ..*old(self) }),
    {
        self.conf = val;
    }

    pub fn conf_mut(&mut self) -> (r: &mut i64)
        ensures
            *r == old(self).conf,
            *final(self) == (YOLOv8 { conf: *final(r), ..*old(self) }),
    {
        &mut self.conf
    }

    pub fn kconf(&self) -> (r: i64)
        ensures
            r == self.kconf,
    {
        self.kconf
    }

    pub fn iou(&self) -> (r: i64)
        ensures
            r == self.iou,
    {
        self.iou
    }

    pub fn task(&self) -> (r: &YOLOTask)
        ensures
            r == self.task,
    {
        &self.task
    }

    pub fn batch(&self) -> (r: u32)
        ensures
            r == self.batch,
    {
        self.batch
    }

    pub fn width(&self) -> (r: u32)
        ensures
            r == self.width,
    {
        self.width
    }

    pub fn height(&self) -> (r: u32)
        ensures
            r == self.height,
    {
        self.height
    }

    pub fn nc(&self) -> (r: u32)
        ensures
            r == self.nc,
    {
        self.nc
    }

    pub fn nk(&self) -> (r: u32)
        ensures
            r == self.nk,
    {
        self.nk
    }

    pub fn nm(&self) -> (r: u32)
        ensures
            r == self.nm,
    {
        self.nm
    }

    pub fn names(&self) -> (r: &Vec<String>)
        ensures
            r == self.names,
    {
        &self.names
    }
}

} // verus!
