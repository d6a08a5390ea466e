use yolov8_rs::decode::{decode, PredMatrix};
use yolov8_rs::errors::YoloError;
use yolov8_rs::geometry::Bbox;
use yolov8_rs::masks::{crop_mask_to_box, synthesize_mask, ProtoTensor};
use yolov8_rs::model::{Args, EngineInfo, YOLOTask, YOLOv8};
use yolov8_rs::suppress::non_max_suppression;

const UNIT: i64 = 1_000_000;

fn args(conf: i64, iou: i64, nc: Option<u32>) -> Args {
    Args { conf, kconf: 500_000, iou, nc, width: 640, height: 640, profile: false }
}

fn engine(nc: Option<u32>, nm: u32) -> EngineInfo {
    EngineInfo {
        batch: 1,
        width: 640,
        height: 640,
        task: YOLOTask::Segment,
        nc,
        nm,
        names: None,
    }
}

/// Channel-major predictions for one class and no mask channels:
/// channels are [cx, cy, w, h, score].
fn one_class_preds(anchors: &[(i64, i64, i64, i64, i64)]) -> PredMatrix {
    let n = anchors.len();
    let mut vals = vec![0i64; 5 * n];
    for (a, &(cx, cy, w, h, score)) in anchors.iter().enumerate() {
        vals[a] = cx;
        vals[n + a] = cy;
        vals[2 * n + a] = w;
        vals[3 * n + a] = h;
        vals[4 * n + a] = score;
    }
    PredMatrix::new(1, 0, n, vals).unwrap()
}

#[test]
fn single_anchor_above_threshold_yields_one_candidate() {
    // confidence 0.9 >= threshold 0.5, unit letterbox ratio
    let m = one_class_preds(&[(100, 100, 40, 20, 900_000)]);
    let mut data = decode(&m, 640, 640, 640, 640, 500_000);
    assert_eq!(data.len(), 1);
    let b = &data[0].bbox;
    assert_eq!((b.xmin, b.ymin, b.width, b.height), (80, 90, 40, 20));
    assert_eq!(b.id, 0);
    assert_eq!(b.conf, 900_000);
    assert!(data[0].coefs.is_none());
    // suppression keeps that same single candidate unchanged
    non_max_suppression(&mut data, 500_000);
    assert_eq!(data.len(), 1);
    let b = &data[0].bbox;
    assert_eq!((b.xmin, b.ymin, b.width, b.height, b.conf), (80, 90, 40, 20, 900_000));
}

#[test]
fn identical_boxes_keep_only_the_more_confident() {
    // two anchors with the identical box, confidences 0.9 and 0.8,
    // IoU threshold 0.5: only the 0.9 candidate survives
    let m = one_class_preds(&[(100, 100, 40, 20, 800_000), (100, 100, 40, 20, 900_000)]);
    let mut data = decode(&m, 640, 640, 640, 640, 500_000);
    assert_eq!(data.len(), 2);
    non_max_suppression(&mut data, 500_000);
    assert_eq!(data.len(), 1);
    assert_eq!(data[0].bbox.conf, 900_000);
}

#[test]
fn zero_anchors_above_threshold_gives_empty_result_without_error() {
    let model = YOLOv8::new(args(500_000, 500_000, Some(1)), engine(None, 0)).unwrap();
    let m = one_class_preds(&[(100, 100, 40, 20, 100_000), (50, 50, 10, 10, 200_000)]);
    let r = model.postprocess_image(&m, None, 640, 640).unwrap();
    assert!(r.detections.is_empty());
}

#[test]
fn decoder_threshold_is_inclusive_and_monotone() {
    let m = one_class_preds(&[
        (10, 10, 4, 4, 500_000),
        (30, 30, 4, 4, 300_000),
        (50, 50, 4, 4, 700_000),
    ]);
    let at_half = decode(&m, 640, 640, 640, 640, 500_000);
    // exactly at the threshold is kept; below is rejected
    assert_eq!(at_half.len(), 2);
    let at_low = decode(&m, 640, 640, 640, 640, 300_000);
    assert_eq!(at_low.len(), 3);
    // the candidate set at the higher threshold is a subset of the lower one
    for c in &at_half {
        assert!(at_low.iter().any(|d| d.bbox == c.bbox));
    }
}

#[test]
fn decoder_rescales_by_letterbox_ratio() {
    // 1280x720 original in a 640x640 model canvas: ratio = 0.5
    let m = one_class_preds(&[(320, 160, 100, 50, 900_000)]);
    let data = decode(&m, 1280, 720, 640, 640, 500_000);
    assert_eq!(data.len(), 1);
    let b = &data[0].bbox;
    // divided by 0.5: cx 640, cy 320, w 200, h 100; corner (540, 270)
    assert_eq!((b.xmin, b.ymin, b.width, b.height), (540, 270, 200, 100));
}

#[test]
fn decoder_clamps_only_the_origin() {
    // cx - w/2 falls below zero: the origin is clamped, the width is not
    let m = one_class_preds(&[(5, 5, 40, 40, 900_000)]);
    let data = decode(&m, 640, 640, 640, 640, 500_000);
    assert_eq!(data.len(), 1);
    let b = &data[0].bbox;
    assert_eq!((b.xmin, b.ymin, b.width, b.height), (0, 0, 40, 40));
}

#[test]
fn decoder_picks_first_class_on_ties() {
    // two classes with equal scores: the first index wins
    let vals = vec![100, 100, 40, 20, 700_000, 700_000];
    let m = PredMatrix::new(2, 0, 1, vals).unwrap();
    let data = decode(&m, 640, 640, 640, 640, 500_000);
    assert_eq!(data.len(), 1);
    assert_eq!(data[0].bbox.id, 0);
}

#[test]
fn suppression_output_is_sorted_by_descending_confidence() {
    let m = one_class_preds(&[
        (10, 10, 4, 4, 700_000),
        (200, 200, 4, 4, 900_000),
        (400, 400, 4, 4, 800_000),
    ]);
    let mut data = decode(&m, 640, 640, 640, 640, 500_000);
    non_max_suppression(&mut data, 500_000);
    let confs: Vec<i64> = data.iter().map(|c| c.bbox.conf).collect();
    assert_eq!(confs, vec![900_000, 800_000, 700_000]);
}

#[test]
fn suppression_is_idempotent() {
    let m = one_class_preds(&[
        (10, 10, 40, 40, 700_000),
        (12, 10, 40, 40, 900_000),
        (400, 400, 40, 40, 800_000),
    ]);
    let mut data = decode(&m, 640, 640, 640, 640, 500_000);
    non_max_suppression(&mut data, 500_000);
    let once: Vec<Bbox> = data.iter().map(|c| c.bbox).collect();
    non_max_suppression(&mut data, 500_000);
    let twice: Vec<Bbox> = data.iter().map(|c| c.bbox).collect();
    assert_eq!(once, twice);
}

#[test]
fn equal_confidence_keeps_original_relative_order() {
    // disjoint boxes with equal confidence: both survive, in input order
    let m = one_class_preds(&[(10, 10, 4, 4, 800_000), (200, 200, 4, 4, 800_000)]);
    let mut data = decode(&m, 640, 640, 640, 640, 500_000);
    non_max_suppression(&mut data, 500_000);
    assert_eq!(data.len(), 2);
    assert_eq!(data[0].bbox.xmin, 8);
    assert_eq!(data[1].bbox.xmin, 198);
}

#[test]
fn model_construction_requires_a_class_count() {
    let r = YOLOv8::new(args(500_000, 500_000, None), engine(None, 0));
    assert_eq!(r.unwrap_err(), YoloError::Configuration);
}

#[test]
fn model_construction_rejects_an_invalid_threshold() {
    let r = YOLOv8::new(args(2 * UNIT, 500_000, Some(1)), engine(None, 0));
    assert_eq!(r.unwrap_err(), YoloError::Configuration);
    let bad_iou = Args { iou: -1, ..args(500_000, 500_000, Some(1)) };
    assert_eq!(YOLOv8::new(bad_iou, engine(None, 0)).unwrap_err(), YoloError::Configuration);
}

#[test]
fn engine_class_count_wins_over_configuration() {
    let model = YOLOv8::new(args(500_000, 500_000, Some(7)), engine(Some(3), 0)).unwrap();
    assert_eq!(model.nc(), 3);
    assert_eq!(model.names().len(), 1);
}

#[test]
fn prediction_tensor_rejects_inconsistent_shape() {
    // 5 channels x 2 anchors needs 10 values
    let r = PredMatrix::new(1, 0, 2, vec![0i64; 9]);
    assert_eq!(r.unwrap_err(), YoloError::ShapeMismatch);
}

#[test]
fn prediction_tensor_rejects_out_of_range_score() {
    // a class score above UNIT is not a confidence
    let r = PredMatrix::new(1, 0, 1, vec![0, 0, 0, 0, UNIT + 1]);
    assert_eq!(r.unwrap_err(), YoloError::ShapeMismatch);
}

#[test]
fn prototype_tensor_rejects_inconsistent_shape() {
    let r = ProtoTensor::new(2, 4, 4, vec![0i64; 31]);
    assert_eq!(r.unwrap_err(), YoloError::ShapeMismatch);
}

#[test]
fn postprocess_image_rejects_wrong_channel_count() {
    let model = YOLOv8::new(args(500_000, 500_000, Some(2)), engine(None, 0)).unwrap();
    let m = one_class_preds(&[(100, 100, 40, 20, 900_000)]);
    let r = model.postprocess_image(&m, None, 640, 640);
    assert_eq!(r.unwrap_err(), YoloError::ShapeMismatch);
}

#[test]
fn batch_isolates_a_failed_image() {
    let model = YOLOv8::new(args(500_000, 500_000, Some(1)), engine(None, 0)).unwrap();
    let good = one_class_preds(&[(100, 100, 40, 20, 900_000)]);
    let outputs = vec![None, Some((good, None))];
    let dims = vec![(640, 640), (640, 640)];
    let rs = model.postprocess(&outputs, &dims);
    assert_eq!(rs.len(), 2);
    assert_eq!(rs[0].as_ref().unwrap_err(), &YoloError::Inference);
    let ok = rs[1].as_ref().unwrap();
    assert_eq!(ok.detections.len(), 1);
    assert_eq!(ok.detections[0].bbox.conf, 900_000);
}

#[test]
fn scale_wh_computes_the_letterbox_extent() {
    let model = YOLOv8::new(args(500_000, 500_000, Some(1)), engine(None, 0)).unwrap();
    // 1280x720 into 640x640: ratio 0.5, resized extent 640x360
    let (num, den, w, h) = model.scale_wh(1280, 720, 640, 640);
    assert_eq!((num, den), (640, 1280));
    assert_eq!((w, h), (640, 360));
}

#[test]
fn mask_synthesis_quantizes_the_dot_product() {
    // one channel, one pixel: 1.0 * 0.5 = 0.5 -> floor(0.5 * 255) = 127
    let p = ProtoTensor::new(1, 1, 1, vec![500_000]).unwrap();
    let q = synthesize_mask(&vec![UNIT], &p);
    assert_eq!(q, vec![127]);
    // full intensity is lossless: 1.0 * 1.0 -> 255
    let p1 = ProtoTensor::new(1, 1, 1, vec![UNIT]).unwrap();
    assert_eq!(synthesize_mask(&vec![UNIT], &p1), vec![255]);
    // negative scores clamp to 0
    let p2 = ProtoTensor::new(1, 1, 1, vec![-500_000]).unwrap();
    assert_eq!(synthesize_mask(&vec![UNIT], &p2), vec![0]);
}

#[test]
fn mask_crop_zeroes_everything_outside_the_expanded_box() {
    let w = 20usize;
    let h = 20usize;
    let mut mask = vec![255u8; w * h];
    // box [2,4]x[2,4], expanded by 10: pixels with x > 14 or y > 14 are outside
    let b = Bbox::new(2, 2, 2, 2, 0, 900_000);
    crop_mask_to_box(&mut mask, w, h, &b);
    for y in 0..h {
        for x in 0..w {
            let outside = x > 14 || y > 14;
            let expect = if outside { 0 } else { 255 };
            assert_eq!(mask[y * w + x], expect, "pixel ({x},{y})");
        }
    }
}
