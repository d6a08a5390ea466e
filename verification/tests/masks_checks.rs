use yolov8_rs::decode::PredMatrix;
use yolov8_rs::geometry::Bbox;
use yolov8_rs::masks::{reconstruct_mask, ProtoTensor};
use yolov8_rs::model::{Args, EngineInfo, YOLOTask, YOLOv8};

const UNIT: i64 = 1_000_000;

fn seg_model(nm: u32) -> YOLOv8 {
    YOLOv8::new(
        Args {
            conf: 500_000,
            kconf: 500_000,
            iou: 500_000,
            nc: Some(1),
            width: 640,
            height: 640,
            profile: false,
        },
        EngineInfo {
            batch: 1,
            width: 640,
            height: 640,
            task: YOLOTask::Segment,
            nc: None,
            nm,
            names: None,
        },
    )
    .unwrap()
}

/// One anchor, one class, one mask channel: [cx, cy, w, h, score, coef].
fn seg_preds(cx: i64, cy: i64, w: i64, h: i64, score: i64, coef: i64) -> PredMatrix {
    PredMatrix::new(1, 1, 1, vec![cx, cy, w, h, score, coef]).unwrap()
}

#[test]
fn reconstruct_upsamples_to_the_original_size() {
    // a constant full-intensity prototype stays full after resampling
    let p = ProtoTensor::new(1, 4, 4, vec![UNIT; 16]).unwrap();
    let b = Bbox::new(0, 0, 8, 8, 0, 900_000);
    let mi = reconstruct_mask(&vec![UNIT], &p, 8, 8, &b).unwrap();
    assert_eq!(mi.width, 8);
    assert_eq!(mi.height, 8);
    assert_eq!(mi.data.len(), 64);
    assert!(mi.data.iter().all(|&v| v == 255));
}

#[test]
fn reconstruct_zeroes_outside_the_box() {
    // full-intensity mask, but the box keeps only the top-left corner:
    // expanded box reaches x,y <= 0+10, so pixels beyond 10 are zeroed
    let p = ProtoTensor::new(1, 4, 4, vec![UNIT; 16]).unwrap();
    let b = Bbox::new(0, 0, 0, 0, 0, 900_000);
    let mi = reconstruct_mask(&vec![UNIT], &p, 32, 32, &b).unwrap();
    assert_eq!(mi.data.len(), 32 * 32);
    for y in 0..32usize {
        for x in 0..32usize {
            let outside = x > 10 || y > 10;
            if outside {
                assert_eq!(mi.data[y * 32 + x], 0, "pixel ({x},{y})");
            } else {
                assert_eq!(mi.data[y * 32 + x], 255, "pixel ({x},{y})");
            }
        }
    }
}

#[test]
fn postprocess_attaches_a_mask_to_its_box() {
    let model = seg_model(1);
    let preds = seg_preds(100, 100, 40, 20, 900_000, UNIT);
    let protos = ProtoTensor::new(1, 4, 4, vec![UNIT; 16]).unwrap();
    let r = model.postprocess_image(&preds, Some(&protos), 64, 64).unwrap();
    assert_eq!(r.detections.len(), 1);
    let det = &r.detections[0];
    // letterbox ratio 640/64 = 10: cx 10, cy 10, w 4, h 2, corner (8, 9)
    assert_eq!((det.bbox.xmin, det.bbox.ymin), (8, 9));
    assert_eq!((det.bbox.width, det.bbox.height), (4, 2));
    let mask = det.mask.as_ref().expect("survivor with coefficients gets a mask");
    assert_eq!((mask.width, mask.height), (64, 64));
    assert_eq!(mask.data.len(), 64 * 64);
}

#[test]
fn missing_prototypes_degrade_to_a_box_without_mask() {
    let model = seg_model(1);
    let preds = seg_preds(100, 100, 40, 20, 900_000, UNIT);
    let r = model.postprocess_image(&preds, None, 64, 64).unwrap();
    assert_eq!(r.detections.len(), 1);
    assert!(r.detections[0].mask.is_none());
}

#[test]
fn coefficient_count_mismatch_degrades_to_a_box_without_mask() {
    let model = seg_model(1);
    let preds = seg_preds(100, 100, 40, 20, 900_000, UNIT);
    // the prototype reports two channels, the candidate carries one
    let protos = ProtoTensor::new(2, 4, 4, vec![UNIT; 32]).unwrap();
    let r = model.postprocess_image(&preds, Some(&protos), 64, 64).unwrap();
    assert_eq!(r.detections.len(), 1);
    assert!(r.detections[0].mask.is_none());
}
