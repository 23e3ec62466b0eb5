use rustface::model::{Classifier, ClassifierKind, ModelError, ModelReader};
use rustface::read_model;

fn push_i32(out: &mut Vec<u8>, v: i32) {
    out.extend_from_slice(&v.to_le_bytes());
}

fn push_f32(out: &mut Vec<u8>, v: f32) {
    out.extend_from_slice(&v.to_le_bytes());
}

/// One hierarchy with one member of two stages: a LAB-boosted classifier
/// followed by a SURF-MLP classifier, with a two-entry window-source
/// list.
fn synthetic_blob() -> Vec<u8> {
    let mut b = Vec::new();
    push_i32(&mut b, 1); // num_hierarchy
    push_i32(&mut b, 1); // hierarchy_size
    push_i32(&mut b, 2); // num_stage

    // stage 0: LAB
    push_i32(&mut b, 0); // kind
    push_i32(&mut b, 10); // num_base_classifier
    push_i32(&mut b, 1); // num_bin
    for k in 0..10 {
        push_i32(&mut b, k); // x
        push_i32(&mut b, k + 1); // y
    }
    for k in 0..10 {
        push_f32(&mut b, k as f32 * 0.5); // thresholds
    }
    for k in 0..10 {
        push_f32(&mut b, k as f32); // weights, num_bin + 1 each
        push_f32(&mut b, -(k as f32));
    }

    // stage 1: SURF-MLP
    push_i32(&mut b, 1); // kind
    push_i32(&mut b, 2); // num_layer
    push_i32(&mut b, 1); // num_feat
    push_i32(&mut b, 3); // feature id
    push_f32(&mut b, 0.25); // threshold
    push_i32(&mut b, 2); // input_dim
    push_i32(&mut b, 1); // output_dim
    push_f32(&mut b, 0.5); // weights: input_dim * output_dim
    push_f32(&mut b, -0.5);
    push_f32(&mut b, 0.125); // biases: output_dim

    // wnd_src
    push_i32(&mut b, 2);
    push_i32(&mut b, 0);
    push_i32(&mut b, 1);
    b
}

#[test]
fn test_model_round_trip() {
    let blob = synthetic_blob();
    let model = read_model(&blob).expect("well-formed blob must parse");

    assert_eq!(model.get_hierarchy_count(), 1);
    assert_eq!(model.get_hierarchy_size(0), 1);
    assert_eq!(model.get_num_stage(0), 2);
    assert_eq!(model.get_wnd_src(0), &vec![0, 1]);

    let classifiers = model.get_classifiers();
    assert_eq!(classifiers.len(), 2);
    match &classifiers[0] {
        Classifier::LabBoosted(lab) => {
            assert_eq!(lab.features.len(), 10);
            assert_eq!(lab.features[3], (3, 4));
            assert_eq!(lab.base_classifiers.len(), 10);
            assert_eq!(lab.base_classifiers[2].thresh, 1.0f32.to_bits());
            assert_eq!(lab.base_classifiers[4].weights, vec![
                4.0f32.to_bits(),
                (-4.0f32).to_bits(),
            ]);
        },
        _ => panic!("stage 0 must be LAB-boosted"),
    }
    match &classifiers[1] {
        Classifier::SurfMlp(surf) => {
            assert_eq!(surf.feature_ids, vec![3]);
            assert_eq!(surf.thresh, 0.25f32.to_bits());
            assert_eq!(surf.layers.len(), 1);
            let layer = &surf.layers[0];
            assert_eq!(layer.input_dim, 2);
            assert_eq!(layer.output_dim, 1);
            assert!(layer.sigmoid_output);
            assert_eq!(layer.weights, vec![0.5f32.to_bits(), (-0.5f32).to_bits()]);
            assert_eq!(layer.biases, vec![0.125f32.to_bits()]);
        },
        _ => panic!("stage 1 must be SURF-MLP"),
    }
}

#[test]
fn test_model_ignores_trailing_bytes() {
    let mut blob = synthetic_blob();
    blob.extend_from_slice(&[1, 2, 3]);
    assert!(read_model(&blob).is_ok());
}

#[test]
fn test_truncated_stream_fails_cleanly() {
    let blob = synthetic_blob();
    for cut in [0, 3, 4, 17, blob.len() - 1] {
        let r = read_model(&blob[..cut]);
        assert_eq!(r.err(), Some(ModelError::UnexpectedEof), "cut at {}", cut);
    }
}

#[test]
fn test_unknown_classifier_kind() {
    let mut b = Vec::new();
    push_i32(&mut b, 1);
    push_i32(&mut b, 1);
    push_i32(&mut b, 1);
    push_i32(&mut b, 7); // no such kind
    assert_eq!(read_model(&b).err(), Some(ModelError::UnknownClassifierKind));
}

#[test]
fn test_negative_count_rejected() {
    let mut b = Vec::new();
    push_i32(&mut b, -1);
    assert_eq!(read_model(&b).err(), Some(ModelError::NegativeCount));
}

#[test]
fn test_unaligned_lab_group_rejected() {
    let mut b = Vec::new();
    push_i32(&mut b, 1);
    push_i32(&mut b, 1);
    push_i32(&mut b, 1);
    push_i32(&mut b, 0); // LAB
    push_i32(&mut b, 5); // not a multiple of ten
    push_i32(&mut b, 1);
    assert_eq!(read_model(&b).err(), Some(ModelError::UnalignedLabGroup));
}

#[test]
fn test_reader_cursor_api() {
    let blob = synthetic_blob();
    let reader = ModelReader::new(&blob);
    assert!(reader.read().is_ok());
}

#[test]
fn test_classifier_kind_ids() {
    assert_eq!(ClassifierKind::from(0), Some(ClassifierKind::LabBoosted));
    assert_eq!(ClassifierKind::from(1), Some(ClassifierKind::SurfMlp));
    assert_eq!(ClassifierKind::from(2), None);
    assert_eq!(ClassifierKind::from(-1), None);
}
