use fasttext_serving::codec::decode_batch;
use fasttext_serving::codec::encode_batch;
use fasttext_serving::predict::Prediction;

fn sample_batch() -> Vec<Prediction> {
    vec![
        Prediction {
            labels: vec!["baking".to_string(), "bread".to_string()],
            prob_bits: vec![0.7312f32.to_bits(), 0.0625f32.to_bits()],
        },
        Prediction {
            labels: vec!["garnieren".to_string()],
            prob_bits: vec![0.015625f32.to_bits()],
        },
    ]
}

#[test]
fn round_trip_keeps_labels_and_scores_in_order() {
    let batch = sample_batch();
    let bytes = encode_batch(&batch);
    let decoded = decode_batch(bytes.as_slice()).expect("a fresh frame must decode");
    assert_eq!(decoded.len(), 2);
    assert_eq!(decoded[0].labels, vec!["baking", "bread"]);
    assert_eq!(decoded[0].prob_bits, vec![0.7312f32.to_bits(), 0.0625f32.to_bits()]);
    assert_eq!(decoded[1].labels, vec!["garnieren"]);
    assert_eq!(decoded[1].prob_bits, vec![0.015625f32.to_bits()]);
    assert_eq!(f32::from_bits(decoded[0].prob_bits[0]), 0.7312f32);
}

#[test]
fn round_trip_of_empty_batch() {
    let batch: Vec<Prediction> = Vec::new();
    let bytes = encode_batch(&batch);
    let decoded = decode_batch(bytes.as_slice()).expect("the empty frame must decode");
    assert_eq!(decoded.len(), 0);
}

#[test]
fn round_trip_keeps_non_ascii_labels() {
    let batch = vec![Prediction {
        labels: vec!["gebäck".to_string(), "側注".to_string()],
        prob_bits: vec![0.5f32.to_bits(), 0.25f32.to_bits()],
    }];
    let bytes = encode_batch(&batch);
    let decoded = decode_batch(bytes.as_slice()).expect("UTF-8 labels must survive");
    assert_eq!(decoded[0].labels, vec!["gebäck", "側注"]);
}

#[test]
fn truncated_frame_is_rejected() {
    let batch = sample_batch();
    let bytes = encode_batch(&batch);
    let cut = &bytes[..bytes.len() - 1];
    assert!(decode_batch(cut).is_none());
}

#[test]
fn trailing_garbage_is_rejected() {
    let batch = sample_batch();
    let mut bytes = encode_batch(&batch);
    bytes.push(0);
    assert!(decode_batch(bytes.as_slice()).is_none());
}

#[test]
fn short_header_is_rejected() {
    let bytes = vec![1u8, 0, 0];
    assert!(decode_batch(bytes.as_slice()).is_none());
}

#[test]
fn invalid_utf8_label_is_rejected() {
    // One prediction, one pair, a one-byte label that is not UTF-8.
    let mut bytes: Vec<u8> = Vec::new();
    bytes.extend_from_slice(&[1, 0, 0, 0, 0, 0, 0, 0]); // one prediction
    bytes.extend_from_slice(&[1, 0, 0, 0, 0, 0, 0, 0]); // one pair
    bytes.extend_from_slice(&[1, 0, 0, 0, 0, 0, 0, 0]); // label length 1
    bytes.push(0xFF); // not valid UTF-8
    bytes.extend_from_slice(&[0, 0, 0, 0]); // score bits
    assert!(decode_batch(bytes.as_slice()).is_none());
}

#[test]
fn handwritten_frame_decodes() {
    // One prediction, one pair: label "ok", score bits of 1.0.
    let mut bytes: Vec<u8> = Vec::new();
    bytes.extend_from_slice(&[1, 0, 0, 0, 0, 0, 0, 0]);
    bytes.extend_from_slice(&[1, 0, 0, 0, 0, 0, 0, 0]);
    bytes.extend_from_slice(&[2, 0, 0, 0, 0, 0, 0, 0]);
    bytes.extend_from_slice(b"ok");
    bytes.extend_from_slice(&1.0f32.to_bits().to_le_bytes());
    let decoded = decode_batch(bytes.as_slice()).expect("a well-formed frame must decode");
    assert_eq!(decoded.len(), 1);
    assert_eq!(decoded[0].labels, vec!["ok"]);
    assert_eq!(decoded[0].prob_bits, vec![1.0f32.to_bits()]);
}
