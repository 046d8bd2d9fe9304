use fasttext_serving::options::PredictOptions;
use fasttext_serving::predict::finish_prediction;
use fasttext_serving::predict::prepare_call;
use fasttext_serving::text::normalize_text;
use fasttext_serving::text::strip_label_marker;

#[test]
fn effective_k_floors_zero_to_one() {
    let options = PredictOptions::new(Some(0), None);
    assert_eq!(options.effective_k(), 1);
}

#[test]
fn effective_k_keeps_positive_values() {
    let options = PredictOptions::new(Some(5), None);
    assert_eq!(options.effective_k(), 5);
}

#[test]
fn effective_k_defaults_to_one() {
    let options = PredictOptions::new(None, Some(0.25f32.to_bits()));
    assert_eq!(options.effective_k(), 1);
}

#[test]
fn effective_threshold_defaults_to_zero() {
    let options = PredictOptions::new(None, None);
    assert_eq!(options.effective_threshold_bits(), 0.0f32.to_bits());
}

#[test]
fn default_options_are_one_and_zero() {
    let options = PredictOptions::default();
    assert_eq!(options.effective_k(), 1);
    assert_eq!(options.effective_threshold_bits(), 0.0f32.to_bits());
}

#[test]
fn normalize_appends_missing_terminator() {
    assert_eq!(normalize_text("hello world"), "hello world\n");
}

#[test]
fn normalize_keeps_existing_terminator() {
    assert_eq!(normalize_text("hello world\n"), "hello world\n");
}

#[test]
fn normalize_empty_text() {
    assert_eq!(normalize_text(""), "\n");
}

#[test]
fn trailing_terminator_gives_same_model_call() {
    let threshold = 0.0f32.to_bits();
    let plain = prepare_call("Which baking dish is best?", 1, threshold);
    let terminated = prepare_call("Which baking dish is best?\n", 1, threshold);
    assert_eq!(plain.text, terminated.text);
    assert_eq!(plain.k, terminated.k);
    assert_eq!(plain.threshold_bits, terminated.threshold_bits);
}

#[test]
fn prepare_call_floors_k() {
    let call = prepare_call("text", 0, 0);
    assert_eq!(call.k, 1);
    assert_eq!(call.text, "text\n");
}

#[test]
fn strip_removes_marker() {
    assert_eq!(strip_label_marker("__label__baking"), "baking");
}

#[test]
fn strip_removes_repeated_markers() {
    assert_eq!(strip_label_marker("__label____label__baking"), "baking");
}

#[test]
fn strip_leaves_plain_labels() {
    assert_eq!(strip_label_marker("baking"), "baking");
    assert_eq!(strip_label_marker("__labelx"), "__labelx");
}

#[test]
fn strip_of_marker_alone_is_empty() {
    assert_eq!(strip_label_marker("__label__"), "");
}

#[test]
fn finish_prediction_strips_and_keeps_scores() {
    let raw = vec![
        ("__label__baking".to_string(), 0.82f32.to_bits()),
        ("__label__bread".to_string(), 0.11f32.to_bits()),
    ];
    let p = finish_prediction(&raw);
    assert_eq!(p.labels, vec!["baking", "bread"]);
    assert_eq!(p.prob_bits, vec![0.82f32.to_bits(), 0.11f32.to_bits()]);
    assert_eq!(f32::from_bits(p.prob_bits[0]), 0.82f32);
}
