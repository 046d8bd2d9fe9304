use fasttext_serving::batch::dispatch_mode;
use fasttext_serving::batch::finish_batch;
use fasttext_serving::batch::gather_indexed;
use fasttext_serving::batch::prepare_batch;
use fasttext_serving::batch::DispatchMode;
use fasttext_serving::options::PredictOptions;
use fasttext_serving::predict::Prediction;

fn labeled(label: &str, prob: f32) -> Prediction {
    Prediction { labels: vec![label.to_string()], prob_bits: vec![prob.to_bits()] }
}

#[test]
fn mode_empty_batch() {
    assert_eq!(dispatch_mode(0, 4), DispatchMode::Empty);
}

#[test]
fn mode_single_text() {
    assert_eq!(dispatch_mode(1, 4), DispatchMode::Single);
}

#[test]
fn mode_small_batch_runs_parallel() {
    assert_eq!(dispatch_mode(2, 4), DispatchMode::Parallel);
    assert_eq!(dispatch_mode(4, 4), DispatchMode::Parallel);
}

#[test]
fn mode_oversized_batch_falls_back_to_sequential() {
    let worker_bound = 4;
    assert_eq!(dispatch_mode(worker_bound + 5, worker_bound), DispatchMode::Sequential);
}

#[test]
fn empty_batch_prepares_and_finishes_empty() {
    let texts: Vec<String> = Vec::new();
    let calls = prepare_batch(&texts, &PredictOptions::default());
    assert_eq!(calls.len(), 0);
    let raws: Vec<Vec<(String, u32)>> = Vec::new();
    let preds = finish_batch(&raws);
    assert_eq!(preds.len(), 0);
}

#[test]
fn prepare_batch_normalizes_each_text_in_order() {
    let texts = vec!["first".to_string(), "second\n".to_string()];
    let options = PredictOptions::new(Some(0), Some(0.5f32.to_bits()));
    let calls = prepare_batch(&texts, &options);
    assert_eq!(calls.len(), 2);
    assert_eq!(calls[0].text, "first\n");
    assert_eq!(calls[1].text, "second\n");
    assert_eq!(calls[0].k, 1);
    assert_eq!(calls[1].threshold_bits, 0.5f32.to_bits());
}

#[test]
fn finish_batch_preserves_input_order() {
    let raws = vec![
        vec![("__label__one".to_string(), 0.9f32.to_bits())],
        vec![("__label__two".to_string(), 0.8f32.to_bits())],
        vec![("__label__three".to_string(), 0.7f32.to_bits())],
    ];
    let preds = finish_batch(&raws);
    assert_eq!(preds.len(), 3);
    assert_eq!(preds[0].labels, vec!["one"]);
    assert_eq!(preds[1].labels, vec!["two"]);
    assert_eq!(preds[2].labels, vec!["three"]);
}

#[test]
fn oversized_batch_keeps_order_on_sequential_path() {
    let worker_bound = 4;
    let count = worker_bound + 5;
    let mut raws: Vec<Vec<(String, u32)>> = Vec::new();
    for i in 0..count {
        raws.push(vec![(format!("__label__item{}", i), 0.5f32.to_bits())]);
    }
    assert_eq!(dispatch_mode(count, worker_bound), DispatchMode::Sequential);
    let preds = finish_batch(&raws);
    assert_eq!(preds.len(), count);
    for i in 0..count {
        assert_eq!(preds[i].labels, vec![format!("item{}", i)]);
    }
}

#[test]
fn gather_restores_input_order() {
    let parts = vec![
        (2, labeled("c", 0.3)),
        (0, labeled("a", 0.1)),
        (1, labeled("b", 0.2)),
    ];
    let gathered = gather_indexed(parts, 3).expect("parts cover every index");
    assert_eq!(gathered[0].labels, vec!["a"]);
    assert_eq!(gathered[1].labels, vec!["b"]);
    assert_eq!(gathered[2].labels, vec!["c"]);
}

#[test]
fn gather_rejects_duplicate_index() {
    let parts = vec![(0, labeled("a", 0.1)), (0, labeled("b", 0.2))];
    assert!(gather_indexed(parts, 2).is_none());
}

#[test]
fn gather_rejects_out_of_range_index() {
    let parts = vec![(0, labeled("a", 0.1)), (2, labeled("b", 0.2))];
    assert!(gather_indexed(parts, 2).is_none());
}

#[test]
fn gather_rejects_wrong_count() {
    let parts = vec![(0, labeled("a", 0.1))];
    assert!(gather_indexed(parts, 2).is_none());
}

#[test]
fn gather_of_empty_batch() {
    let parts: Vec<(usize, Prediction)> = Vec::new();
    let gathered = gather_indexed(parts, 0).expect("empty cover");
    assert_eq!(gathered.len(), 0);
}
