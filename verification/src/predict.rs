use vstd::prelude::*;

use crate::options::k_floored;
use crate::text::has_label_marker;
use crate::text::normalized;
use crate::text::stripped;
use crate::text::normalize_text;
use crate::text::strip_label_marker;
use crate::text::lemma_stripped_has_no_marker;

verus! {

/// One prediction result: a ranked list of labels with, at the same index,
/// the confidence score of each. Scores are carried as the IEEE-754 bit
/// patterns of the model's `f32` scores, exactly as the model ranked and
/// filtered them; labels have had the model's internal marker stripped.
pub struct Prediction {
    pub labels: Vec<String>,
    pub prob_bits: Vec<u32>,
}

impl Prediction {
    /// Labels and scores always pair up index by index.
    pub open spec fn wf(self) -> bool {
        self.labels@.len() == self.prob_bits@.len()
    }
}

/// What `p` must be for the model's raw reply `raw`, a ranked list of
/// `(label, score bits)` pairs: same length, same order, every label
/// stripped of the model's marker, every score bit-for-bit unchanged.
pub open spec fn prediction_of(raw: Seq<(String, u32)>, p: Prediction) -> bool {
    &&& p.labels@.len() == raw.len()
    &&& p.prob_bits@.len() == raw.len()
    &&& forall|i: int| 0 <= i < raw.len() ==> p.labels@[i]@ == stripped(raw[i].0@)
    &&& forall|i: int| 0 <= i < raw.len() ==> p.prob_bits@[i] == raw[i].1
}

/// The exact invocation the model collaborator is owed for one text:
/// the normalized text, the floored top-K, and the threshold bits passed
/// through untouched.
pub struct ModelCall {
    pub text: String,
    pub k: u32,
    pub threshold_bits: u32,
}

/// What `c` must be for a request carrying `text`, `k` and `threshold_bits`.
pub open spec fn call_of(text: Seq<char>, k: u32, threshold_bits: u32, c: ModelCall) -> bool {
    &&& c.text@ == normalized(text)
    &&& c.k == k_floored(k)
    &&& c.threshold_bits == threshold_bits
}

/// Builds the model invocation for one text: floors a caller-supplied
/// top-K of `0` to `1` and appends the trailing line terminator where it
/// is missing, without mutating the caller's view of the text.
pub fn prepare_call(text: &str, k: u32, threshold_bits: u32) -> (c: ModelCall)
    ensures
        call_of(text@, k, threshold_bits, c),
        c.k >= 1,
{
    let k_eff = if k == 0 {
        1
    } else {
        k
    };
    let normalized_text = normalize_text(text);
    ModelCall { text: normalized_text, k: k_eff, threshold_bits }
}

/// Turns the model's raw reply into the result returned to the client:
/// strips the model's internal label marker from the start of every label
/// and keeps every score, and the ranking order, exactly as the model
/// produced them.
pub fn finish_prediction(raw: &Vec<(String, u32)>) -> (p: Prediction)
    ensures
        prediction_of(raw@, p),
        p.wf(),
        forall|i: int| 0 <= i < p.labels@.len() ==> !has_label_marker(#[trigger] p.labels@[i]@),
{
    let mut labels: Vec<String> = Vec::new();
    let mut prob_bits: Vec<u32> = Vec::new();
    let n = raw.len();
    let mut i: usize = 0;
    while i < n
        invariant
            i <= n,
            n == raw@.len(),
            labels@.len() == i,
            prob_bits@.len() == i,
            forall|j: int| 0 <= j < i ==> labels@[j]@ == stripped(raw@[j].0@),
            forall|j: int| 0 <= j < i ==> prob_bits@[j] == raw@[j].1,
        decreases n - i,
    {
        let stripped_label = strip_label_marker(raw[i].0.as_str());
        labels.push(stripped_label);
        prob_bits.push(raw[i].1);
        i += 1;
    }
    proof {
        assert forall|t: int| 0 <= t < labels@.len() implies !has_label_marker(
            #[trigger] labels@[t]@,
        ) by {
            lemma_stripped_has_no_marker(raw@[t].0@);
        }
    }
    Prediction { labels, prob_bits }
}

} // verus!
