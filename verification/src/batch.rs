use vstd::prelude::*;

use crate::options::PredictOptions;
use crate::predict::ModelCall;
use crate::predict::Prediction;
use crate::predict::call_of;
use crate::predict::prediction_of;
use crate::predict::prepare_call;
use crate::predict::finish_prediction;

verus! {

/// How a batch of independent predictions is executed. Parallel execution
/// is reserved for batches small enough to fit the worker pool; a batch
/// larger than the pool deliberately falls back to one thread, trading
/// throughput for predictable per-item latency.
#[derive(Clone, Copy, PartialEq, Eq, Structural, Debug)]
pub enum DispatchMode {
    /// No texts: no work is submitted at all.
    Empty,
    /// Exactly one text: predicted synchronously in the calling context.
    Single,
    /// Two to `worker_bound` texts: scatter/gather over the bounded pool.
    Parallel,
    /// More texts than workers: executed sequentially in one thread.
    Sequential,
}

/// The dispatch decision for a batch of `n` texts under a pool of
/// `worker_bound` workers.
pub open spec fn spec_dispatch_mode(n: nat, worker_bound: nat) -> DispatchMode {
    if n == 0 {
        DispatchMode::Empty
    } else if n == 1 {
        DispatchMode::Single
    } else if n <= worker_bound {
        DispatchMode::Parallel
    } else {
        DispatchMode::Sequential
    }
}

/// Decides how a batch of `n` texts is executed under a pool of
/// `worker_bound` workers; a tunable policy threshold, not a hard law.
pub fn dispatch_mode(n: usize, worker_bound: usize) -> (m: DispatchMode)
    ensures
        m == spec_dispatch_mode(n as nat, worker_bound as nat),
{
    if n == 0 {
        DispatchMode::Empty
    } else if n == 1 {
        DispatchMode::Single
    } else if n <= worker_bound {
        DispatchMode::Parallel
    } else {
        DispatchMode::Sequential
    }
}

/// What the prepared invocations of a batch must be: one per text, in the
/// same order, each carrying the normalized text and the batch-wide
/// effective options.
pub open spec fn batch_prepared(
    texts: Seq<String>,
    options: PredictOptions,
    calls: Seq<ModelCall>,
) -> bool {
    &&& calls.len() == texts.len()
    &&& forall|i: int|
        0 <= i < texts.len() ==> call_of(
            texts[i]@,
            options.spec_effective_k(),
            options.spec_effective_threshold_bits(),
            calls[i],
        )
}

/// Builds the model invocation for every text of a batch, in input order,
/// with the one effective top-K and threshold applying to the whole batch.
pub fn prepare_batch(texts: &Vec<String>, options: &PredictOptions) -> (calls: Vec<ModelCall>)
    ensures
        batch_prepared(texts@, *options, calls@),
{
    let k = options.effective_k();
    let threshold_bits = options.effective_threshold_bits();
    let mut calls: Vec<ModelCall> = Vec::new();
    let n = texts.len();
    let mut i: usize = 0;
    while i < n
        invariant
            i <= n,
            n == texts@.len(),
            calls@.len() == i,
            k == options.spec_effective_k(),
            threshold_bits == options.spec_effective_threshold_bits(),
            forall|j: int|
                0 <= j < i ==> call_of(texts@[j]@, k, threshold_bits, calls@[j]),
        decreases n - i,
    {
        let call = prepare_call(texts[i].as_str(), k, threshold_bits);
        calls.push(call);
        i += 1;
    }
    calls
}

/// What the batch response must be for the model's raw replies: one
/// finished prediction per reply, at the same index.
pub open spec fn batch_finished(raws: Seq<Vec<(String, u32)>>, preds: Seq<Prediction>) -> bool {
    &&& preds.len() == raws.len()
    &&& forall|i: int| 0 <= i < raws.len() ==> prediction_of(raws[i]@, preds[i])
}

/// Turns the model's raw replies for a whole batch into the batch
/// response: the output has exactly one prediction per input, at the same
/// index, so order is preserved however the replies were computed.
pub fn finish_batch(raws: &Vec<Vec<(String, u32)>>) -> (preds: Vec<Prediction>)
    ensures
        batch_finished(raws@, preds@),
        preds@.len() == raws@.len(),
{
    let mut preds: Vec<Prediction> = Vec::new();
    let n = raws.len();
    let mut i: usize = 0;
    while i < n
        invariant
            i <= n,
            n == raws@.len(),
            preds@.len() == i,
            forall|j: int| 0 <= j < i ==> prediction_of(raws@[j]@, preds@[j]),
        decreases n - i,
    {
        let p = finish_prediction(&raws[i]);
        preds.push(p);
        i += 1;
    }
    preds
}

/// Whether no index is claimed by two different parts.
pub open spec fn indices_unique(parts: Seq<(usize, Prediction)>) -> bool {
    forall|j1: int, j2: int| 0 <= j1 < j2 < parts.len() ==> parts[j1].0 != parts[j2].0
}

/// Whether every part claims an index of an `n`-item batch.
pub open spec fn indices_below(parts: Seq<(usize, Prediction)>, n: nat) -> bool {
    forall|j: int| 0 <= j < parts.len() ==> (parts[j].0 as nat) < n
}

/// Whether some part claims index `i`.
pub open spec fn index_claimed(parts: Seq<(usize, Prediction)>, i: int) -> bool {
    exists|j: int| 0 <= j < parts.len() && (parts[j].0 as int) == i
}

/// Whether every index of an `n`-item batch is claimed by some part.
pub open spec fn covers_each(parts: Seq<(usize, Prediction)>, n: nat) -> bool {
    forall|i: int| 0 <= i < n ==> index_claimed(parts, i)
}

/// The scattered results of an `n`-item batch: one part per input index,
/// each tagged with the index it belongs to, every index present exactly
/// once.
pub open spec fn exact_cover(parts: Seq<(usize, Prediction)>, n: nat) -> bool {
    &&& parts.len() == n
    &&& indices_unique(parts)
    &&& indices_below(parts, n)
    &&& covers_each(parts, n)
}

/// Reassembles the results of a scattered `n`-item batch into input
/// order, however the workers interleaved: part `(i, p)` ends up at
/// index `i` of the output. Succeeds exactly when the parts cover each
/// input index once, which a scatter over the batch always does.
pub fn gather_indexed(parts: Vec<(usize, Prediction)>, n: usize) -> (r: Option<Vec<Prediction>>)
    ensures
        r is Some <==> exact_cover(parts@, n as nat),
        r matches Some(v) ==> v@.len() == n,
        r matches Some(v) ==> forall|j: int|
            0 <= j < parts@.len() ==> v@[parts@[j].0 as int] == parts@[j].1,
{
    let ghost orig = parts@;
    if parts.len() != n {
        return None;
    }
    let mut slots: Vec<Option<Prediction>> = Vec::new();
    let mut i: usize = 0;
    while i < n
        invariant
            i <= n,
            slots@.len() == i,
            forall|t: int| 0 <= t < i ==> slots@[t] is None,
        decreases n - i,
    {
        slots.push(None);
        i += 1;
    }
    let mut rest = parts;
    while rest.len() > 0
        invariant
            orig == parts@,
            slots@.len() == n,
            orig.len() == n,
            rest@.len() <= n,
            rest@ == orig.subrange(orig.len() - rest@.len(), orig.len() as int),
            forall|j: int|
                0 <= j < orig.len() - rest@.len() ==> (orig[j].0 as nat) < n as nat
                    && slots@[orig[j].0 as int] == Some(orig[j].1),
            forall|t: int|
                0 <= t < n && slots@[t] is Some ==> exists|j: int|
                    0 <= j < orig.len() - rest@.len() && orig[j].0 == t,
            forall|j1: int, j2: int|
                0 <= j1 < j2 < orig.len() - rest@.len() ==> orig[j1].0 != orig[j2].0,
        decreases rest@.len(),
    {
        let ghost k = orig.len() - rest@.len();
        proof {
            assert(rest@[0] == orig[k as int]);
        }
        let (idx, p) = rest.remove(0);
        proof {
            assert(rest@ =~= orig.subrange(orig.len() - rest@.len(), orig.len() as int));
        }
        if idx >= n {
            proof {
                assert((orig[k as int].0 as nat) >= n as nat);
                assert(!indices_below(orig, n as nat));
            }
            return None;
        }
        let taken = slots[idx].is_some();
        if taken {
            proof {
                let j0 = choose|j: int| 0 <= j < k && orig[j].0 == idx as int;
                assert(orig[j0].0 == orig[k as int].0);
                assert(!indices_unique(orig));
            }
            return None;
        }
        slots.set(idx, Some(p));
    }
    let ghost filled = slots@;
    let mut out: Vec<Prediction> = Vec::new();
    while slots.len() > 0
        invariant
            orig == parts@,
            filled.len() == n,
            orig.len() == n,
            out@.len() + slots@.len() == n,
            slots@ == filled.subrange(out@.len() as int, n as int),
            forall|t: int| 0 <= t < out@.len() ==> Some(out@[t]) == filled[t],
            forall|j: int|
                0 <= j < n ==> (orig[j].0 as nat) < n as nat && filled[orig[j].0 as int] == Some(
                    orig[j].1,
                ),
            forall|t: int|
                0 <= t < n && filled[t] is Some ==> exists|j: int|
                    0 <= j < n && orig[j].0 == t,
            indices_unique(orig),
        decreases slots@.len(),
    {
        let ghost t0 = out@.len() as int;
        proof {
            assert(slots@[0] == filled[t0]);
        }
        let slot = slots.remove(0);
        proof {
            assert(slots@ =~= filled.subrange(out@.len() as int + 1, n as int));
        }
        match slot {
            Some(p) => {
                out.push(p);
            },
            None => {
                proof {
                    assert(!index_claimed(orig, t0)) by {
                        if index_claimed(orig, t0) {
                            let j = choose|j: int|
                                0 <= j < orig.len() && (orig[j].0 as int) == t0;
                            assert(filled[t0] == Some(orig[j].1));
                        }
                    }
                    assert(!covers_each(orig, n as nat));
                }
                return None;
            },
        }
    }
    proof {
        assert forall|t: int| 0 <= t < n implies index_claimed(orig, t) by {
            assert(Some(out@[t]) == filled[t]);
            assert(filled[t] is Some);
            let j = choose|j: int| 0 <= j < n && orig[j].0 == t;
            assert(0 <= j < orig.len() && (orig[j].0 as int) == t);
        }
        assert(covers_each(orig, n as nat));
        assert forall|j: int| 0 <= j < orig.len() implies out@[orig[j].0 as int] == orig[j].1 by {
            assert(filled[orig[j].0 as int] == Some(orig[j].1));
            assert(Some(out@[orig[j].0 as int]) == filled[orig[j].0 as int]);
        }
    }
    Some(out)
}

/// Order preservation under scatter/gather: when each scattered part
/// carries the finished result for the reply of its own index, and the
/// gathered output places each part at that index — which is exactly
/// what `gather_indexed` guarantees — then output index `i` corresponds
/// to input index `i`, however the workers interleaved.
pub proof fn lemma_gathered_batch_corresponds(
    parts: Seq<(usize, Prediction)>,
    raws: Seq<Vec<(String, u32)>>,
    out: Seq<Prediction>,
    n: nat,
)
    requires
        exact_cover(parts, n),
        raws.len() == n,
        out.len() == n,
        forall|j: int|
            0 <= j < parts.len() ==> prediction_of(raws[parts[j].0 as int]@, parts[j].1),
        forall|j: int| 0 <= j < parts.len() ==> out[parts[j].0 as int] == parts[j].1,
    ensures
        forall|i: int| 0 <= i < n ==> prediction_of(raws[i]@, out[i]),
{
    assert forall|i: int| 0 <= i < n implies prediction_of(raws[i]@, out[i]) by {
        assert(index_claimed(parts, i));
        let j = choose|j: int| 0 <= j < parts.len() && (parts[j].0 as int) == i;
        assert(prediction_of(raws[parts[j].0 as int]@, parts[j].1));
        assert(out[parts[j].0 as int] == parts[j].1);
    }
}

} // verus!
