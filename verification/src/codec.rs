use vstd::prelude::*;
use vstd::string::StrSliceExecFns;
use vstd::string::StringSliceAdditionalSpecFns;
use vstd::utf8::encode_utf8;
use vstd::utf8::decode_utf8;
use vstd::utf8::valid_utf8;
use vstd::utf8::encode_utf8_valid_utf8;
use vstd::utf8::encode_utf8_decode_utf8;

use crate::predict::Prediction;

verus! {

/// `256^w`: the number of values a `w`-byte field can carry.
pub open spec fn pow256(w: nat) -> nat
    decreases w,
{
    if w == 0 {
        1
    } else {
        256 * pow256((w - 1) as nat)
    }
}

/// The field capacities the frame uses.
proof fn lemma_pow256_values()
    ensures
        pow256(0) == 1,
        pow256(1) == 256,
        pow256(2) == 0x1_0000,
        pow256(3) == 0x100_0000,
        pow256(4) == 0x1_0000_0000,
        pow256(5) == 0x100_0000_0000,
        pow256(6) == 0x1_0000_0000_0000,
        pow256(7) == 0x100_0000_0000_0000,
        pow256(8) == 0x1_0000_0000_0000_0000,
{
    assert(pow256(0) == 1);
    assert(pow256(1) == 256);
    assert(pow256(2) == 0x1_0000);
    assert(pow256(3) == 0x100_0000);
    assert(pow256(4) == 0x1_0000_0000);
    assert(pow256(5) == 0x100_0000_0000);
    assert(pow256(6) == 0x1_0000_0000_0000);
    assert(pow256(7) == 0x100_0000_0000_0000);
    assert(pow256(8) == 0x1_0000_0000_0000_0000);
}

/// A wider field carries no fewer values.
proof fn lemma_pow256_mono(a: nat, b: nat)
    requires
        a <= b,
    ensures
        pow256(a) <= pow256(b),
    decreases b,
{
    if a < b {
        lemma_pow256_mono(a, (b - 1) as nat);
        assert(pow256(b) == 256 * pow256((b - 1) as nat));
    }
}

/// The `w`-byte little-endian rendering of `v`.
pub open spec fn le_bytes(v: nat, w: nat) -> Seq<u8>
    decreases w,
{
    if w == 0 {
        Seq::empty()
    } else {
        seq![(v % 256) as u8] + le_bytes(v / 256, (w - 1) as nat)
    }
}

/// The value little-endian bytes carry.
pub open spec fn le_val(s: Seq<u8>) -> nat
    decreases s.len(),
{
    if s.len() == 0 {
        0
    } else {
        (s[0] + 256 * le_val(s.drop_first())) as nat
    }
}

/// A `w`-byte field is `w` bytes long.
proof fn lemma_le_bytes_len(v: nat, w: nat)
    ensures
        le_bytes(v, w).len() == w,
    decreases w,
{
    if w > 0 {
        lemma_le_bytes_len(v / 256, (w - 1) as nat);
    }
}

/// The value of `w` bytes fits the field.
proof fn lemma_le_val_bound(s: Seq<u8>)
    ensures
        le_val(s) < pow256(s.len()),
    decreases s.len(),
{
    if s.len() > 0 {
        lemma_le_val_bound(s.drop_first());
        assert(le_val(s) == s[0] + 256 * le_val(s.drop_first()));
        assert(256 * le_val(s.drop_first()) <= 256 * (pow256((s.len() - 1) as nat) - 1))
            by (nonlinear_arith)
            requires
                le_val(s.drop_first()) <= pow256((s.len() - 1) as nat) - 1,
        ;
    }
}

/// Reading back a `w`-byte field yields the value written, for every
/// value that fits the field.
proof fn lemma_le_roundtrip(v: nat, w: nat)
    requires
        v < pow256(w),
    ensures
        le_val(le_bytes(v, w)) == v,
    decreases w,
{
    if w > 0 {
        assert(v / 256 < pow256((w - 1) as nat)) by (nonlinear_arith)
            requires
                v < 256 * pow256((w - 1) as nat),
        ;
        lemma_le_roundtrip(v / 256, (w - 1) as nat);
        let s = le_bytes(v, w);
        assert(s.drop_first() =~= le_bytes(v / 256, (w - 1) as nat));
    }
}

/// Appends the eight-byte little-endian rendering of `v` to `out`.
fn write_le8(out: &mut Vec<u8>, v: u64)
    ensures
        final(out)@ == old(out)@ + le_bytes(v as nat, 8),
{
    let mut cur: u64 = v;
    let mut k: usize = 0;
    while k < 8
        invariant
            k <= 8,
            out@ + le_bytes(cur as nat, (8 - k) as nat) == old(out)@ + le_bytes(v as nat, 8),
        decreases 8 - k,
    {
        let ghost pre = out@;
        let ghost pre_cur = cur as nat;
        out.push((cur % 256) as u8);
        cur = cur / 256;
        k += 1;
        proof {
            assert(le_bytes(pre_cur, (8 - k + 1) as nat) =~= seq![(pre_cur % 256) as u8]
                + le_bytes(pre_cur / 256, (8 - k) as nat));
            assert(out@ + le_bytes(cur as nat, (8 - k) as nat) =~= pre + le_bytes(
                pre_cur,
                (8 - k + 1) as nat,
            ));
        }
    }
    proof {
        assert(out@ + le_bytes(cur as nat, 0) =~= out@);
    }
}

/// Appends the four-byte little-endian rendering of `v` to `out`.
fn write_le4(out: &mut Vec<u8>, v: u32)
    ensures
        final(out)@ == old(out)@ + le_bytes(v as nat, 4),
{
    let mut cur: u32 = v;
    let mut k: usize = 0;
    while k < 4
        invariant
            k <= 4,
            out@ + le_bytes(cur as nat, (4 - k) as nat) == old(out)@ + le_bytes(v as nat, 4),
        decreases 4 - k,
    {
        let ghost pre = out@;
        let ghost pre_cur = cur as nat;
        out.push((cur % 256) as u8);
        cur = cur / 256;
        k += 1;
        proof {
            assert(le_bytes(pre_cur, (4 - k + 1) as nat) =~= seq![(pre_cur % 256) as u8]
                + le_bytes(pre_cur / 256, (4 - k) as nat));
            assert(out@ + le_bytes(cur as nat, (4 - k) as nat) =~= pre + le_bytes(
                pre_cur,
                (4 - k + 1) as nat,
            ));
        }
    }
    proof {
        assert(out@ + le_bytes(cur as nat, 0) =~= out@);
    }
}

/// One prediction as the label/score pairs it carries, in ranking order.
pub open spec fn pred_pairs(p: Prediction) -> Seq<(Seq<char>, u32)> {
    Seq::new(p.labels@.len(), |i: int| (p.labels@[i]@, p.prob_bits@[i]))
}

/// A whole batch response as the pair lists it carries, in input order.
pub open spec fn batch_pairs(ps: Seq<Prediction>) -> Seq<Seq<(Seq<char>, u32)>> {
    Seq::new(ps.len(), |i: int| pred_pairs(ps[i]))
}

/// The frame of one label/score pair: the byte length of the label's
/// UTF-8 form in eight bytes, the UTF-8 bytes themselves, then the
/// score's exact bit pattern in four bytes — so no precision is lost.
pub open spec fn enc_pair(label: Seq<char>, prob: u32) -> Seq<u8> {
    le_bytes(encode_utf8(label).len(), 8) + encode_utf8(label) + le_bytes(prob as nat, 4)
}

/// The frames of a pair list, in order.
pub open spec fn enc_pairs(pairs: Seq<(Seq<char>, u32)>) -> Seq<u8>
    decreases pairs.len(),
{
    if pairs.len() == 0 {
        Seq::empty()
    } else {
        enc_pair(pairs[0].0, pairs[0].1) + enc_pairs(pairs.drop_first())
    }
}

/// The frame of one prediction: its pair count in eight bytes, then its
/// pair frames.
pub open spec fn enc_pred(pairs: Seq<(Seq<char>, u32)>) -> Seq<u8> {
    le_bytes(pairs.len(), 8) + enc_pairs(pairs)
}

/// The frames of a batch's predictions, in order.
pub open spec fn enc_preds(batch: Seq<Seq<(Seq<char>, u32)>>) -> Seq<u8>
    decreases batch.len(),
{
    if batch.len() == 0 {
        Seq::empty()
    } else {
        enc_pred(batch[0]) + enc_preds(batch.drop_first())
    }
}

/// The frame of a whole batch response: its prediction count in eight
/// bytes, then one frame per prediction, in input order.
pub open spec fn enc_batch(batch: Seq<Seq<(Seq<char>, u32)>>) -> Seq<u8> {
    le_bytes(batch.len(), 8) + enc_preds(batch)
}

proof fn lemma_enc_pairs_snoc(pairs: Seq<(Seq<char>, u32)>, x: (Seq<char>, u32))
    ensures
        enc_pairs(pairs.push(x)) == enc_pairs(pairs) + enc_pair(x.0, x.1),
    decreases pairs.len(),
{
    if pairs.len() == 0 {
        assert(pairs.push(x).drop_first() =~= pairs);
        assert(enc_pairs(pairs.push(x)) =~= enc_pairs(pairs) + enc_pair(x.0, x.1));
    } else {
        lemma_enc_pairs_snoc(pairs.drop_first(), x);
        assert(pairs.push(x).drop_first() =~= pairs.drop_first().push(x));
        assert(enc_pairs(pairs.push(x)) =~= enc_pairs(pairs) + enc_pair(x.0, x.1));
    }
}

proof fn lemma_enc_preds_snoc(batch: Seq<Seq<(Seq<char>, u32)>>, x: Seq<(Seq<char>, u32)>)
    ensures
        enc_preds(batch.push(x)) == enc_preds(batch) + enc_pred(x),
    decreases batch.len(),
{
    if batch.len() == 0 {
        assert(batch.push(x).drop_first() =~= batch);
        assert(enc_preds(batch.push(x)) =~= enc_preds(batch) + enc_pred(x));
    } else {
        lemma_enc_preds_snoc(batch.drop_first(), x);
        assert(batch.push(x).drop_first() =~= batch.drop_first().push(x));
        assert(enc_preds(batch.push(x)) =~= enc_preds(batch) + enc_pred(x));
    }
}

/// Appends the frame of one prediction to `out`.
fn encode_prediction(out: &mut Vec<u8>, p: &Prediction)
    requires
        p.wf(),
    ensures
        final(out)@ == old(out)@ + enc_pred(pred_pairs(*p)),
{
    let m = p.labels.len();
    write_le8(out, m as u64);
    let mut j: usize = 0;
    while j < m
        invariant
            j <= m,
            m == p.labels@.len(),
            p.wf(),
            out@ == old(out)@ + le_bytes(m as nat, 8) + enc_pairs(pred_pairs(*p).take(j as int)),
        decreases m - j,
    {
        let ghost pre = out@;
        let mut label_bytes = p.labels[j].as_str().as_bytes_vec();
        write_le8(out, label_bytes.len() as u64);
        out.append(&mut label_bytes);
        write_le4(out, p.prob_bits[j]);
        proof {
            let pairs = pred_pairs(*p);
            assert(out@ =~= pre + enc_pair(pairs[j as int].0, pairs[j as int].1));
            lemma_enc_pairs_snoc(pairs.take(j as int), pairs[j as int]);
            assert(pairs.take(j as int).push(pairs[j as int]) =~= pairs.take(j + 1));
            assert(out@ =~= old(out)@ + le_bytes(m as nat, 8) + enc_pairs(pairs.take(j + 1)));
        }
        j += 1;
    }
    proof {
        assert(pred_pairs(*p).take(m as int) =~= pred_pairs(*p));
        assert(out@ =~= old(out)@ + enc_pred(pred_pairs(*p)));
    }
}

/// Frames a whole batch response as bytes: the prediction count, then
/// one length-delimited frame per prediction, in input order, every
/// score carried as its exact bit pattern.
pub fn encode_batch(preds: &Vec<Prediction>) -> (out: Vec<u8>)
    requires
        forall|i: int| 0 <= i < preds@.len() ==> preds@[i].wf(),
    ensures
        out@ == enc_batch(batch_pairs(preds@)),
{
    let mut out: Vec<u8> = Vec::new();
    let n = preds.len();
    write_le8(&mut out, n as u64);
    let mut i: usize = 0;
    while i < n
        invariant
            i <= n,
            n == preds@.len(),
            forall|t: int| 0 <= t < preds@.len() ==> preds@[t].wf(),
            out@ == le_bytes(n as nat, 8) + enc_preds(batch_pairs(preds@).take(i as int)),
        decreases n - i,
    {
        let ghost pre = out@;
        encode_prediction(&mut out, &preds[i]);
        proof {
            let batch = batch_pairs(preds@);
            assert(out@ =~= pre + enc_pred(batch[i as int]));
            lemma_enc_preds_snoc(batch.take(i as int), batch[i as int]);
            assert(batch.take(i as int).push(batch[i as int]) =~= batch.take(i + 1));
            assert(out@ =~= le_bytes(n as nat, 8) + enc_preds(batch.take(i + 1)));
        }
        i += 1;
    }
    proof {
        assert(batch_pairs(preds@).take(n as int) =~= batch_pairs(preds@));
        assert(out@ =~= enc_batch(batch_pairs(preds@)));
    }
    out
}

/// Reads one `w`-byte little-endian field: the value and the remainder.
pub open spec fn dec_le(s: Seq<u8>, w: nat) -> Option<(nat, Seq<u8>)> {
    if s.len() < w {
        None
    } else {
        Some((le_val(s.take(w as int)), s.skip(w as int)))
    }
}

/// Reads one label/score pair frame: the label's byte length, the
/// label's UTF-8 bytes, then the score's bit pattern.
pub open spec fn dec_pair(s: Seq<u8>) -> Option<((Seq<char>, u32), Seq<u8>)> {
    match dec_le(s, 8) {
        None => None,
        Some((len, s1)) => if s1.len() < len {
            None
        } else {
            let ub = s1.take(len as int);
            if !valid_utf8(ub) {
                None
            } else {
                match dec_le(s1.skip(len as int), 4) {
                    None => None,
                    Some((pb, s2)) => Some(((decode_utf8(ub), pb as u32), s2)),
                }
            }
        },
    }
}

/// Reads `m` pair frames, in order.
pub open spec fn dec_pairs(s: Seq<u8>, m: nat) -> Option<(Seq<(Seq<char>, u32)>, Seq<u8>)>
    decreases m,
{
    if m == 0 {
        Some((Seq::empty(), s))
    } else {
        match dec_pair(s) {
            None => None,
            Some((x, s1)) => match dec_pairs(s1, (m - 1) as nat) {
                None => None,
                Some((xs, s2)) => Some((seq![x] + xs, s2)),
            },
        }
    }
}

/// Reads one prediction frame: its pair count, then its pairs.
pub open spec fn dec_pred(s: Seq<u8>) -> Option<(Seq<(Seq<char>, u32)>, Seq<u8>)> {
    match dec_le(s, 8) {
        None => None,
        Some((m, s1)) => dec_pairs(s1, m),
    }
}

/// Reads `n` prediction frames, in order.
pub open spec fn dec_preds(s: Seq<u8>, n: nat) -> Option<(Seq<Seq<(Seq<char>, u32)>>, Seq<u8>)>
    decreases n,
{
    if n == 0 {
        Some((Seq::empty(), s))
    } else {
        match dec_pred(s) {
            None => None,
            Some((x, s1)) => match dec_preds(s1, (n - 1) as nat) {
                None => None,
                Some((xs, s2)) => Some((seq![x] + xs, s2)),
            },
        }
    }
}

/// Reads one whole batch-response frame, rejecting trailing garbage.
pub open spec fn dec_batch(s: Seq<u8>) -> Option<Seq<Seq<(Seq<char>, u32)>>> {
    match dec_le(s, 8) {
        None => None,
        Some((n, s1)) => match dec_preds(s1, n) {
            None => None,
            Some((b, s2)) => if s2.len() == 0 {
                Some(b)
            } else {
                None
            },
        },
    }
}

/// Whether a pair list fits the frame's fields: the pair count and each
/// label's UTF-8 byte length fit eight bytes. Anything an executable
/// `Prediction` holds does.
pub open spec fn pairs_encodable(pairs: Seq<(Seq<char>, u32)>) -> bool {
    &&& pairs.len() < pow256(8)
    &&& forall|i: int| 0 <= i < pairs.len() ==> encode_utf8(pairs[i].0).len() < pow256(8)
}

/// Whether a batch fits the frame's fields.
pub open spec fn batch_encodable(batch: Seq<Seq<(Seq<char>, u32)>>) -> bool {
    &&& batch.len() < pow256(8)
    &&& forall|i: int| 0 <= i < batch.len() ==> pairs_encodable(batch[i])
}

proof fn lemma_dec_pair_enc(label: Seq<char>, prob: u32, rest: Seq<u8>)
    requires
        encode_utf8(label).len() < pow256(8),
    ensures
        dec_pair(enc_pair(label, prob) + rest) == Some(((label, prob), rest)),
{
    let ub = encode_utf8(label);
    let lb = le_bytes(ub.len(), 8);
    let pb4 = le_bytes(prob as nat, 4);
    lemma_le_bytes_len(ub.len(), 8);
    lemma_le_bytes_len(prob as nat, 4);
    let s = enc_pair(label, prob) + rest;
    assert(s.take(8) =~= lb);
    assert(s.skip(8) =~= ub + pb4 + rest);
    lemma_le_roundtrip(ub.len(), 8);
    let s1 = s.skip(8);
    assert(s1.take(ub.len() as int) =~= ub);
    encode_utf8_valid_utf8(label);
    encode_utf8_decode_utf8(label);
    assert(s1.skip(ub.len() as int) =~= pb4 + rest);
    let s2 = s1.skip(ub.len() as int);
    assert(s2.take(4) =~= pb4);
    assert(s2.skip(4) =~= rest);
    lemma_pow256_values();
    lemma_le_roundtrip(prob as nat, 4);
}

proof fn lemma_dec_pairs_enc(pairs: Seq<(Seq<char>, u32)>, rest: Seq<u8>)
    requires
        pairs_encodable(pairs),
    ensures
        dec_pairs(enc_pairs(pairs) + rest, pairs.len()) == Some((pairs, rest)),
    decreases pairs.len(),
{
    if pairs.len() == 0 {
        assert(enc_pairs(pairs) + rest =~= rest);
        assert(dec_pairs(rest, 0) == Some((Seq::<(Seq<char>, u32)>::empty(), rest)));
        assert(pairs =~= Seq::<(Seq<char>, u32)>::empty());
    } else {
        let tail = pairs.drop_first();
        assert(pairs_encodable(tail)) by {
            assert forall|i: int| 0 <= i < tail.len() implies encode_utf8(tail[i].0).len()
                < pow256(8) by {
                assert(tail[i] == pairs[i + 1]);
            }
        }
        let s = enc_pairs(pairs) + rest;
        assert(s =~= enc_pair(pairs[0].0, pairs[0].1) + (enc_pairs(tail) + rest));
        lemma_dec_pair_enc(pairs[0].0, pairs[0].1, enc_pairs(tail) + rest);
        lemma_dec_pairs_enc(tail, rest);
        assert((pairs[0].0, pairs[0].1) == pairs[0]);
        assert(seq![pairs[0]] + tail =~= pairs);
    }
}

proof fn lemma_dec_pred_enc(pairs: Seq<(Seq<char>, u32)>, rest: Seq<u8>)
    requires
        pairs_encodable(pairs),
    ensures
        dec_pred(enc_pred(pairs) + rest) == Some((pairs, rest)),
{
    let s = enc_pred(pairs) + rest;
    lemma_le_bytes_len(pairs.len(), 8);
    assert(s.take(8) =~= le_bytes(pairs.len(), 8));
    assert(s.skip(8) =~= enc_pairs(pairs) + rest);
    lemma_le_roundtrip(pairs.len(), 8);
    lemma_dec_pairs_enc(pairs, rest);
}

proof fn lemma_dec_preds_enc(batch: Seq<Seq<(Seq<char>, u32)>>, rest: Seq<u8>)
    requires
        batch_encodable(batch),
    ensures
        dec_preds(enc_preds(batch) + rest, batch.len()) == Some((batch, rest)),
    decreases batch.len(),
{
    if batch.len() == 0 {
        assert(enc_preds(batch) + rest =~= rest);
        assert(batch =~= Seq::<Seq<(Seq<char>, u32)>>::empty());
    } else {
        let tail = batch.drop_first();
        assert(batch_encodable(tail)) by {
            assert forall|i: int| 0 <= i < tail.len() implies pairs_encodable(tail[i]) by {
                assert(tail[i] == batch[i + 1]);
            }
        }
        let s = enc_preds(batch) + rest;
        assert(s =~= enc_pred(batch[0]) + (enc_preds(tail) + rest));
        lemma_dec_pred_enc(batch[0], enc_preds(tail) + rest);
        lemma_dec_preds_enc(tail, rest);
        assert(seq![batch[0]] + tail =~= batch);
    }
}

/// Reads an eight-byte little-endian field from the front of `bytes`.
fn read_le8<'a>(bytes: &'a [u8]) -> (r: Option<(u64, &'a [u8])>)
    ensures
        r is Some <==> dec_le(bytes@, 8) is Some,
        r matches Some((v, rest)) ==> dec_le(bytes@, 8) == Some((v as nat, rest@)),
{
    let n = bytes.len();
    if n < 8 {
        return None;
    }
    let mut v: u64 = 0;
    let mut k: usize = 8;
    while k > 0
        invariant
            k <= 8,
            n == bytes@.len(),
            n >= 8,
            v as nat == le_val(bytes@.subrange(k as int, 8)),
        decreases k,
    {
        proof {
            lemma_le_val_bound(bytes@.subrange(k as int, 8));
            lemma_pow256_mono((8 - k) as nat, 7);
            lemma_pow256_values();
        }
        k -= 1;
        let b = *vstd::slice::slice_index_get(bytes, k);
        v = (b as u64) + 256 * v;
        proof {
            assert(bytes@.subrange(k as int, 8).drop_first() =~= bytes@.subrange(k + 1, 8));
        }
    }
    proof {
        assert(bytes@.subrange(0, 8) =~= bytes@.take(8));
    }
    let rest = vstd::slice::slice_subrange(bytes, 8, n);
    proof {
        assert(rest@ =~= bytes@.skip(8));
    }
    Some((v, rest))
}

/// Reads a four-byte little-endian field from the front of `bytes`.
fn read_le4<'a>(bytes: &'a [u8]) -> (r: Option<(u32, &'a [u8])>)
    ensures
        r is Some <==> dec_le(bytes@, 4) is Some,
        r matches Some((v, rest)) ==> dec_le(bytes@, 4) == Some((v as nat, rest@)),
{
    let n = bytes.len();
    if n < 4 {
        return None;
    }
    let mut v: u32 = 0;
    let mut k: usize = 4;
    while k > 0
        invariant
            k <= 4,
            n == bytes@.len(),
            n >= 4,
            v as nat == le_val(bytes@.subrange(k as int, 4)),
        decreases k,
    {
        proof {
            lemma_le_val_bound(bytes@.subrange(k as int, 4));
            lemma_pow256_mono((4 - k) as nat, 3);
            lemma_pow256_values();
        }
        k -= 1;
        let b = *vstd::slice::slice_index_get(bytes, k);
        v = (b as u32) + 256 * v;
        proof {
            assert(bytes@.subrange(k as int, 4).drop_first() =~= bytes@.subrange(k + 1, 4));
        }
    }
    proof {
        assert(bytes@.subrange(0, 4) =~= bytes@.take(4));
    }
    let rest = vstd::slice::slice_subrange(bytes, 4, n);
    proof {
        assert(rest@ =~= bytes@.skip(4));
    }
    Some((v, rest))
}

/// Relies on `core::str::from_utf8`: it succeeds exactly on valid UTF-8
/// bytes and returns the string those bytes encode.
#[verifier::external_body]
fn bytes_to_str<'a>(bytes: &'a [u8]) -> (r: Option<&'a str>)
    ensures
        r is Some <==> valid_utf8(bytes@),
        r matches Some(s) ==> s@ == decode_utf8(bytes@),
{
    core::str::from_utf8(bytes).ok()
}

/// Reads one label/score pair frame from the front of `bytes`.
fn read_pair<'a>(bytes: &'a [u8]) -> (r: Option<((String, u32), &'a [u8])>)
    ensures
        r is Some <==> dec_pair(bytes@) is Some,
        r matches Some(((label, prob), rest)) ==> dec_pair(bytes@) == Some(
            ((label@, prob), rest@),
        ),
{
    match read_le8(bytes) {
        None => None,
        Some((len64, s1)) => {
            if (s1.len() as u64) < len64 {
                None
            } else {
                let len = len64 as usize;
                let ub = vstd::slice::slice_subrange(s1, 0, len);
                proof {
                    assert(ub@ =~= s1@.take(len64 as int));
                }
                match bytes_to_str(ub) {
                    None => None,
                    Some(st) => {
                        let label = st.to_owned();
                        let s2 = vstd::slice::slice_subrange(s1, len, s1.len());
                        proof {
                            assert(s2@ =~= s1@.skip(len64 as int));
                        }
                        match read_le4(s2) {
                            None => None,
                            Some((prob, s3)) => Some(((label, prob), s3)),
                        }
                    },
                }
            }
        },
    }
}

/// Reads `m` pair frames from the front of `bytes`, in order.
fn read_pairs<'a>(bytes: &'a [u8], m: u64) -> (r: Option<((Vec<String>, Vec<u32>), &'a [u8])>)
    ensures
        r is Some <==> dec_pairs(bytes@, m as nat) is Some,
        r matches Some(((labels, probs), rest)) ==> (dec_pairs(bytes@, m as nat) matches Some(
            (xs, srest),
        ) && labels@.len() == xs.len() && probs@.len() == xs.len() && srest == rest@ && (forall|
            i: int,
        |
            0 <= i < xs.len() ==> labels@[i]@ == xs[i].0) && (forall|i: int|
            0 <= i < xs.len() ==> probs@[i] == xs[i].1)),
    decreases m,
{
    if m == 0 {
        let mut labels: Vec<String> = Vec::new();
        let mut probs: Vec<u32> = Vec::new();
        return Some(((labels, probs), bytes));
    }
    match read_pair(bytes) {
        None => None,
        Some(((label, prob), s1)) => {
            match read_pairs(s1, m - 1) {
                None => None,
                Some(((tail_labels, tail_probs), s2)) => {
                    let ghost x = dec_pair(bytes@)->Some_0.0;
                    let ghost xs_tail = dec_pairs(s1@, (m - 1) as nat)->Some_0.0;
                    let mut labels = tail_labels;
                    let mut probs = tail_probs;
                    let ghost pre_labels = labels@;
                    let ghost pre_probs = probs@;
                    labels.insert(0, label);
                    probs.insert(0, prob);
                    proof {
                        let xs = seq![x] + xs_tail;
                        assert(labels@ =~= seq![label].add(pre_labels));
                        assert(probs@ =~= seq![prob].add(pre_probs));
                        assert forall|i: int| 0 <= i < xs.len() implies labels@[i]@ == xs[i].0 by {
                            if i > 0 {
                                assert(labels@[i] == pre_labels[i - 1]);
                                assert(pre_labels[i - 1]@ == xs_tail[i - 1].0);
                            }
                        }
                        assert forall|i: int| 0 <= i < xs.len() implies probs@[i] == xs[i].1 by {
                            if i > 0 {
                                assert(probs@[i] == pre_probs[i - 1]);
                            }
                        }
                    }
                    Some(((labels, probs), s2))
                },
            }
        },
    }
}

/// Reads one prediction frame from the front of `bytes`.
fn read_pred<'a>(bytes: &'a [u8]) -> (r: Option<(Prediction, &'a [u8])>)
    ensures
        r is Some <==> dec_pred(bytes@) is Some,
        r matches Some((p, rest)) ==> (p.wf() && (dec_pred(bytes@) matches Some((xs, srest))
            && pred_pairs(p) == xs && srest == rest@)),
{
    match read_le8(bytes) {
        None => None,
        Some((m, s1)) => {
            match read_pairs(s1, m) {
                None => None,
                Some(((labels, probs), s2)) => {
                    let p = Prediction { labels, prob_bits: probs };
                    proof {
                        let xs = dec_pairs(s1@, m as nat)->Some_0.0;
                        assert forall|i: int| 0 <= i < xs.len() implies pred_pairs(p)[i]
                            == xs[i] by {
                            assert(pred_pairs(p)[i] == (p.labels@[i]@, p.prob_bits@[i]));
                            assert(xs[i] == (xs[i].0, xs[i].1));
                        }
                        assert(pred_pairs(p) =~= xs);
                    }
                    Some((p, s2))
                },
            }
        },
    }
}

/// Reads `n` prediction frames from the front of `bytes`, in order.
fn read_preds<'a>(bytes: &'a [u8], n: u64) -> (r: Option<(Vec<Prediction>, &'a [u8])>)
    ensures
        r is Some <==> dec_preds(bytes@, n as nat) is Some,
        r matches Some((v, rest)) ==> (dec_preds(bytes@, n as nat) matches Some((b, srest))
            && batch_pairs(v@) == b && srest == rest@ && (forall|i: int|
            0 <= i < v@.len() ==> v@[i].wf())),
    decreases n,
{
    if n == 0 {
        let v: Vec<Prediction> = Vec::new();
        proof {
            assert(batch_pairs(v@) =~= Seq::<Seq<(Seq<char>, u32)>>::empty());
        }
        return Some((v, bytes));
    }
    match read_pred(bytes) {
        None => None,
        Some((p, s1)) => {
            match read_preds(s1, n - 1) {
                None => None,
                Some((tail, s2)) => {
                    let ghost x = dec_pred(bytes@)->Some_0.0;
                    let ghost b_tail = dec_preds(s1@, (n - 1) as nat)->Some_0.0;
                    let mut v = tail;
                    let ghost pre = v@;
                    v.insert(0, p);
                    proof {
                        let b = seq![x] + b_tail;
                        assert(v@ =~= seq![p].add(pre));
                        assert forall|i: int| 0 <= i < b.len() implies batch_pairs(v@)[i]
                            == b[i] by {
                            if i > 0 {
                                assert(v@[i] == pre[i - 1]);
                                assert(batch_pairs(pre)[i - 1] == b_tail[i - 1]);
                            }
                        }
                        assert(batch_pairs(v@) =~= b);
                    }
                    Some((v, s2))
                },
            }
        },
    }
}

/// Decodes a batch-response frame: yields the predictions, in input
/// order, exactly when the bytes are one well-formed frame with nothing
/// trailing.
pub fn decode_batch(bytes: &[u8]) -> (r: Option<Vec<Prediction>>)
    ensures
        r is Some <==> dec_batch(bytes@) is Some,
        r matches Some(v) ==> (dec_batch(bytes@) matches Some(b) && batch_pairs(v@) == b && (
        forall|i: int| 0 <= i < v@.len() ==> v@[i].wf())),
{
    match read_le8(bytes) {
        None => None,
        Some((n, s1)) => {
            match read_preds(s1, n) {
                None => None,
                Some((v, s2)) => {
                    if s2.len() == 0 {
                        Some(v)
                    } else {
                        None
                    }
                },
            }
        },
    }
}

/// Round-trip law: the frame of any batch response decodes back to
/// exactly the ordered labels and score bit patterns that were encoded —
/// nothing reordered, nothing lost.
pub proof fn lemma_codec_roundtrip(batch: Seq<Seq<(Seq<char>, u32)>>)
    requires
        batch_encodable(batch),
    ensures
        dec_batch(enc_batch(batch)) == Some(batch),
{
    let s = enc_batch(batch);
    lemma_le_bytes_len(batch.len(), 8);
    assert(s.take(8) =~= le_bytes(batch.len(), 8));
    assert(s.skip(8) =~= enc_preds(batch) + Seq::<u8>::empty());
    lemma_le_roundtrip(batch.len(), 8);
    lemma_dec_preds_enc(batch, Seq::empty());
}

} // verus!
