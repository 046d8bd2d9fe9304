use vstd::prelude::*;

use crate::options::PredictOptions;
use crate::predict::ModelCall;
use crate::predict::Prediction;
use crate::predict::call_of;
use crate::predict::prediction_of;
use crate::predict::prepare_call;
use crate::predict::finish_prediction;

verus! {

/// One inbound message of the client-streaming prediction call: one text
/// with its own top-K and threshold; defaults apply per message, not per
/// call.
pub struct PredictRequest {
    pub text: String,
    pub k: Option<u32>,
    pub threshold_bits: Option<u32>,
}

impl PredictRequest {
    /// The options this one message carries.
    pub open spec fn spec_options(self) -> PredictOptions {
        PredictOptions { k: self.k, threshold_bits: self.threshold_bits }
    }

    /// The model invocation owed for this message, with the message's own
    /// defaults applied.
    pub fn to_call(&self) -> (c: ModelCall)
        ensures
            call_of(
                self.text@,
                self.spec_options().spec_effective_k(),
                self.spec_options().spec_effective_threshold_bits(),
                c,
            ),
            c.k == self.spec_options().spec_effective_k(),
    {
        let options = PredictOptions::new(self.k, self.threshold_bits);
        prepare_call(self.text.as_str(), options.effective_k(), options.effective_threshold_bits())
    }
}

/// The one terminal message of a prediction stream: every result of the
/// session, in arrival order.
pub struct PredictResponse {
    pub predictions: Vec<Prediction>,
}

/// An open client-streaming prediction session: an ordered accumulation
/// of results, one appended per inbound message, finalized into one
/// response when the client half-closes its send side.
pub struct StreamSession {
    predictions: Vec<Prediction>,
}

impl StreamSession {
    /// The results accumulated so far, in arrival order.
    pub closed spec fn accumulated(self) -> Seq<Prediction> {
        self.predictions@
    }

    /// Opens a session with nothing accumulated.
    pub fn new() -> (s: StreamSession)
        ensures
            s.accumulated() == Seq::<Prediction>::empty(),
    {
        StreamSession { predictions: Vec::new() }
    }

    /// Appends the finished result for the model's raw reply to one
    /// inbound message. Results accumulate strictly in arrival order.
    pub fn push_result(&mut self, raw: &Vec<(String, u32)>)
        ensures
            final(self).accumulated() == old(self).accumulated().push(
                final(self).accumulated().last(),
            ),
            final(self).accumulated().len() == old(self).accumulated().len() + 1,
            prediction_of(raw@, final(self).accumulated().last()),
    {
        let p = finish_prediction(raw);
        self.predictions.push(p);
    }

    /// A clean half-close of the client's send side: the session is
    /// consumed into the one terminal response, carrying every
    /// accumulated result in arrival order.
    pub fn finish(self) -> (r: PredictResponse)
        ensures
            r.predictions@ == self.accumulated(),
    {
        PredictResponse { predictions: self.predictions }
    }

    /// The peer disconnected mid-stream: the partial accumulation is
    /// discarded silently. The session is consumed without ever yielding
    /// a response.
    pub fn abort(self) {
    }
}

/// One dense sentence embedding, carried as the IEEE-754 bit patterns of
/// its `f32` components, exactly as the model produced them.
pub struct SentenceVector {
    pub value_bits: Vec<u32>,
}

/// The one terminal message of a sentence-vector stream: every embedding
/// of the session, in arrival order.
pub struct SentenceVectorResponse {
    pub vectors: Vec<SentenceVector>,
}

/// An open client-streaming sentence-vector session: an ordered
/// accumulation of embeddings, one appended per inbound message.
pub struct VectorSession {
    vectors: Vec<SentenceVector>,
}

impl VectorSession {
    /// The embeddings accumulated so far, in arrival order.
    pub closed spec fn accumulated(self) -> Seq<SentenceVector> {
        self.vectors@
    }

    /// Opens a session with nothing accumulated.
    pub fn new() -> (s: VectorSession)
        ensures
            s.accumulated() == Seq::<SentenceVector>::empty(),
    {
        VectorSession { vectors: Vec::new() }
    }

    /// Appends the embedding the collaborator returned for one inbound
    /// message, every component bit-for-bit unchanged, in arrival order.
    pub fn push_vector(&mut self, value_bits: Vec<u32>)
        ensures
            final(self).accumulated() == old(self).accumulated().push(
                (SentenceVector { value_bits }),
            ),
    {
        self.vectors.push(SentenceVector { value_bits });
    }

    /// A clean half-close: the session is consumed into the one terminal
    /// response, carrying every embedding in arrival order.
    pub fn finish(self) -> (r: SentenceVectorResponse)
        ensures
            r.vectors@ == self.accumulated(),
    {
        SentenceVectorResponse { vectors: self.vectors }
    }

    /// The peer disconnected mid-stream: everything is discarded
    /// silently, and no response is ever produced.
    pub fn abort(self) {
    }
}

/// One transport event of a client-streaming session, as the adapter
/// sees it. An inbound message carries the model collaborator's raw
/// reply for its text, since only the collaborator can produce it.
pub enum StreamEvent {
    /// An inbound request message, with the raw model reply for it.
    Message(Vec<(String, u32)>),
    /// The client cleanly closed its send side.
    HalfClose,
    /// The peer disconnected mid-stream.
    Disconnect,
    /// Any other transport-level fault.
    Fault,
}

/// How a session ended.
pub enum SessionOutcome {
    /// A clean half-close: the one terminal response is emitted.
    Response(PredictResponse),
    /// A disconnect (or a stream that never half-closed): nothing is
    /// sent and nothing is logged as an error.
    Aborted,
    /// Any other transport fault: the call fails with an error.
    Failed,
}

/// The position of the first event that is not an inbound message: the
/// point where the session's fate is decided.
pub open spec fn first_terminal(events: Seq<StreamEvent>) -> int
    decreases events.len(),
{
    if events.len() == 0 {
        0
    } else if !(events[0] is Message) {
        0
    } else {
        1 + first_terminal(events.drop_first())
    }
}

/// Every event before the first terminal is a message, and the first
/// terminal, when it exists, is not.
pub proof fn lemma_first_terminal(events: Seq<StreamEvent>)
    ensures
        0 <= first_terminal(events) <= events.len(),
        forall|j: int| 0 <= j < first_terminal(events) ==> events[j] is Message,
        first_terminal(events) < events.len() ==> !(events[first_terminal(events)] is Message),
    decreases events.len(),
{
    if events.len() > 0 && events[0] is Message {
        lemma_first_terminal(events.drop_first());
        let rest = events.drop_first();
        assert forall|j: int| 0 <= j < first_terminal(events) implies events[j] is Message by {
            if j > 0 {
                assert(rest[j - 1] is Message);
            }
        }
    }
}

/// Drives one whole client-streaming prediction session over the events
/// the transport delivered, in order: each inbound message's reply is
/// finished and accumulated; a clean half-close yields the one terminal
/// response, in arrival order; a disconnect discards everything
/// silently; any other fault fails the call. Events after the first
/// terminal one are never looked at.
pub fn run_session(events: &Vec<StreamEvent>) -> (r: SessionOutcome)
    ensures
        ({
            let t = first_terminal(events@);
            &&& (t == events@.len() ==> r is Aborted)
            &&& (t < events@.len() && events@[t] is Disconnect ==> r is Aborted)
            &&& (t < events@.len() && events@[t] is Fault ==> r is Failed)
            &&& (t < events@.len() && events@[t] is HalfClose ==> (r matches
                SessionOutcome::Response(resp) && resp.predictions@.len() == t && (forall|j: int|
                0 <= j < t ==> prediction_of(events@[j]->Message_0@, resp.predictions@[j]))))
        }),
{
    let mut session = StreamSession::new();
    let n = events.len();
    let mut i: usize = 0;
    proof {
        lemma_first_terminal(events@);
    }
    while i < n
        invariant
            n == events@.len(),
            i <= first_terminal(events@),
            session.accumulated().len() == i,
            forall|j: int|
                0 <= j < i ==> prediction_of(events@[j]->Message_0@, session.accumulated()[j]),
        decreases n - i,
    {
        proof {
            lemma_first_terminal(events@);
        }
        let ghost pre_acc = session.accumulated();
        match &events[i] {
            StreamEvent::Message(raw) => {
                session.push_result(raw);
                i += 1;
                proof {
                    assert forall|j: int|
                        0 <= j < i implies prediction_of(
                        events@[j]->Message_0@,
                        session.accumulated()[j],
                    ) by {
                        if j < i - 1 {
                            assert(session.accumulated()[j] == pre_acc[j]);
                            assert(prediction_of(events@[j]->Message_0@, pre_acc[j]));
                        }
                    }
                }
            },
            StreamEvent::HalfClose => {
                proof {
                    assert(first_terminal(events@) == i);
                }
                return SessionOutcome::Response(session.finish());
            },
            StreamEvent::Disconnect => {
                proof {
                    assert(first_terminal(events@) == i);
                }
                session.abort();
                return SessionOutcome::Aborted;
            },
            StreamEvent::Fault => {
                proof {
                    assert(first_terminal(events@) == i);
                }
                session.abort();
                return SessionOutcome::Failed;
            },
        }
    }
    proof {
        lemma_first_terminal(events@);
    }
    session.abort();
    SessionOutcome::Aborted
}

/// The handler interface of the streaming prediction service: one call
/// per client-streaming session, over the events the transport
/// delivered, in order. Every handler must follow the session protocol:
/// a response carrying the results in arrival order for a stream that
/// half-closed cleanly, silence for one whose peer disconnected, an
/// error for any other fault.
pub trait FasttextServing {
    fn predict(&mut self, events: &Vec<StreamEvent>) -> (r: SessionOutcome)
        ensures
            ({
                let t = first_terminal(events@);
                &&& (t == events@.len() ==> r is Aborted)
                &&& (t < events@.len() && events@[t] is Disconnect ==> r is Aborted)
                &&& (t < events@.len() && events@[t] is Fault ==> r is Failed)
                &&& (t < events@.len() && events@[t] is HalfClose ==> (r matches
                    SessionOutcome::Response(resp) && resp.predictions@.len() == t && (forall|
                        j: int,
                    |
                        0 <= j < t ==> prediction_of(
                            events@[j]->Message_0@,
                            resp.predictions@[j],
                        ))))
            }),
    ;
}

/// The prediction service itself: it accumulates one finished result per
/// inbound message and answers each session exactly as `run_session`
/// does.
pub struct FasttextServingService {
}

impl FasttextServing for FasttextServingService {
    fn predict(&mut self, events: &Vec<StreamEvent>) -> (r: SessionOutcome) {
        run_session(events)
    }
}

/// An in-process endpoint of the streaming prediction service: a handler
/// wrapped up for a client to drive whole calls against.
pub struct Endpoint<S> {
    pub handler: S,
}

/// Wraps a handler into a service endpoint.
pub fn create_fasttext_serving<S: FasttextServing>(handler: S) -> (srv: Endpoint<S>)
    ensures
        srv.handler == handler,
{
    Endpoint { handler }
}

/// A client of the streaming prediction service: it opens one
/// client-streaming call per `predict` invocation and drives it to its
/// end against an in-process endpoint.
pub struct FasttextServingClient<S> {
    pub endpoint: Endpoint<S>,
}

impl<S: FasttextServing> FasttextServingClient<S> {
    /// Connects a client to a service endpoint.
    pub fn new(endpoint: Endpoint<S>) -> (c: FasttextServingClient<S>)
        ensures
            c.endpoint.handler == endpoint.handler,
    {
        FasttextServingClient { endpoint }
    }

    /// Performs one whole client-streaming predict call: the session's
    /// events go to the service's handler, which must answer them by the
    /// session protocol.
    pub fn predict(&mut self, events: &Vec<StreamEvent>) -> (r: SessionOutcome)
        ensures
            ({
                let t = first_terminal(events@);
                &&& (t == events@.len() ==> r is Aborted)
                &&& (t < events@.len() && events@[t] is Disconnect ==> r is Aborted)
                &&& (t < events@.len() && events@[t] is Fault ==> r is Failed)
                &&& (t < events@.len() && events@[t] is HalfClose ==> (r matches
                    SessionOutcome::Response(resp) && resp.predictions@.len() == t && (forall|
                        j: int,
                    |
                        0 <= j < t ==> prediction_of(
                            events@[j]->Message_0@,
                            resp.predictions@[j],
                        ))))
            }),
    {
        self.endpoint.handler.predict(events)
    }
}

} // verus!
