use vstd::prelude::*;

use crate::decoder::{
    feed_spec, fresh_decoder, item_view, items_view, DecoderV, FrameDecoder, ItemV,
};
use crate::frames::{ChunkV, Fault, FaultV, StreamChunk};
use crate::message::MessageV;

verus! {

/// A gated request that the caller must send next.
#[derive(PartialEq, Eq, Structural, Debug, Clone, Copy)]
pub enum Request {
    /// The first request of a completion.
    Completion,
    /// A continuation of the cut-short message with this identifier.
    Continuation(i64),
}

/// Where a completion stands.
#[derive(PartialEq, Eq, Structural, Debug, Clone, Copy)]
pub enum Phase {
    /// Waiting for this request to be sent.
    Requesting(Request),
    /// Reading a response body.
    Streaming,
    /// The final message has been handed out.
    Complete,
    /// A fault has been handed out.
    Failed,
}

impl Request {
    /// The path that the proof of work for this request is scoped to.
    pub fn target_path(&self) -> (r: String)
        ensures
            r@ == match self {
                Request::Completion => "/api/v0/chat/completion"@,
                Request::Continuation(_) => "/api/v0/chat/continue"@,
            },
    {
        match self {
            Request::Completion => "/api/v0/chat/completion".to_owned(),
            Request::Continuation(_) => "/api/v0/chat/continue".to_owned(),
        }
    }
}

/// What one decoder item does to the completion: the next phase and what
/// the caller sees.
pub open spec fn route_one(item: ItemV) -> (Phase, Seq<ItemV>) {
    match item {
        Ok(ChunkV::Message(m)) => if m.status == Some("INCOMPLETE"@) {
            match m.message_id {
                Some(id) => (Phase::Requesting(Request::Continuation(id)), Seq::empty()),
                None => (Phase::Failed, seq![Err(FaultV::IncompleteResult)]),
            }
        } else {
            (Phase::Complete, seq![item])
        },
        Ok(_) => (Phase::Streaming, seq![item]),
        Err(_) => (Phase::Failed, seq![item]),
    }
}

/// Decoder items handled in order while streaming; after that, none count.
pub open spec fn route(ph: Phase, items: Seq<ItemV>) -> (Phase, Seq<ItemV>)
    decreases items.len(),
{
    if items.len() == 0 || ph != Phase::Streaming {
        (ph, Seq::empty())
    } else {
        let first = route_one(items[0]);
        let rest = route(first.0, items.drop_first());
        (rest.0, first.1 + rest.1)
    }
}

proof fn lemma_route_push(ph: Phase, items: Seq<ItemV>, x: ItemV)
    ensures
        route(ph, items.push(x)) == (
            route(route(ph, items).0, seq![x]).0,
            route(ph, items).1 + route(route(ph, items).0, seq![x]).1,
        ),
    decreases items.len(),
{
    if items.len() == 0 || ph != Phase::Streaming {
        if items.len() == 0 {
            assert(items.push(x) =~= seq![x]);
            assert(Seq::<ItemV>::empty() + route(ph, seq![x]).1 =~= route(ph, seq![x]).1);
        } else {
            assert(route(ph, seq![x]) == (ph, Seq::<ItemV>::empty()));
            assert(Seq::<ItemV>::empty() + Seq::<ItemV>::empty() =~= Seq::<ItemV>::empty());
        }
    } else {
        let first = route_one(items[0]);
        assert(items.push(x).drop_first() =~= items.drop_first().push(x));
        assert(items.push(x)[0] == items[0]);
        lemma_route_push(first.0, items.drop_first(), x);
        let a = route(first.0, items.drop_first());
        let b = route(a.0, seq![x]);
        assert(first.1 + (a.1 + b.1) =~= (first.1 + a.1) + b.1);
    }
}

proof fn lemma_route_concat(ph: Phase, a: Seq<ItemV>, b: Seq<ItemV>)
    ensures
        route(ph, a + b) == (
            route(route(ph, a).0, b).0,
            route(ph, a).1 + route(route(ph, a).0, b).1,
        ),
    decreases a.len(),
{
    if a.len() == 0 {
        assert(a + b =~= b);
        assert(Seq::<ItemV>::empty() + route(ph, b).1 =~= route(ph, b).1);
    } else if ph != Phase::Streaming {
        assert(Seq::<ItemV>::empty() + Seq::<ItemV>::empty() =~= Seq::<ItemV>::empty());
    } else {
        let first = route_one(a[0]);
        assert((a + b).drop_first() =~= a.drop_first() + b);
        assert((a + b)[0] == a[0]);
        lemma_route_concat(first.0, a.drop_first(), b);
        let x = route(first.0, a.drop_first());
        let y = route(x.0, b);
        assert(first.1 + (x.1 + y.1) =~= (first.1 + x.1) + y.1);
    }
}

/// A piece of answer or reasoning text.
pub open spec fn is_delta(x: ItemV) -> bool {
    x matches Ok(ChunkV::Content(_)) || x matches Ok(ChunkV::Thinking(_))
}

proof fn lemma_route_deltas(ds: Seq<ItemV>)
    requires
        forall|i: int| 0 <= i < ds.len() ==> is_delta(#[trigger] ds[i]),
    ensures
        route(Phase::Streaming, ds) == (Phase::Streaming, ds),
    decreases ds.len(),
{
    if ds.len() > 0 {
        assert(is_delta(ds[0]));
        assert forall|i: int| 0 <= i < ds.drop_first().len() implies is_delta(
            #[trigger] ds.drop_first()[i],
        ) by {
            assert(ds.drop_first()[i] == ds[i + 1]);
        }
        lemma_route_deltas(ds.drop_first());
        assert(seq![ds[0]] + ds.drop_first() =~= ds);
    }
}

/// The routing of one stream whose items are deltas, then `last`, then
/// anything: the deltas are passed on in order, and `last` decides the rest.
proof fn lemma_route_ends(ds: Seq<ItemV>, last: ItemV, rest: Seq<ItemV>)
    requires
        forall|i: int| 0 <= i < ds.len() ==> is_delta(#[trigger] ds[i]),
        !is_delta(last),
    ensures
        route(Phase::Streaming, ds.push(last) + rest) == (
            route_one(last).0,
            ds + route_one(last).1,
        ),
{
    lemma_route_deltas(ds);
    lemma_route_concat(Phase::Streaming, ds, seq![last] + rest);
    assert(ds.push(last) + rest =~= ds + (seq![last] + rest));
    let r1 = route_one(last);
    assert((seq![last] + rest)[0] == last);
    assert((seq![last] + rest).drop_first() =~= rest);
    assert(r1.0 != Phase::Streaming);
    assert(route(r1.0, rest) == (r1.0, Seq::<ItemV>::empty()));
    assert(r1.1 + Seq::<ItemV>::empty() =~= r1.1);
}

/// A message cut short ends its stream with a request to continue it and
/// nothing passed on but the deltas before it; when the continuation's stream
/// then brings deltas and a finished message, the caller has seen the first
/// stream's deltas, the second's, and that message, in this order, and no
/// further request is due.
pub proof fn lemma_one_continuation(
    ds1: Seq<ItemV>,
    m1: MessageV,
    id: i64,
    rest1: Seq<ItemV>,
    ds2: Seq<ItemV>,
    m2: MessageV,
    rest2: Seq<ItemV>,
)
    requires
        forall|i: int| 0 <= i < ds1.len() ==> is_delta(#[trigger] ds1[i]),
        forall|i: int| 0 <= i < ds2.len() ==> is_delta(#[trigger] ds2[i]),
        m1.status == Some("INCOMPLETE"@),
        m1.message_id == Some(id),
        m2.status != Some("INCOMPLETE"@),
    ensures
        route(Phase::Streaming, ds1.push(Ok(ChunkV::Message(m1))) + rest1) == (
            Phase::Requesting(Request::Continuation(id)),
            ds1,
        ),
        route(Phase::Streaming, ds2.push(Ok(ChunkV::Message(m2))) + rest2) == (
            Phase::Complete,
            ds2.push(Ok(ChunkV::Message(m2))),
        ),
{
    lemma_route_ends(ds1, Ok(ChunkV::Message(m1)), rest1);
    assert(ds1 + Seq::<ItemV>::empty() =~= ds1);
    lemma_route_ends(ds2, Ok(ChunkV::Message(m2)), rest2);
    assert(ds2 + seq![Ok(ChunkV::Message(m2))] =~= ds2.push(Ok(ChunkV::Message(m2))));
}

/// A fault after any deltas ends the completion: the caller sees the deltas,
/// then the fault, and no message; no further request is due.
pub proof fn lemma_fault_ends_completion(ds: Seq<ItemV>, f: FaultV, rest: Seq<ItemV>)
    requires
        forall|i: int| 0 <= i < ds.len() ==> is_delta(#[trigger] ds[i]),
    ensures
        route(Phase::Streaming, ds.push(Err(f)) + rest) == (Phase::Failed, ds.push(Err(f))),
{
    lemma_route_ends(ds, Err(f), rest);
    assert(ds + seq![Err(f)] =~= ds.push(Err(f)));
}

/// Drives one completion across as many streams as the server needs.
///
/// The caller sends the request that [`Orchestrator::next_request`] names,
/// hands each block of the response body to [`Orchestrator::receive`], and
/// passes on what comes back. A message marked `INCOMPLETE` is not passed on:
/// it asks for a continuation request, whose stream starts afresh.
pub struct Orchestrator {
    phase: Phase,
    decoder: FrameDecoder,
}

impl Orchestrator {
    pub closed spec fn phase_spec(&self) -> Phase {
        self.phase
    }

    pub closed spec fn decoder_spec(&self) -> DecoderV {
        self.decoder@
    }

    /// A completion that has not sent its first request yet.
    pub fn new() -> (r: Self)
        ensures
            r.phase_spec() == Phase::Requesting(Request::Completion),
    {
        Orchestrator { phase: Phase::Requesting(Request::Completion), decoder: FrameDecoder::new() }
    }

    /// Where the completion stands.
    pub fn phase(&self) -> (r: Phase)
        ensures
            r == self.phase_spec(),
    {
        self.phase
    }

    /// The request to send now, if one is due.
    pub fn next_request(&self) -> (r: Option<Request>)
        ensures
            match self.phase_spec() {
                Phase::Requesting(q) => r == Some(q),
                _ => r is None,
            },
    {
        match self.phase {
            Phase::Requesting(q) => Some(q),
            _ => None,
        }
    }

    /// The due request went out: a new stream starts with a fresh decoder.
    pub fn request_sent(&mut self)
        requires
            old(self).phase_spec() is Requesting,
        ensures
            final(self).phase_spec() == Phase::Streaming,
            final(self).decoder_spec() == fresh_decoder(),
    {
        self.phase = Phase::Streaming;
        self.decoder = FrameDecoder::new();
    }

    /// The due request could not be made or sent; the completion fails with `f`.
    pub fn request_failed(&mut self, f: Fault) -> (r: Fault)
        ensures
            final(self).phase_spec() == Phase::Failed,
            r@ == f@,
    {
        self.phase = Phase::Failed;
        f
    }

    /// The body ended without `event: finish`.
    pub fn stream_closed(&mut self) -> (r: Option<Fault>)
        ensures
            old(self).phase_spec() == Phase::Streaming ==> (final(self).phase_spec() == Phase::Failed
                && (r matches Some(f) && f@ == FaultV::IncompleteResult)),
            old(self).phase_spec() != Phase::Streaming ==> final(self).phase_spec() == old(
                self,
            ).phase_spec() && r is None,
    {
        if self.phase == Phase::Streaming {
            self.phase = Phase::Failed;
            Some(Fault::IncompleteResult)
        } else {
            None
        }
    }

    /// Takes in the next block of the current body; returns what the caller sees.
    pub fn receive(&mut self, block: &[u8]) -> (r: Vec<Result<StreamChunk, Fault>>)
        requires
            old(self).phase_spec() == Phase::Streaming,
        ensures
            ({
                let fed = feed_spec(old(self).decoder_spec(), block@);
                let routed = route(Phase::Streaming, fed.1);
                final(self).decoder_spec() == fed.0 && final(self).phase_spec() == routed.0
                    && items_view(r@) == routed.1
            }),
    {
        let items = self.decoder.feed(block);
        let ghost fed_state = self.decoder@;
        let ghost all = items_view(items@);
        proof {
            assert(all.len() == items@.len());
        }
        let mut out: Vec<Result<StreamChunk, Fault>> = Vec::new();
        let mut rest = items;
        let mut i: usize = 0;
        let n = rest.len();
        proof {
            assert(all.take(0) =~= Seq::<ItemV>::empty());
            assert(items_view(out@) =~= Seq::<ItemV>::empty());
        }
        while i < n
            invariant
                n == all.len(),
                i <= n,
                self.decoder@ == fed_state,
                rest@.len() == n - i,
                forall|k: int| 0 <= k < n - i ==> #[trigger] item_view(rest@[k]) == all[i + k],
                route(Phase::Streaming, all.take(i as int)) == (self.phase, items_view(out@)),
            decreases n - i,
        {
            let item = rest.remove(0);
            let ghost x = all[i as int];
            proof {
                assert(item_view(item) == x);
                assert(all.take(i + 1) =~= all.take(i as int).push(x));
                lemma_route_push(Phase::Streaming, all.take(i as int), x);
            }
            if self.phase == Phase::Streaming {
                let ghost before = items_view(out@);
                let ghost one = seq![x];
                proof {
                    assert(one.drop_first() =~= Seq::<ItemV>::empty());
                    assert(one[0] == x);
                    let ro = route_one(x);
                    assert(route(ro.0, one.drop_first()) == (ro.0, Seq::<ItemV>::empty()));
                    assert(ro.1 + Seq::<ItemV>::empty() =~= ro.1);
                    assert(route(Phase::Streaming, one) == ro);
                }
                match item {
                    Ok(StreamChunk::Message(m)) => {
                        if m.is_incomplete() {
                            match m.message_id {
                                Some(id) => {
                                    self.phase = Phase::Requesting(Request::Continuation(id));
                                    proof {
                                        assert(items_view(out@) =~= before + Seq::<ItemV>::empty());
                                    }
                                },
                                None => {
                                    self.phase = Phase::Failed;
                                    out.push(Err(Fault::IncompleteResult));
                                    proof {
                                        assert(items_view(out@) =~= before + seq![Err(FaultV::IncompleteResult)]);
                                    }
                                },
                            }
                        } else {
                            self.phase = Phase::Complete;
                            out.push(Ok(StreamChunk::Message(m)));
                            proof {
                                assert(items_view(out@) =~= before + seq![x]);
                            }
                        }
                    },
                    Ok(c) => {
                        out.push(Ok(c));
                        proof {
                            assert(items_view(out@) =~= before + seq![x]);
                        }
                    },
                    Err(f) => {
                        self.phase = Phase::Failed;
                        out.push(Err(f));
                        proof {
                            assert(items_view(out@) =~= before + seq![x]);
                        }
                    },
                }
            } else {
                proof {
                    assert(route(self.phase, seq![x]) == (self.phase, Seq::<ItemV>::empty()));
                    assert(items_view(out@) + Seq::<ItemV>::empty() =~= items_view(out@));
                }
            }
            i = i + 1;
        }
        proof {
            assert(all.take(n as int) =~= all);
        }
        out
    }
}

} // verus!
