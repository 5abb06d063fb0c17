//! Reassembly of frames from a byte stream that arrives in chunks of any
//! size, and a first-in first-out queue of the decoded results.
use crate::bytes::{be_u32_of, read_be_u32};
use crate::errors::{ErrorKind, WeechatParseError};
use crate::frame::{spec_message, MessageView, WeechatMessage};
use std::collections::VecDeque;
use vstd::prelude::*;

verus! {

/// The mathematical value of a decoding result.
pub open spec fn result_view(r: Result<WeechatMessage, WeechatParseError>) -> Result<
    MessageView,
    ErrorKind,
> {
    match r {
        Ok(m) => Ok(m.view()),
        Err(e) => Err(e.spec_kind()),
    }
}

pub open spec fn results_view(s: Seq<Result<WeechatMessage, WeechatParseError>>) -> Seq<
    Result<MessageView, ErrorKind>,
> {
    s.map_values(|r: Result<WeechatMessage, WeechatParseError>| result_view(r))
}

/// Whether `b` starts with a whole frame: a length field and as many bytes
/// after it as it gives.
pub open spec fn has_frame(b: Seq<u8>) -> bool {
    b.len() >= 4 && b.len() >= 4 + be_u32_of(b)
}

/// Cuts every whole frame off the front of `b` in order: the result of
/// decoding each, and the bytes left over.
pub open spec fn spec_stream(b: Seq<u8>) -> (Seq<Result<MessageView, ErrorKind>>, Seq<u8>)
    decreases b.len(),
{
    if !has_frame(b) {
        (Seq::empty(), b)
    } else {
        let n = 4 + be_u32_of(b);
        let (out, rest) = spec_stream(b.skip(n));
        (seq![spec_message(b.take(n))] + out, rest)
    }
}

/// The results and the leftover bytes after `chunks` arrive, one `push`
/// each, at a decoder that holds `pending`.
pub open spec fn feed(pending: Seq<u8>, chunks: Seq<Seq<u8>>) -> (
    Seq<Result<MessageView, ErrorKind>>,
    Seq<u8>,
)
    decreases chunks.len(),
{
    if chunks.len() == 0 {
        (Seq::empty(), pending)
    } else {
        let (out1, p1) = feed(pending, chunks.drop_last());
        let (out2, p2) = spec_stream(p1 + chunks.last());
        (out1 + out2, p2)
    }
}

/// The chunks laid end to end.
pub open spec fn concat_chunks(chunks: Seq<Seq<u8>>) -> Seq<u8>
    decreases chunks.len(),
{
    if chunks.len() == 0 {
        Seq::empty()
    } else {
        concat_chunks(chunks.drop_last()) + chunks.last()
    }
}

/// Cutting frames from `x + y` cuts the frames of `x` first, then goes on
/// from what `x` left over, followed by `y`.
pub proof fn lemma_stream_append(x: Seq<u8>, y: Seq<u8>)
    ensures
        ({
            let (o1, p1) = spec_stream(x);
            let (o2, p2) = spec_stream(p1 + y);
            spec_stream(x + y) == (o1 + o2, p2)
        }),
    decreases x.len(),
{
    if !has_frame(x) {
        assert(Seq::<Result<MessageView, ErrorKind>>::empty() + spec_stream(x + y).0
            =~= spec_stream(x + y).0);
    } else {
        let n = 4 + be_u32_of(x);
        assert((x + y).take(n) =~= x.take(n));
        assert((x + y).skip(n) =~= x.skip(n) + y);
        lemma_stream_append(x.skip(n), y);
        let (o1, p1) = spec_stream(x.skip(n));
        let (o2, p2) = spec_stream(p1 + y);
        let m = spec_message(x.take(n));
        assert(seq![m] + (o1 + o2) =~= (seq![m] + o1) + o2);
    }
}

/// Feeding chunks to a decoder with no whole frame pending cuts the same
/// frames as cutting them from the pending bytes and all chunks at once.
pub proof fn lemma_feed_is_stream(pending: Seq<u8>, chunks: Seq<Seq<u8>>)
    requires
        !has_frame(pending),
    ensures
        feed(pending, chunks) == spec_stream(pending + concat_chunks(chunks)),
    decreases chunks.len(),
{
    if chunks.len() == 0 {
        assert(pending + concat_chunks(chunks) =~= pending);
    } else {
        lemma_feed_is_stream(pending, chunks.drop_last());
        let x = pending + concat_chunks(chunks.drop_last());
        lemma_stream_append(x, chunks.last());
        assert(x + chunks.last() =~= pending + concat_chunks(chunks));
    }
}

/// Arrival granularity never changes the output: the chunks, pushed one by
/// one, give the same results in the same order, and leave the same bytes
/// pending, as all of their bytes pushed at once.
pub proof fn lemma_chunking_invariance(pending: Seq<u8>, chunks: Seq<Seq<u8>>)
    requires
        !has_frame(pending),
    ensures
        feed(pending, chunks) == feed(pending, seq![concat_chunks(chunks)]),
{
    let whole = seq![concat_chunks(chunks)];
    lemma_feed_is_stream(pending, chunks);
    lemma_feed_is_stream(pending, whole);
    assert(whole.drop_last() =~= Seq::<Seq<u8>>::empty());
    assert(concat_chunks(whole.drop_last()) == Seq::<u8>::empty());
    assert(Seq::<u8>::empty() + concat_chunks(chunks) =~= concat_chunks(chunks));
    assert(concat_chunks(whole) =~= concat_chunks(chunks));
}

/// Decodes a byte stream that arrives in chunks of any size. Bytes wait
/// until their frame is whole; each whole frame yields one result, in
/// order, and a frame that fails to decode does not disturb the next one.
pub struct StreamDecoder {
    pending: Vec<u8>,
    ready: VecDeque<Result<WeechatMessage, WeechatParseError>>,
}

impl StreamDecoder {
    /// The bytes that wait for the rest of their frame.
    pub closed spec fn pending_view(&self) -> Seq<u8> {
        self.pending@
    }

    /// The results not yet polled, oldest first.
    pub closed spec fn ready_view(&self) -> Seq<Result<MessageView, ErrorKind>> {
        results_view(self.ready@)
    }

    /// No whole frame waits among the pending bytes.
    pub open spec fn wf(&self) -> bool {
        !has_frame(self.pending_view())
    }

    pub fn new() -> (r: StreamDecoder)
        ensures
            r.wf(),
            r.pending_view() == Seq::<u8>::empty(),
            r.ready_view() == Seq::<Result<MessageView, ErrorKind>>::empty(),
    {
        let r = StreamDecoder { pending: Vec::new(), ready: VecDeque::new() };
        assert(r.ready_view() =~= Seq::<Result<MessageView, ErrorKind>>::empty());
        r
    }

    /// Appends `chunk` to the pending bytes, then decodes every frame that
    /// is now whole and queues its result.
    pub fn push(&mut self, chunk: &[u8])
        requires
            old(self).wf(),
        ensures
            final(self).wf(),
            ({
                let (out, rest) = spec_stream(old(self).pending_view() + chunk@);
                &&& final(self).ready_view() == old(self).ready_view() + out
                &&& final(self).pending_view() == rest
            }),
    {
        let ghost all = self.pending@ + chunk@;
        let ghost ready0 = self.ready_view();
        let ghost pending0 = self.pending@;
        let mut j: usize = 0;
        while j < chunk.len()
            invariant
                j <= chunk@.len(),
                self.pending@ == pending0 + chunk@.subrange(0, j as int),
                self.ready_view() == ready0,
                all == pending0 + chunk@,
            decreases chunk.len() - j,
        {
            self.pending.push(chunk[j]);
            j = j + 1;
            assert(self.pending@ =~= pending0 + chunk@.subrange(0, j as int));
        }
        assert(self.pending@ =~= all);
        let mut pos: usize = 0;
        let mut more = true;
        let ghost mut produced: Seq<Result<MessageView, ErrorKind>> = Seq::empty();
        assert(self.pending@.skip(0) =~= all);
        assert(produced + spec_stream(all).0 =~= spec_stream(all).0);
        assert(ready0 + produced =~= ready0);
        while more
            invariant
                pos <= self.pending@.len(),
                self.pending@ == all,
                spec_stream(all) == (
                    produced + spec_stream(all.skip(pos as int)).0,
                    spec_stream(all.skip(pos as int)).1,
                ),
                self.ready_view() == ready0 + produced,
                !more ==> !has_frame(all.skip(pos as int)),
            decreases all.len() - pos + (if more { 1int } else { 0int }),
        {
            let rest = &self.pending.as_slice()[pos..self.pending.len()];
            assert(rest@ =~= all.skip(pos as int));
            if rest.len() < 4 {
                more = false;
            } else {
                let length = read_be_u32(rest);
                if (rest.len() as u64) < 4 + length as u64 {
                    more = false;
                } else {
                    let n = 4 + length as usize;
                    let frame = &rest[0..n];
                    assert(frame@ =~= rest@.take(n as int));
                    let result = WeechatMessage::from_raw_message(frame);
                    let ghost before = self.ready@;
                    let ghost m = result_view(result);
                    self.ready.push_back(result);
                    proof {
                        assert(results_view(before.push(result)) =~= results_view(before).push(m));
                        assert(self.ready_view() =~= ready0 + produced.push(m));
                        assert(rest@.skip(n as int) =~= all.skip(pos + n));
                        let (o, _) = spec_stream(all.skip(pos + n));
                        assert(produced + (seq![m] + o) =~= produced.push(m) + o);
                        produced = produced.push(m);
                    }
                    pos = pos + n;
                }
            }
        }
        assert(produced + Seq::<Result<MessageView, ErrorKind>>::empty() =~= produced);
        if pos > 0 {
            let mut left: Vec<u8> = Vec::new();
            let mut k: usize = pos;
            while k < self.pending.len()
                invariant
                    pos <= k <= all.len(),
                    self.pending@ == all,
                    left@ == all.subrange(pos as int, k as int),
                decreases all.len() - k,
            {
                left.push(self.pending[k]);
                k = k + 1;
                assert(left@ =~= all.subrange(pos as int, k as int));
            }
            assert(left@ =~= all.skip(pos as int));
            self.pending = left;
        } else {
            assert(all.skip(0) =~= all);
        }
    }

    /// Removes and returns the oldest queued result, if any.
    pub fn poll(&mut self) -> (r: Option<Result<WeechatMessage, WeechatParseError>>)
        requires
            old(self).wf(),
        ensures
            final(self).wf(),
            final(self).pending_view() == old(self).pending_view(),
            old(self).ready_view().len() == 0 ==> r is None && final(self).ready_view()
                == old(self).ready_view(),
            old(self).ready_view().len() > 0 ==> r is Some && result_view(r->Some_0)
                == old(self).ready_view()[0] && final(self).ready_view()
                == old(self).ready_view().drop_first(),
    {
        let r = self.ready.pop_front();
        assert(self.ready_view() =~= old(self).ready_view().drop_first() || r is None);
        r
    }
}

} // verus!
