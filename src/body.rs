use vstd::prelude::*;

verus! {

/// Chunk size of the buffered strategy unless another is chosen.
pub const DEFAULT_CHUNK_SIZE: usize = 8192;

/// A response body drained into memory and served back in chunks of at most a fixed size.
pub struct BufferedBody {
    data: Vec<u8>,
    pos: usize,
    chunk_size: usize,
}

/// Where the chunk that starts at `pos` ends.
pub open spec fn chunk_end(len: nat, pos: nat, size: nat) -> nat {
    if pos + size <= len {
        pos + size
    } else {
        len
    }
}

/// The chunks that the buffered strategy still has to serve from `pos` on.
pub open spec fn remaining_chunks(data: Seq<u8>, pos: nat, size: nat) -> Seq<Seq<u8>>
    decreases data.len() - pos,
{
    if size == 0 || pos >= data.len() {
        Seq::empty()
    } else {
        let end = chunk_end(data.len(), pos, size);
        seq![data.subrange(pos as int, end as int)] + remaining_chunks(data, end, size)
    }
}

/// All chunks joined end to end.
pub open spec fn joined(cs: Seq<Seq<u8>>) -> Seq<u8>
    decreases cs.len(),
{
    if cs.len() == 0 {
        Seq::empty()
    } else {
        cs[0] + joined(cs.drop_first())
    }
}

/// Served from any position, the buffered strategy's chunks join up to exactly the rest of the
/// body, and each holds at least one byte and at most the chunk size.
pub proof fn lemma_buffered_chunks_cover(data: Seq<u8>, pos: nat, size: nat)
    requires
        size > 0,
        pos <= data.len(),
    ensures
        joined(remaining_chunks(data, pos, size)) == data.subrange(pos as int, data.len() as int),
        forall|i: int|
            0 <= i < remaining_chunks(data, pos, size).len() ==> 0 < (#[trigger] remaining_chunks(
                data,
                pos,
                size,
            )[i]).len() <= size,
    decreases data.len() - pos,
{
    let cs = remaining_chunks(data, pos, size);
    if pos < data.len() {
        let end = chunk_end(data.len(), pos, size);
        lemma_buffered_chunks_cover(data, end, size);
        let rest = remaining_chunks(data, end, size);
        assert(cs.drop_first() =~= rest);
        assert(data.subrange(pos as int, end as int) + data.subrange(end as int, data.len() as int)
            =~= data.subrange(pos as int, data.len() as int));
        assert forall|i: int| 0 <= i < cs.len() implies 0 < (#[trigger] cs[i]).len() <= size by {
            if i > 0 {
                assert(cs[i] == rest[i - 1]);
            }
        }
    } else {
        assert(data.subrange(pos as int, data.len() as int) =~= Seq::<u8>::empty());
    }
}

impl BufferedBody {
    pub closed spec fn bytes(&self) -> Seq<u8> {
        self.data@
    }

    pub closed spec fn position(&self) -> nat {
        self.pos as nat
    }

    pub closed spec fn chunk_len(&self) -> nat {
        self.chunk_size as nat
    }

    /// The position lies within the bytes and the chunk size is positive.
    pub open spec fn wf(&self) -> bool {
        self.position() <= self.bytes().len() && self.chunk_len() > 0
    }

    /// A body that serves `data` in chunks of `DEFAULT_CHUNK_SIZE` bytes.
    pub fn new(data: Vec<u8>) -> (r: Self)
        ensures
            r.wf(),
            r.bytes() == data@,
            r.position() == 0,
            r.chunk_len() == DEFAULT_CHUNK_SIZE,
    {
        BufferedBody { data, pos: 0, chunk_size: DEFAULT_CHUNK_SIZE }
    }

    /// A body that serves `data` in chunks of `chunk_size` bytes.
    pub fn with_chunk_size(data: Vec<u8>, chunk_size: usize) -> (r: Self)
        requires
            chunk_size > 0,
        ensures
            r.wf(),
            r.bytes() == data@,
            r.position() == 0,
            r.chunk_len() == chunk_size,
    {
        BufferedBody { data, pos: 0, chunk_size }
    }

    /// Whether every byte has been served.
    pub fn is_finished(&self) -> (r: bool)
        requires
            self.wf(),
        ensures
            r == (self.position() == self.bytes().len()),
    {
        self.pos == self.data.len()
    }

    /// Serves the next chunk: the following `chunk_len()` bytes, or fewer at the end; `None`
    /// once the body is exhausted, and on every pull after that.
    pub fn next_chunk(&mut self) -> (r: Option<Vec<u8>>)
        requires
            old(self).wf(),
        ensures
            final(self).wf(),
            final(self).bytes() == old(self).bytes(),
            final(self).chunk_len() == old(self).chunk_len(),
            old(self).position() < old(self).bytes().len() ==> {
                let end = chunk_end(
                    old(self).bytes().len(),
                    old(self).position(),
                    old(self).chunk_len(),
                );
                &&& r matches Some(c) && c@ == old(self).bytes().subrange(
                    old(self).position() as int,
                    end as int,
                )
                &&& final(self).position() == end
            },
            old(self).position() == old(self).bytes().len() ==> r is None && final(self).position()
                == old(self).position(),
            old(self).position() < old(self).bytes().len() ==> remaining_chunks(
                final(self).bytes(),
                final(self).position(),
                final(self).chunk_len(),
            ) == remaining_chunks(
                old(self).bytes(),
                old(self).position(),
                old(self).chunk_len(),
            ).drop_first(),
    {
        if self.pos == self.data.len() {
            return None;
        }
        let end: usize = if self.data.len() - self.pos >= self.chunk_size {
            self.pos + self.chunk_size
        } else {
            self.data.len()
        };
        let mut chunk: Vec<u8> = Vec::new();
        let mut i: usize = self.pos;
        while i < end
            invariant
                self.pos <= i <= end <= self.data@.len(),
                chunk@ == self.data@.subrange(self.pos as int, i as int),
            decreases end - i,
        {
            chunk.push(self.data[i]);
            proof {
                assert(chunk@ =~= self.data@.subrange(self.pos as int, i + 1));
            }
            i += 1;
        }
        self.pos = end;
        proof {
            let rc = remaining_chunks(old(self).data@, old(self).pos as nat, old(self).chunk_size as nat);
            assert(rc.drop_first() =~= remaining_chunks(self.data@, end as nat, self.chunk_size as nat));
        }
        Some(chunk)
    }
}

/// One event from the producer of a response body's frames.
pub enum FrameEvent {
    /// A data frame with its bytes, which may be none.
    Data(Vec<u8>),
    /// A frame that carries no data, such as trailers.
    NonData,
    /// The producer has no more frames.
    Exhausted,
    /// Reading the next frame failed.
    Failed,
}

/// What one frame means for the pull in progress.
pub enum PullStep {
    /// Hand this chunk to the host.
    Chunk(Vec<u8>),
    /// Nothing to hand over: read the next frame.
    Skip,
    /// The body is over.
    EndOfStream,
    /// The body could not be read; the iteration ends.
    ReadFailed,
}

/// `r` is what a frame `ev` gives when the stream is `done` or not, and `after` says whether
/// the stream is over afterwards.
pub open spec fn frame_step(done: bool, ev: FrameEvent, r: PullStep, after: bool) -> bool {
    if done {
        r is EndOfStream && after
    } else {
        match ev {
            FrameEvent::Data(b) => if b@.len() > 0 {
                r matches PullStep::Chunk(c) && c@ == b@ && !after
            } else {
                r is Skip && !after
            },
            FrameEvent::NonData => r is Skip && !after,
            FrameEvent::Exhausted => r is EndOfStream && after,
            FrameEvent::Failed => r is ReadFailed && after,
        }
    }
}

/// The chunks that a frame sequence holds for the host: the non-empty data frames, in order,
/// up to the end of the stream or the first failure.
pub open spec fn delivered(evs: Seq<FrameEvent>) -> Seq<Seq<u8>>
    decreases evs.len(),
{
    if evs.len() == 0 {
        Seq::empty()
    } else {
        match evs[0] {
            FrameEvent::Data(b) => if b@.len() > 0 {
                seq![b@] + delivered(evs.drop_first())
            } else {
                delivered(evs.drop_first())
            },
            FrameEvent::NonData => delivered(evs.drop_first()),
            _ => Seq::empty(),
        }
    }
}

/// The chunks among a sequence of pull steps, in order.
pub open spec fn chunks_of(rs: Seq<PullStep>) -> Seq<Seq<u8>>
    decreases rs.len(),
{
    if rs.len() == 0 {
        Seq::empty()
    } else {
        match rs[0] {
            PullStep::Chunk(c) => seq![c@] + chunks_of(rs.drop_first()),
            _ => chunks_of(rs.drop_first()),
        }
    }
}

/// `rs` is what a live body that starts out `dones[0]` makes of the frames `evs`, one step per
/// frame, passing through the states `dones`.
pub open spec fn replayed(evs: Seq<FrameEvent>, rs: Seq<PullStep>, dones: Seq<bool>) -> bool {
    &&& rs.len() == evs.len()
    &&& dones.len() == evs.len() + 1
    &&& forall|i: int| 0 <= i < evs.len() ==> frame_step(dones[i], #[trigger] evs[i], rs[i], dones[i + 1])
}

/// The pull state of a body read live, frame by frame.
pub struct LiveBody {
    finished: bool,
}

impl LiveBody {
    pub closed spec fn done(&self) -> bool {
        self.finished
    }

    /// A body that has not ended yet.
    pub fn new() -> (r: Self)
        ensures
            !r.done(),
    {
        LiveBody { finished: false }
    }

    /// Whether the body has ended; no frame is to be read then.
    pub fn is_finished(&self) -> (r: bool)
        ensures
            r == self.done(),
    {
        self.finished
    }

    /// Decides what one frame means: a non-empty data frame is a chunk for the host, an empty
    /// or non-data frame is skipped, the end of the frames or a failure ends the body, and
    /// once the body has ended every pull is the end of the stream.
    pub fn on_frame(&mut self, ev: FrameEvent) -> (r: PullStep)
        ensures
            frame_step(old(self).done(), ev, r, final(self).done()),
    {
        if self.finished {
            return PullStep::EndOfStream;
        }
        match ev {
            FrameEvent::Data(b) => if b.len() > 0 {
                PullStep::Chunk(b)
            } else {
                PullStep::Skip
            },
            FrameEvent::NonData => PullStep::Skip,
            FrameEvent::Exhausted => {
                self.finished = true;
                PullStep::EndOfStream
            },
            FrameEvent::Failed => {
                self.finished = true;
                PullStep::ReadFailed
            },
        }
    }
}

proof fn lemma_replay_tail(evs: Seq<FrameEvent>, rs: Seq<PullStep>, dones: Seq<bool>)
    requires
        replayed(evs, rs, dones),
        evs.len() > 0,
    ensures
        replayed(evs.drop_first(), rs.drop_first(), dones.drop_first()),
        frame_step(dones[0], evs[0], rs[0], dones[1]),
{
    assert(frame_step(dones[0], evs[0], rs[0], dones[1]));
    assert forall|i: int| 0 <= i < evs.drop_first().len() implies frame_step(
        dones.drop_first()[i],
        #[trigger] evs.drop_first()[i],
        rs.drop_first()[i],
        dones.drop_first()[i + 1],
    ) by {
        assert(frame_step(dones[i + 1], evs[i + 1], rs[i + 1], dones[i + 2]));
    }
}

/// Once the body has ended it stays ended: every later pull is the end of the stream and no
/// chunk follows.
pub proof fn lemma_end_is_final(evs: Seq<FrameEvent>, rs: Seq<PullStep>, dones: Seq<bool>)
    requires
        replayed(evs, rs, dones),
        dones[0],
    ensures
        forall|i: int| 0 <= i < rs.len() ==> (#[trigger] rs[i]) is EndOfStream && dones[i + 1],
        chunks_of(rs) == Seq::<Seq<u8>>::empty(),
    decreases evs.len(),
{
    if evs.len() > 0 {
        lemma_replay_tail(evs, rs, dones);
        lemma_end_is_final(evs.drop_first(), rs.drop_first(), dones.drop_first());
        assert forall|i: int| 0 <= i < rs.len() implies (#[trigger] rs[i]) is EndOfStream
            && dones[i + 1] by {
            if i > 0 {
                assert(rs[i] == rs.drop_first()[i - 1]);
                assert(dones[i + 1] == dones.drop_first()[i]);
            }
        }
    }
}

/// Pulled frame by frame from its start, a live body hands the host exactly the non-empty
/// data frames, in order, and never an empty chunk.
pub proof fn lemma_live_chunks(evs: Seq<FrameEvent>, rs: Seq<PullStep>, dones: Seq<bool>)
    requires
        replayed(evs, rs, dones),
        !dones[0],
    ensures
        chunks_of(rs) == delivered(evs),
        forall|i: int| 0 <= i < chunks_of(rs).len() ==> (#[trigger] chunks_of(rs)[i]).len() > 0,
    decreases evs.len(),
{
    if evs.len() > 0 {
        lemma_replay_tail(evs, rs, dones);
        let (e2, r2, d2) = (evs.drop_first(), rs.drop_first(), dones.drop_first());
        if dones[1] {
            lemma_end_is_final(e2, r2, d2);
        } else {
            lemma_live_chunks(e2, r2, d2);
        }
        let cs = chunks_of(rs);
        assert forall|i: int| 0 <= i < cs.len() implies (#[trigger] cs[i]).len() > 0 by {
            if rs[0] is Chunk && i > 0 {
                assert(cs[i] == chunks_of(r2)[i - 1]);
            }
        }
    }
}

} // verus!
