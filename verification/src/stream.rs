//! Delimiter framing: recovering record boundaries from a byte stream that
//! may arrive split or coalesced.

use crate::codec::{delimiter_free, framed, lemma_frame_ends_record, record_text, DELIMITER};
use vstd::prelude::*;

verus! {

/// The stream image of a sequence of records: each record followed by one
/// delimiter byte, in order.
pub open spec fn join_frames(frames: Seq<Seq<u8>>) -> Seq<u8>
    decreases frames.len(),
{
    if frames.len() == 0 {
        Seq::<u8>::empty()
    } else {
        join_frames(frames.drop_last()) + frames.last() + seq![DELIMITER]
    }
}

/// True when no record in `frames` holds a delimiter byte.
pub open spec fn frames_delimiter_free(frames: Seq<Seq<u8>>) -> bool {
    forall|k: int| 0 <= k < frames.len() ==> delimiter_free(#[trigger] frames[k])
}

/// The views of a list of byte vectors, in order.
pub open spec fn frames_view(frames: Seq<Vec<u8>>) -> Seq<Seq<u8>> {
    Seq::new(frames.len(), |k: int| frames[k]@)
}

/// True when `frames` and `rest` are a split of `stream` at its delimiters:
/// the frames are the delimited records in order, and `rest` is what follows
/// the last delimiter.
pub open spec fn splits(stream: Seq<u8>, frames: Seq<Seq<u8>>, rest: Seq<u8>) -> bool {
    &&& frames_delimiter_free(frames)
    &&& delimiter_free(rest)
    &&& join_frames(frames) + rest == stream
}

/// Joining distributes over concatenation of record lists.
pub proof fn lemma_join_concat(a: Seq<Seq<u8>>, b: Seq<Seq<u8>>)
    ensures
        join_frames(a + b) == join_frames(a) + join_frames(b),
    decreases b.len(),
{
    if b.len() == 0 {
        assert(a + b =~= a);
        assert(join_frames(a) + join_frames(b) =~= join_frames(a));
    } else {
        lemma_join_concat(a, b.drop_last());
        assert((a + b).drop_last() =~= a + b.drop_last());
        assert((a + b).last() == b.last());
        assert(join_frames(a + b) =~= join_frames(a) + join_frames(b));
    }
}

/// A stream has at most one split: the frames and the remainder are
/// determined by the bytes.
pub proof fn lemma_split_unique(
    stream: Seq<u8>,
    f1: Seq<Seq<u8>>,
    r1: Seq<u8>,
    f2: Seq<Seq<u8>>,
    r2: Seq<u8>,
)
    requires
        splits(stream, f1, r1),
        splits(stream, f2, r2),
    ensures
        f1 == f2,
        r1 == r2,
    decreases f1.len(),
{
    let j1 = join_frames(f1);
    let j2 = join_frames(f2);
    if f1.len() == 0 && f2.len() == 0 {
        assert(r1 =~= stream);
        assert(r2 =~= stream);
        assert(f1 =~= f2);
    } else if f1.len() == 0 {
        assert(r1 =~= stream);
        assert(stream[j2.len() - 1] == DELIMITER);
        assert(false);
    } else if f2.len() == 0 {
        assert(r2 =~= stream);
        assert(stream[j1.len() - 1] == DELIMITER);
        assert(false);
    } else {
        assert(stream[j1.len() - 1] == DELIMITER);
        assert(stream[j2.len() - 1] == DELIMITER);
        assert(stream.len() == (j1 + r1).len() == j1.len() + r1.len());
        assert(stream.len() == (j2 + r2).len() == j2.len() + r2.len());
        if j1.len() < j2.len() {
            assert((j1 + r1)[j2.len() - 1] == r1[j2.len() - 1 - j1.len()]);
            assert(false);
        }
        if j2.len() < j1.len() {
            assert((j2 + r2)[j1.len() - 1] == r2[j1.len() - 1 - j2.len()]);
            assert(false);
        }
        assert(r1 =~= stream.subrange(j1.len() as int, stream.len() as int));
        assert(r2 =~= stream.subrange(j2.len() as int, stream.len() as int));
        assert(j1 =~= stream.subrange(0, j1.len() as int));
        assert(j2 =~= stream.subrange(0, j2.len() as int));
        let body = j1.subrange(0, j1.len() - 1);
        assert(join_frames(f1.drop_last()) + f1.last() =~= body);
        assert(join_frames(f2.drop_last()) + f2.last() =~= body);
        lemma_split_unique(body, f1.drop_last(), f1.last(), f2.drop_last(), f2.last());
        assert(f1 =~= f1.drop_last().push(f1.last()));
        assert(f2 =~= f2.drop_last().push(f2.last()));
    }
}

/// One delimiter-free record followed by the delimiter splits into exactly
/// that record, with nothing left over.
pub proof fn lemma_single_frame(record: Seq<u8>, frames: Seq<Seq<u8>>, rest: Seq<u8>)
    requires
        delimiter_free(record),
        splits(record + seq![DELIMITER], frames, rest),
    ensures
        frames == seq![record],
        rest == Seq::<u8>::empty(),
{
    let one = seq![record];
    assert(one.drop_last() =~= Seq::<Seq<u8>>::empty());
    assert(join_frames(one.drop_last()) =~= Seq::<u8>::empty());
    assert(one.last() == record);
    assert(join_frames(one) =~= record + seq![DELIMITER]);
    assert(join_frames(one) + Seq::<u8>::empty() =~= record + seq![DELIMITER]);
    lemma_split_unique(record + seq![DELIMITER], frames, rest, one, Seq::<u8>::empty());
}

/// A frame that the encoder laid out reads back as exactly the record it
/// was laid out from: whatever splits the frame finds that one record and
/// leaves nothing over.
pub proof fn lemma_frame_round_trip(
    event_text: Seq<u8>,
    data_text: Seq<u8>,
    frames: Seq<Seq<u8>>,
    rest: Seq<u8>,
)
    requires
        framed(event_text, data_text) is Ok,
        splits(framed(event_text, data_text)->Ok_0, frames, rest),
    ensures
        frames == seq![record_text(event_text, data_text)],
        rest == Seq::<u8>::empty(),
{
    let record = record_text(event_text, data_text);
    lemma_frame_ends_record(event_text, data_text);
    lemma_single_frame(record, frames, rest);
}

/// How the stream is cut into chunks does not matter: splitting `a`, then
/// splitting what was left over followed by `b`, gives the split of `a + b`.
pub proof fn lemma_chunking(
    a: Seq<u8>,
    b: Seq<u8>,
    fa: Seq<Seq<u8>>,
    ra: Seq<u8>,
    fb: Seq<Seq<u8>>,
    rb: Seq<u8>,
)
    requires
        splits(a, fa, ra),
        splits(ra + b, fb, rb),
    ensures
        splits(a + b, fa + fb, rb),
{
    lemma_join_concat(fa, fb);
    assert(join_frames(fa + fb) + rb =~= a + b) by {
        assert(join_frames(fa) + (join_frames(fb) + rb) =~= join_frames(fa) + join_frames(fb) + rb);
        assert(join_frames(fa) + (ra + b) =~= (join_frames(fa) + ra) + b);
    }
}

/// The receiving end of one stream: the bytes of the record in progress, and
/// whether the stream is still open.
pub struct FrameReader {
    pending: Vec<u8>,
    open: bool,
}

impl FrameReader {
    /// The bytes received since the last delimiter.
    pub closed spec fn pending(&self) -> Seq<u8> {
        self.pending@
    }

    /// Whether the stream is still open.
    pub closed spec fn is_open(&self) -> bool {
        self.open
    }

    /// The record in progress never holds a delimiter, and a closed reader
    /// holds nothing.
    pub closed spec fn wf(&self) -> bool {
        &&& delimiter_free(self.pending@)
        &&& !self.open ==> self.pending@.len() == 0
    }

    /// A reader for a stream on which nothing has arrived yet.
    pub fn new() -> (reader: FrameReader)
        ensures
            reader.wf(),
            reader.is_open(),
            reader.pending() == Seq::<u8>::empty(),
    {
        FrameReader { pending: Vec::new(), open: true }
    }

    /// Whether the stream is still open.
    pub fn open(&self) -> (open: bool)
        ensures
            open == self.is_open(),
    {
        self.open
    }

    /// Takes the next chunk of the stream and returns the records it
    /// completes, in arrival order.
    ///
    /// On an open reader the returned records and the new record in progress
    /// are the split of the old record in progress followed by `chunk`. A
    /// closed reader returns nothing and keeps nothing.
    pub fn feed(&mut self, chunk: &[u8]) -> (frames: Vec<Vec<u8>>)
        requires
            old(self).wf(),
        ensures
            final(self).wf(),
            final(self).is_open() == old(self).is_open(),
            old(self).is_open() ==> splits(
                old(self).pending() + chunk@,
                frames_view(frames@),
                final(self).pending(),
            ),
            !old(self).is_open() ==> frames@.len() == 0 && final(self).pending() == old(
                self,
            ).pending(),
    {
        let mut frames: Vec<Vec<u8>> = Vec::new();
        if !self.open {
            return frames;
        }
        let ghost before = self.pending@;
        let mut current: Vec<u8> = Vec::new();
        std::mem::swap(&mut current, &mut self.pending);
        assert(frames_view(frames@) =~= Seq::<Seq<u8>>::empty());
        assert(chunk@.subrange(0, 0) =~= Seq::<u8>::empty());
        assert(join_frames(frames_view(frames@)) + current@ =~= before + chunk@.subrange(0, 0));
        let mut i: usize = 0;
        while i < chunk.len()
            invariant
                i <= chunk.len(),
                delimiter_free(current@),
                frames_delimiter_free(frames_view(frames@)),
                join_frames(frames_view(frames@)) + current@ == before + chunk@.subrange(0, i as int),
            decreases chunk.len() - i,
        {
            let byte = chunk[i];
            let ghost done = frames_view(frames@);
            let ghost partial = current@;
            assert(chunk@.subrange(0, i + 1) =~= chunk@.subrange(0, i as int).push(byte));
            if byte == DELIMITER {
                frames.push(current);
                current = Vec::new();
                assert(frames_view(frames@) =~= done.push(partial));
                assert(done.push(partial).drop_last() =~= done);
                assert(join_frames(frames_view(frames@)) + current@ =~= (join_frames(done)
                    + partial).push(byte));
            } else {
                current.push(byte);
                assert(join_frames(done) + current@ =~= (join_frames(done) + partial).push(byte));
            }
            i += 1;
        }
        assert(chunk@.subrange(0, chunk@.len() as int) =~= chunk@);
        self.pending = current;
        frames
    }

    /// Records that the stream has ended. Returns `true` exactly when the
    /// reader was open, so the end of one stream is reported once however
    /// often this is called. The unfinished record, if any, is discarded.
    pub fn close(&mut self) -> (was_open: bool)
        requires
            old(self).wf(),
        ensures
            final(self).wf(),
            !final(self).is_open(),
            final(self).pending() == Seq::<u8>::empty(),
            was_open == old(self).is_open(),
    {
        let was_open = self.open;
        self.open = false;
        self.pending = Vec::new();
        was_open
    }
}

} // verus!
