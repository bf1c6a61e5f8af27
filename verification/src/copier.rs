//! The stream copier: moves an inbound byte stream into a [`ByteSink`] one
//! chunk at a time, so that memory stays bounded by the size of a single
//! chunk however large the whole transfer is.
//!
//! The copier itself holds nothing but a running byte count: a caller pulls
//! one chunk from its source, pushes it through [`StreamCopier::push_chunk`],
//! and only then pulls the next (back-pressure). [`copy_all`] drives a whole
//! already-framed sequence of chunks the same way.

use vstd::prelude::*;
use crate::errors::UploadError;
use crate::sink::{ByteSink, SinkStatus};

verus! {

/// All the chunks of a stream, laid end to end.
pub open spec fn concat_chunks(chunks: Seq<Seq<u8>>) -> Seq<u8>
    decreases chunks.len(),
{
    if chunks.len() == 0 {
        Seq::empty()
    } else {
        concat_chunks(chunks.drop_last()) + chunks.last()
    }
}

/// Drives one transfer. Its whole state is the count of bytes written so
/// far: it never buffers more than the one chunk a caller hands it.
pub struct StreamCopier {
    written: u64,
}

impl StreamCopier {
    /// How many bytes this copier has pushed into its sink.
    pub closed spec fn count(&self) -> u64 {
        self.written
    }

    /// A copier that has copied nothing yet.
    pub fn new() -> (c: StreamCopier)
        ensures
            c.count() == 0,
    {
        StreamCopier { written: 0 }
    }

    /// The running byte count.
    pub fn written(&self) -> (r: u64)
        ensures
            r == self.count(),
    {
        self.written
    }

    /// Push one chunk into the sink. On a failed write the sink is aborted
    /// before the error is propagated, so no open handle leaks.
    pub fn push_chunk<S: ByteSink>(&mut self, sink: &mut S, chunk: &[u8]) -> (r: Result<
        (),
        UploadError,
    >)
        requires
            old(sink).status() == SinkStatus::Open,
            old(self).count() + chunk@.len() <= u64::MAX,
        ensures
            final(sink).dest() == old(sink).dest(),
            r is Ok <==> old(sink).write_ok(chunk@),
            r is Ok ==> final(sink).status() == SinkStatus::Open && final(sink).data() == old(
                sink,
            ).data() + chunk@ && final(self).count() == old(self).count() + chunk@.len(),
            r is Ok ==> ((forall|c: Seq<u8>| old(sink).write_ok(c)) ==> (forall|c: Seq<u8>|
                final(sink).write_ok(c))),
            r is Ok ==> final(sink).finalize_ok() == old(sink).finalize_ok(),
            r is Err ==> final(sink).status() == SinkStatus::Aborted && final(sink).data()
                == Seq::<u8>::empty() && final(self).count() == old(self).count() && r == Err::<
                (),
                UploadError,
            >(UploadError::Io),
    {
        match sink.write(chunk) {
            Ok(()) => {
                self.written = self.written + (chunk.len() as u64);
                Ok(())
            },
            Err(e) => {
                sink.abort();
                Err(e)
            },
        }
    }

    /// End the transfer: finalize the sink and return the total byte count.
    /// If finalization fails, the sink has already been released and the
    /// failure is propagated.
    pub fn finish<S: ByteSink>(self, sink: &mut S) -> (r: Result<u64, UploadError>)
        requires
            old(sink).status() == SinkStatus::Open,
        ensures
            final(sink).dest() == old(sink).dest(),
            r is Ok <==> old(sink).finalize_ok(),
            r is Ok ==> final(sink).status() == SinkStatus::Finalized && final(sink).data() == old(
                sink,
            ).data() && r == Ok::<u64, UploadError>(self.count()),
            r is Err ==> final(sink).status() == SinkStatus::Aborted && final(sink).data()
                == Seq::<u8>::empty() && r == Err::<u64, UploadError>(UploadError::Io),
    {
        match sink.finalize() {
            Ok(()) => Ok(self.written),
            Err(e) => Err(e),
        }
    }

    /// End the transfer on a source failure: abort the sink so no handle or
    /// partial destination leaks.
    pub fn fail<S: ByteSink>(self, sink: &mut S)
        requires
            old(sink).status() == SinkStatus::Open,
        ensures
            final(sink).dest() == old(sink).dest(),
            final(sink).status() == SinkStatus::Aborted,
            final(sink).data() == Seq::<u8>::empty(),
    {
        sink.abort();
    }
}

/// Copy an already-framed stream of chunks into `sink`, one chunk at a time,
/// and finalize it. On success the sink holds exactly the chunks laid end to
/// end and the total byte count is returned; on any write or finalize
/// failure the sink is aborted and the failure propagated.
pub fn copy_all<S: ByteSink>(chunks: &Vec<Vec<u8>>, sink: &mut S) -> (r: Result<u64, UploadError>)
    requires
        old(sink).status() == SinkStatus::Open,
        old(sink).data() == Seq::<u8>::empty(),
        concat_chunks(chunks@.map_values(|c: Vec<u8>| c@)).len() <= u64::MAX,
    ensures
        final(sink).dest() == old(sink).dest(),
        ((forall|c: Seq<u8>| old(sink).write_ok(c)) && old(sink).finalize_ok()) ==> r is Ok,
        r is Ok ==> final(sink).status() == SinkStatus::Finalized && final(sink).data()
            == concat_chunks(chunks@.map_values(|c: Vec<u8>| c@)) && r == Ok::<u64, UploadError>(
            final(sink).data().len() as u64,
        ),
        r is Err ==> final(sink).status() == SinkStatus::Aborted && final(sink).data()
            == Seq::<u8>::empty() && r == Err::<u64, UploadError>(UploadError::Io),
{
    let ghost all = chunks@.map_values(|c: Vec<u8>| c@);
    let mut copier = StreamCopier::new();
    let mut i: usize = 0;
    while i < chunks.len()
        invariant
            0 <= i <= chunks@.len(),
            all == chunks@.map_values(|c: Vec<u8>| c@),
            concat_chunks(all).len() <= u64::MAX,
            sink.status() == SinkStatus::Open,
            sink.dest() == old(sink).dest(),
            sink.data() == concat_chunks(all.subrange(0, i as int)),
            copier.count() == sink.data().len(),
            ((forall|c: Seq<u8>| old(sink).write_ok(c)) && old(sink).finalize_ok()) ==> ((forall|
                c: Seq<u8>,
            | sink.write_ok(c)) && sink.finalize_ok()),
        decreases chunks@.len() - i,
    {
        proof {
            lemma_concat_chunks_prefix(all, i as int + 1);
            assert(all.subrange(0, i as int + 1).drop_last() =~= all.subrange(0, i as int));
            assert(all.subrange(0, i as int + 1).last() == all[i as int]);
            assert(concat_chunks(all.subrange(0, i as int + 1)) == concat_chunks(
                all.subrange(0, i as int),
            ) + all[i as int]);
        }
        let chunk = &chunks[i];
        match copier.push_chunk(sink, chunk.as_slice()) {
            Ok(()) => {
                i = i + 1;
            },
            Err(e) => {
                return Err(e);
            },
        }
    }
    proof {
        assert(all.subrange(0, all.len() as int) =~= all);
    }
    copier.finish(sink)
}

/// A payload streamed as a single part arrives whole: the chunk stream
/// holding just `b` lays out to exactly `b`, so by [`copy_all`]'s contract a
/// single-part transfer ends in a finalized destination holding exactly the
/// input bytes.
pub proof fn lemma_single_chunk_stream(b: Seq<u8>)
    ensures
        concat_chunks(seq![b]) == b,
{
    assert(seq![b].drop_last() =~= Seq::<Seq<u8>>::empty());
    assert(concat_chunks(Seq::<Seq<u8>>::empty()) == Seq::<u8>::empty());
    assert(seq![b].last() == b);
    assert(concat_chunks(seq![b]) == Seq::<u8>::empty() + b);
    assert(Seq::<u8>::empty() + b =~= b);
}

/// Laying a prefix of the chunks end to end gives a prefix of the whole:
/// its length never exceeds the length of the full concatenation.
pub proof fn lemma_concat_chunks_prefix(chunks: Seq<Seq<u8>>, i: int)
    requires
        0 <= i <= chunks.len(),
    ensures
        concat_chunks(chunks.subrange(0, i)) == concat_chunks(chunks).subrange(
            0,
            concat_chunks(chunks.subrange(0, i)).len() as int,
        ),
        concat_chunks(chunks.subrange(0, i)).len() <= concat_chunks(chunks).len(),
    decreases chunks.len() - i,
{
    if i == chunks.len() {
        assert(chunks.subrange(0, i) =~= chunks);
        assert(concat_chunks(chunks).subrange(0, concat_chunks(chunks).len() as int)
            =~= concat_chunks(chunks));
    } else {
        lemma_concat_chunks_prefix(chunks, i + 1);
        assert(chunks.subrange(0, i + 1).drop_last() =~= chunks.subrange(0, i));
        assert(chunks.subrange(0, i + 1).last() == chunks[i]);
        let pre = concat_chunks(chunks.subrange(0, i));
        let ext = concat_chunks(chunks.subrange(0, i + 1));
        assert(ext == pre + chunks[i]);
        assert(pre =~= ext.subrange(0, pre.len() as int));
        assert(pre =~= concat_chunks(chunks).subrange(0, pre.len() as int));
    }
}

} // verus!
