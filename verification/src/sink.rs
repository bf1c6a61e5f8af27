//! Byte sinks: destinations that accept sequential chunks of bytes and are
//! finalized on success or aborted on a failing path.

use vstd::prelude::*;
use crate::errors::UploadError;

verus! {

/// The lifecycle of one sink handle.
#[derive(PartialEq, Eq, Structural, Clone, Copy, Debug)]
pub enum SinkStatus {
    Open,
    Finalized,
    Aborted,
}

/// A destination that accepts sequential byte chunks.
///
/// A sink starts `Open`. Writes append to its contents while it stays open.
/// `finalize` flushes and releases the destination, after which the contents
/// are durable; `abort` is the best-effort cleanup run on failing paths, and
/// discards whatever was written.
pub trait ByteSink: Sized {
    /// The destination identifier this sink writes to.
    spec fn dest(&self) -> Seq<u8>;

    /// The bytes accepted so far.
    spec fn data(&self) -> Seq<u8>;

    /// Where the sink stands in its lifecycle.
    spec fn status(&self) -> SinkStatus;

    /// Whether a write of `chunk` will be accepted in the current state.
    spec fn write_ok(&self, chunk: Seq<u8>) -> bool;

    /// Whether finalization will succeed in the current state.
    spec fn finalize_ok(&self) -> bool;

    /// Append one chunk. On failure the destination keeps its previous
    /// contents and stays open, so the caller can still abort it.
    fn write(&mut self, chunk: &[u8]) -> (r: Result<(), UploadError>)
        requires
            old(self).status() == SinkStatus::Open,
        ensures
            final(self).dest() == old(self).dest(),
            final(self).status() == SinkStatus::Open,
            r is Ok <==> old(self).write_ok(chunk@),
            r is Ok ==> final(self).data() == old(self).data() + chunk@,
            r is Ok ==> ((forall|c: Seq<u8>| old(self).write_ok(c)) ==> (forall|c: Seq<u8>|
                final(self).write_ok(c))),
            r is Ok ==> final(self).finalize_ok() == old(self).finalize_ok(),
            r is Err ==> final(self).data() == old(self).data() && r == Err::<
                (),
                UploadError,
            >(UploadError::Io),
    ;

    /// Flush and release the destination, keeping its contents. On failure
    /// the destination is released anyway, discarding the contents.
    fn finalize(&mut self) -> (r: Result<(), UploadError>)
        requires
            old(self).status() == SinkStatus::Open,
        ensures
            final(self).dest() == old(self).dest(),
            r is Ok <==> old(self).finalize_ok(),
            r is Ok ==> final(self).status() == SinkStatus::Finalized && final(self).data()
                == old(self).data(),
            r is Err ==> final(self).status() == SinkStatus::Aborted && final(self).data()
                == Seq::<u8>::empty() && r == Err::<(), UploadError>(UploadError::Io),
    ;

    /// Best-effort cleanup on an already-failing path: release the
    /// destination and discard whatever was written. Infallible for the
    /// caller.
    fn abort(&mut self)
        requires
            old(self).status() == SinkStatus::Open,
        ensures
            final(self).dest() == old(self).dest(),
            final(self).status() == SinkStatus::Aborted,
            final(self).data() == Seq::<u8>::empty(),
    ;
}

/// An in-memory sink: the simplest destination backend, also the model that
/// tests inspect. An optional capacity stands for a destination that can run
/// full; a write that would exceed it fails as a full disk does.
#[derive(Debug)]
pub struct MemSink {
    dest: Vec<u8>,
    buf: Vec<u8>,
    status: SinkStatus,
    capacity: Option<u64>,
}

impl MemSink {
    /// Open an unbounded in-memory destination named `dest`.
    pub fn open(dest: Vec<u8>) -> (s: MemSink)
        ensures
            s.dest() == dest@,
            s.data() == Seq::<u8>::empty(),
            s.status() == SinkStatus::Open,
            forall|c: Seq<u8>| s.write_ok(c),
            s.finalize_ok(),
    {
        MemSink { dest, buf: Vec::new(), status: SinkStatus::Open, capacity: None }
    }

    /// Open an in-memory destination that accepts at most `capacity` bytes;
    /// a write past that bound fails the way a full disk does.
    pub fn open_bounded(dest: Vec<u8>, capacity: u64) -> (s: MemSink)
        ensures
            s.dest() == dest@,
            s.data() == Seq::<u8>::empty(),
            s.status() == SinkStatus::Open,
            forall|c: Seq<u8>| s.write_ok(c) <==> c.len() <= capacity,
            s.finalize_ok(),
    {
        MemSink { dest, buf: Vec::new(), status: SinkStatus::Open, capacity: Some(capacity) }
    }

    /// The accepted bytes, for inspection once the transfer is over.
    pub fn contents(&self) -> (r: &Vec<u8>)
        ensures
            r@ == self.data(),
    {
        &self.buf
    }

    /// The destination identifier, for inspection.
    pub fn destination(&self) -> (r: &Vec<u8>)
        ensures
            r@ == self.dest(),
    {
        &self.dest
    }

    /// Whether the sink was finalized.
    pub fn is_finalized(&self) -> (r: bool)
        ensures
            r <==> self.status() == SinkStatus::Finalized,
    {
        self.status == SinkStatus::Finalized
    }
}

impl ByteSink for MemSink {
    closed spec fn dest(&self) -> Seq<u8> {
        self.dest@
    }

    closed spec fn data(&self) -> Seq<u8> {
        self.buf@
    }

    closed spec fn status(&self) -> SinkStatus {
        self.status
    }

    closed spec fn write_ok(&self, chunk: Seq<u8>) -> bool {
        match self.capacity {
            None => true,
            Some(c) => self.buf@.len() + chunk.len() <= c,
        }
    }

    closed spec fn finalize_ok(&self) -> bool {
        true
    }

    fn write(&mut self, chunk: &[u8]) -> (r: Result<(), UploadError>) {
        let fits: bool = match self.capacity {
            None => true,
            Some(c) => (self.buf.len() as u128) + (chunk.len() as u128) <= (c as u128),
        };
        if !fits {
            return Err(UploadError::Io);
        }
        let mut i: usize = 0;
        while i < chunk.len()
            invariant
                0 <= i <= chunk@.len(),
                self.buf@ == old(self).buf@ + chunk@.subrange(0, i as int),
                self.dest@ == old(self).dest@,
                self.status == old(self).status,
                self.capacity == old(self).capacity,
            decreases chunk@.len() - i,
        {
            let b = chunk[i];
            self.buf.push(b);
            proof {
                assert(chunk@.subrange(0, i as int + 1) == chunk@.subrange(0, i as int).push(
                    chunk@[i as int],
                ));
            }
            i = i + 1;
        }
        proof {
            assert(chunk@.subrange(0, chunk@.len() as int) == chunk@);
            if let Some(cap) = self.capacity {
                let w = Seq::<u8>::new((cap + 1) as nat, |j: int| 0u8);
                assert(!old(self).write_ok(w));
            }
        }
        Ok(())
    }

    fn finalize(&mut self) -> (r: Result<(), UploadError>) {
        self.status = SinkStatus::Finalized;
        Ok(())
    }

    fn abort(&mut self) {
        self.buf.clear();
        self.status = SinkStatus::Aborted;
    }
}

} // verus!
