//! The upload orchestrator: walks the parts of one multipart request in
//! order, validates and sanitizes each part's metadata, and drives the
//! stream copier into a fresh sink per part, failing the whole request on
//! the first bad part.

use vstd::prelude::*;
use crate::errors::UploadError;
use crate::sink::{ByteSink, MemSink, SinkStatus};
use crate::copier::{copy_all, concat_chunks};

verus! {

/// A client-supplied file name accepted as a destination identifier: it is
/// nonempty, holds no path separator and no NUL byte, and is not a dot or
/// dot-dot reference. Such a name is a single plain path component, so a
/// destination opened under the upload root stays under it.
pub open spec fn file_name_ok(name: Seq<u8>) -> bool {
    &&& name.len() > 0
    &&& forall|i: int|
        0 <= i < name.len() ==> ((#[trigger] name[i]) != 47 && name[i] != 92 && name[i] != 0)
    &&& name != seq![46u8]
    &&& name != seq![46u8, 46u8]
}

/// Derive the destination identifier from a client-declared file name. The
/// name is untrusted input: it is accepted, unchanged, exactly when
/// [`file_name_ok`] holds of it, and rejected otherwise — never passed
/// through with a separator or a parent-directory reference in it.
pub fn sanitize_file_name(name: &[u8]) -> (r: Result<Vec<u8>, UploadError>)
    ensures
        r is Ok <==> file_name_ok(name@),
        r matches Ok(v) ==> v@ == name@,
        r is Err ==> r == Err::<Vec<u8>, UploadError>(UploadError::InvalidFileName),
{
    if name.len() == 0 {
        return Err(UploadError::InvalidFileName);
    }
    let mut i: usize = 0;
    while i < name.len()
        invariant
            0 <= i <= name@.len(),
            forall|j: int| 0 <= j < i ==> ((#[trigger] name@[j]) != 47 && name@[j] != 92 && name@[j] != 0),
        decreases name@.len() - i,
    {
        let b = name[i];
        if b == 47 || b == 92 || b == 0 {
            return Err(UploadError::InvalidFileName);
        }
        i = i + 1;
    }
    if name.len() == 1 && name[0] == 46 {
        proof {
            assert(name@ =~= seq![46u8]);
        }
        return Err(UploadError::InvalidFileName);
    }
    if name.len() == 2 && name[0] == 46 && name[1] == 46 {
        proof {
            assert(name@ =~= seq![46u8, 46u8]);
        }
        return Err(UploadError::InvalidFileName);
    }
    Ok(vstd::slice::slice_to_vec(name))
}

/// A file name with a path separator in it, a parent-directory or
/// current-directory reference, or nothing at all is never accepted as a
/// destination identifier, so no write can land outside the upload root.
pub proof fn lemma_traversal_name_rejected(name: Seq<u8>)
    requires
        (exists|i: int| 0 <= i < name.len() && ((#[trigger] name[i]) == 47 || name[i] == 92))
            || name =~= seq![46u8, 46u8] || name =~= seq![46u8] || name.len() == 0,
    ensures
        !file_name_ok(name),
{
}

/// One part of a multipart request, as the decoder hands it over: the three
/// metadata attributes, each possibly missing, and the part's body chunks in
/// arrival order.
pub struct UploadPart {
    pub field_name: Option<Vec<u8>>,
    pub file_name: Option<Vec<u8>>,
    pub content_type: Option<Vec<u8>>,
    pub chunks: Vec<Vec<u8>>,
}

/// The body bytes of one part: its chunks laid end to end.
pub open spec fn part_bytes(p: UploadPart) -> Seq<u8> {
    concat_chunks(p.chunks@.map_values(|c: Vec<u8>| c@))
}

/// What planning one part yields: the sanitized destination identifier, or
/// the error that fails the request. Metadata is checked first, the file
/// name second.
pub open spec fn part_plan(p: UploadPart) -> Result<Seq<u8>, UploadError> {
    match (p.field_name, p.file_name, p.content_type) {
        (Some(_), Some(f), Some(_)) => if file_name_ok(f@) {
            Ok(f@)
        } else {
            Err(UploadError::InvalidFileName)
        },
        _ => Err(UploadError::MissingMetadata),
    }
}

/// The request-level outcome over a sequence of parts: `Ok` when every part
/// plans, otherwise the error of the first part that does not (fail fast).
pub open spec fn parts_outcome(parts: Seq<UploadPart>) -> Result<(), UploadError>
    decreases parts.len(),
{
    if parts.len() == 0 {
        Ok(())
    } else {
        match part_plan(parts[0]) {
            Ok(_) => parts_outcome(parts.subrange(1, parts.len() as int)),
            Err(e) => Err(e),
        }
    }
}

/// The outcome of one whole upload request: a body over the cap is rejected
/// before any part is looked at; otherwise the parts decide.
pub open spec fn upload_outcome(content_length: u64, parts: Seq<UploadPart>) -> Result<
    (),
    UploadError,
> {
    if content_length > crate::CAP_BYTES {
        Err(UploadError::TooLarge)
    } else {
        parts_outcome(parts)
    }
}

/// Validate one part's metadata and derive its destination: the part plan,
/// as executable code. Fails with `MissingMetadata` when an attribute is
/// absent, with `InvalidFileName` when sanitization rejects the name.
pub fn plan_part(p: &UploadPart) -> (r: Result<Vec<u8>, UploadError>)
    ensures
        r matches Ok(d) ==> part_plan(*p) == Ok::<Seq<u8>, UploadError>(d@),
        r matches Err(e) ==> part_plan(*p) == Err::<Seq<u8>, UploadError>(e),
{
    match (&p.field_name, &p.file_name, &p.content_type) {
        (Some(_), Some(f), Some(_)) => sanitize_file_name(f.as_slice()),
        _ => Err(UploadError::MissingMetadata),
    }
}

/// Serve one upload request against in-memory destinations: reject a body
/// over the cap before touching any part, then take the parts in order —
/// plan each one, open a sink for it only once the plan succeeds, stream
/// its chunks through a copier and finalize. The first failing part fails
/// the whole request, and no sink of a failed request is handed out.
pub fn handle_upload(content_length: u64, parts: &Vec<UploadPart>) -> (r: Result<
    Vec<MemSink>,
    UploadError,
>)
    requires
        forall|j: int| 0 <= j < parts@.len() ==> part_bytes(#[trigger] parts@[j]).len() <= u64::MAX,
    ensures
        r is Ok <==> upload_outcome(content_length, parts@) is Ok,
        r matches Err(e) ==> upload_outcome(content_length, parts@) == Err::<(), UploadError>(e),
        r matches Ok(sinks) ==> sinks@.len() == parts@.len() && forall|j: int|
            0 <= j < parts@.len() ==> {
                let s = #[trigger] sinks@[j];
                &&& s.status() == SinkStatus::Finalized
                &&& s.data() == part_bytes(parts@[j])
                &&& part_plan(parts@[j]) == Ok::<Seq<u8>, UploadError>(s.dest())
            },
{
    if !crate::cap_allows(content_length) {
        return Err(UploadError::TooLarge);
    }
    let mut sinks: Vec<MemSink> = Vec::new();
    let mut i: usize = 0;
    proof {
        assert(parts@.subrange(0, parts@.len() as int) =~= parts@);
    }
    while i < parts.len()
        invariant
            0 <= i <= parts@.len(),
            content_length <= crate::CAP_BYTES,
            forall|j: int| 0 <= j < parts@.len() ==> part_bytes(#[trigger] parts@[j]).len()
                <= u64::MAX,
            parts_outcome(parts@) == parts_outcome(parts@.subrange(i as int, parts@.len() as int)),
            sinks@.len() == i,
            forall|j: int| 0 <= j < i ==> {
                let s = #[trigger] sinks@[j];
                &&& s.status() == SinkStatus::Finalized
                &&& s.data() == part_bytes(parts@[j])
                &&& part_plan(parts@[j]) == Ok::<Seq<u8>, UploadError>(s.dest())
            },
        decreases parts@.len() - i,
    {
        let ghost rest = parts@.subrange(i as int, parts@.len() as int);
        proof {
            assert(rest[0] == parts@[i as int]);
            assert(rest.subrange(1, rest.len() as int) =~= parts@.subrange(
                i as int + 1,
                parts@.len() as int,
            ));
        }
        let part = &parts[i];
        let dest = match plan_part(part) {
            Ok(d) => d,
            Err(e) => {
                return Err(e);
            },
        };
        let mut sink = MemSink::open(dest);
        match copy_all(&part.chunks, &mut sink) {
            Ok(_) => {
                sinks.push(sink);
            },
            Err(e) => {
                return Err(e);
            },
        }
        i = i + 1;
    }
    proof {
        assert(parts@.subrange(i as int, parts@.len() as int) =~= Seq::<UploadPart>::empty());
    }
    Ok(sinks)
}

} // verus!
