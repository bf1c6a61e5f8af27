use uploader::copier::{copy_all, StreamCopier};
use uploader::errors::UploadError;
use uploader::sink::MemSink;

#[test]
fn empty_stream_roundtrip() {
    let mut sink = MemSink::open(b"empty.bin".to_vec());
    let chunks: Vec<Vec<u8>> = Vec::new();
    let n = copy_all(&chunks, &mut sink).unwrap();
    assert_eq!(n, 0);
    assert!(sink.is_finalized());
    assert!(sink.contents().is_empty());
}

#[test]
fn single_chunk_roundtrip() {
    let mut sink = MemSink::open(b"one.bin".to_vec());
    let data = b"hello upload".to_vec();
    let n = copy_all(&vec![data.clone()], &mut sink).unwrap();
    assert_eq!(n, data.len() as u64);
    assert!(sink.is_finalized());
    assert_eq!(sink.contents(), &data);
}

#[test]
fn chunked_stream_roundtrip() {
    let mut sink = MemSink::open(b"many.bin".to_vec());
    let chunks = vec![
        b"first,".to_vec(),
        b"".to_vec(),
        b"second,".to_vec(),
        b"third".to_vec(),
    ];
    let n = copy_all(&chunks, &mut sink).unwrap();
    assert_eq!(n, b"first,second,third".len() as u64);
    assert!(sink.is_finalized());
    assert_eq!(sink.contents(), &b"first,second,third".to_vec());
}

#[test]
fn long_stream_through_one_small_buffer() {
    // A large transfer pushed through the copier one fixed-size chunk at a
    // time: the copier itself holds nothing but a count, and the sink ends
    // with every byte in order.
    let mut sink = MemSink::open(b"big.bin".to_vec());
    let mut copier = StreamCopier::new();
    let chunk: Vec<u8> = (0u32..1024).map(|i| (i % 251) as u8).collect();
    let rounds: usize = 4096;
    for _ in 0..rounds {
        copier.push_chunk(&mut sink, &chunk).unwrap();
    }
    assert_eq!(copier.written(), (rounds * chunk.len()) as u64);
    let total = copier.finish(&mut sink).unwrap();
    assert_eq!(total, (rounds * chunk.len()) as u64);
    assert!(sink.is_finalized());
    assert_eq!(sink.contents().len(), rounds * chunk.len());
    for (i, b) in sink.contents().iter().enumerate() {
        assert_eq!(*b, ((i % 1024) % 251) as u8);
    }
}

#[test]
fn failed_write_aborts_sink() {
    let mut sink = MemSink::open_bounded(b"small.bin".to_vec(), 10);
    let mut copier = StreamCopier::new();
    copier.push_chunk(&mut sink, b"12345678").unwrap();
    let err = copier.push_chunk(&mut sink, b"90123").unwrap_err();
    assert_eq!(err, UploadError::Io);
    assert!(!sink.is_finalized());
    assert!(sink.contents().is_empty());
}

#[test]
fn bounded_sink_accepts_exact_fit() {
    let mut sink = MemSink::open_bounded(b"fit.bin".to_vec(), 10);
    let n = copy_all(&vec![b"0123456789".to_vec()], &mut sink).unwrap();
    assert_eq!(n, 10);
    assert!(sink.is_finalized());
}

#[test]
fn source_failure_aborts_sink() {
    let mut sink = MemSink::open(b"gone.bin".to_vec());
    let mut copier = StreamCopier::new();
    copier.push_chunk(&mut sink, b"partial").unwrap();
    copier.fail(&mut sink);
    assert!(!sink.is_finalized());
    assert!(sink.contents().is_empty());
}

#[test]
fn copy_all_reports_io_error_on_full_destination() {
    let mut sink = MemSink::open_bounded(b"small.bin".to_vec(), 4);
    let err = copy_all(&vec![b"12345".to_vec()], &mut sink).unwrap_err();
    assert_eq!(err, UploadError::Io);
    assert!(!sink.is_finalized());
    assert!(sink.contents().is_empty());
}

#[test]
fn destination_name_is_kept() {
    let sink = MemSink::open(b"kept.bin".to_vec());
    assert_eq!(sink.destination(), &b"kept.bin".to_vec());
}
