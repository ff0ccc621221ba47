use std::io::Read;

use flate2::bufread::{GzDecoder, MultiGzDecoder};
use pargz::{ParGz, ParGzError, Pipeline, BUFSIZE};

/// Decode a (possibly multi-member) gzip stream back to its original bytes.
fn gunzip(stream: &[u8]) -> Vec<u8> {
    let mut decoder = MultiGzDecoder::new(stream);
    let mut bytes = Vec::new();
    decoder.read_to_end(&mut bytes).unwrap();
    bytes
}

/// Count gzip member headers (magic bytes plus the DEFLATE method byte).
fn count_member_headers(stream: &[u8]) -> usize {
    let mut count = 0;
    let mut i = 0;
    while i + 2 < stream.len() {
        if stream[i] == 0x1f && stream[i + 1] == 0x8b && stream[i + 2] == 8 {
            count += 1;
        }
        i += 1;
    }
    count
}

#[test]
fn test_simple() {
    // Define input bytes
    let input = b"
        This is a longer test than normal to come up with a bunch of text.
        We'll read just a few lines at a time.
        ";

    // Compress input to output
    let mut par_gz = ParGz::builder(Vec::new()).build();
    par_gz.write(&input.to_vec());
    let result = par_gz.finish().unwrap();

    // Decompress it
    let bytes = gunzip(&result);

    // Assert decompressed output is equal to input
    assert_eq!(input.to_vec(), bytes);
}

#[test]
fn test_regression() {
    // Define input bytes that is 206 bytes long
    let input = [
        132, 19, 107, 159, 69, 217, 180, 131, 224, 49, 143, 41, 194, 30, 151, 22, 55, 30, 42,
        139, 219, 62, 123, 44, 148, 144, 88, 233, 199, 126, 110, 65, 6, 87, 51, 215, 17, 253,
        22, 63, 110, 1, 100, 202, 44, 138, 187, 226, 50, 50, 218, 24, 193, 218, 43, 172, 69,
        71, 8, 164, 5, 186, 189, 215, 151, 170, 243, 235, 219, 103, 1, 0, 102, 80, 179, 95,
        247, 26, 168, 147, 139, 245, 177, 253, 94, 82, 146, 133, 103, 223, 96, 34, 128, 237,
        143, 182, 48, 201, 201, 92, 29, 172, 137, 70, 227, 98, 181, 246, 80, 21, 106, 175, 246,
        41, 229, 187, 87, 65, 79, 63, 115, 66, 143, 251, 41, 251, 214, 7, 64, 196, 27, 180, 42,
        132, 116, 211, 148, 44, 177, 137, 91, 119, 245, 156, 78, 24, 253, 69, 38, 52, 152, 115,
        123, 94, 162, 72, 186, 239, 136, 179, 11, 180, 78, 54, 217, 120, 173, 141, 114, 174,
        220, 160, 223, 184, 114, 73, 148, 120, 43, 25, 21, 62, 62, 244, 85, 87, 19, 174, 182,
        227, 228, 70, 153, 5, 92, 51, 161, 9, 140, 199, 244, 241, 151, 236, 81, 211,
    ];

    // Compress input to output
    let mut par_gz = ParGz::builder(Vec::new())
        .buffer_size(205)
        .num_threads(3)
        .compression_level(2)
        .build();
    par_gz.write(&input.to_vec());
    let result = par_gz.finish().unwrap();

    // Decompress it
    let bytes = gunzip(&result);

    // Assert decompressed output is equal to input
    assert_eq!(input.to_vec(), bytes);
}

#[test]
fn builder_defaults_match_documentation() {
    let builder = ParGz::builder(Vec::new());
    assert_eq!(builder.buffer_size, BUFSIZE);
    assert_eq!(builder.buffer_size, 131072);
    assert_eq!(builder.compression_level, 3);
    assert_eq!(builder.num_threads, num_cpus::get());
    assert_eq!(builder.max_threads, num_cpus::get());
}

#[test]
fn two_test_lines_round_trip() {
    let mut par_gz = ParGz::builder(Vec::new()).build();
    let first = b"This is a first test line\n".to_vec();
    let second = b"This is a second test line\n".to_vec();
    assert_eq!(par_gz.write(&first), first.len());
    assert_eq!(par_gz.write(&second), second.len());
    let result = par_gz.finish().unwrap();
    let mut expected = first.clone();
    expected.extend(second.clone());
    assert_eq!(gunzip(&result), expected);
}

#[test]
fn single_zero_byte_round_trip() {
    let mut par_gz = ParGz::builder(Vec::new())
        .buffer_size(1)
        .num_threads(1)
        .build();
    par_gz.write(&vec![0x00]);
    let result = par_gz.finish().unwrap();
    assert_eq!(gunzip(&result), vec![0x00]);
    // The single byte still sat in the buffer at finish, so the stream holds
    // exactly one non-empty member.
    assert_eq!(count_member_headers(&result), 1);
}

#[test]
fn many_tiny_blocks_max_parallelism() {
    // 10000 pseudo-random bytes from a fixed linear congruential generator.
    let mut state: u32 = 0x2545_f491;
    let mut input = Vec::new();
    for _ in 0..10000 {
        state = state.wrapping_mul(1664525).wrapping_add(1013904223);
        input.push((state >> 16) as u8);
    }
    let mut par_gz = ParGz::builder(Vec::new())
        .buffer_size(1)
        .num_threads(num_cpus::get())
        .compression_level(9)
        .build();
    for chunk in input.chunks(7) {
        par_gz.write(&chunk.to_vec());
    }
    let result = par_gz.finish().unwrap();
    assert_eq!(gunzip(&result), input);
}

#[test]
fn flush_boundary_is_observable() {
    let mut par_gz = ParGz::builder(Vec::new()).build();
    par_gz.write(&b"hello".to_vec());
    par_gz.flush();
    par_gz.write(&b"world".to_vec());
    let result = par_gz.finish().unwrap();
    assert_eq!(gunzip(&result), b"helloworld".to_vec());
    // The flush closed a member after "hello", so at least two member
    // headers stand in the encoded stream.
    assert!(count_member_headers(&result) >= 2);
}

#[test]
fn one_block_sized_prefix_per_write() {
    // A single write larger than the block size ships exactly one
    // block-sized prefix; the remainder stays buffered until finish.
    let input = b"abcdefghijk".to_vec();
    let mut par_gz = ParGz::builder(Vec::new()).buffer_size(4).num_threads(1).build();
    par_gz.write(&input);
    let result = par_gz.finish().unwrap();

    // The first member alone holds exactly the four-byte prefix.
    let mut first_member = Vec::new();
    GzDecoder::new(&result[..]).read_to_end(&mut first_member).unwrap();
    assert_eq!(first_member, b"abcd".to_vec());

    // The whole stream still reproduces the input.
    assert_eq!(gunzip(&result), input);
}

#[test]
fn empty_input_produces_valid_empty_stream() {
    let par_gz = ParGz::builder(Vec::new()).build();
    let result = par_gz.finish().unwrap();
    assert!(!result.is_empty());
    assert_eq!(count_member_headers(&result), 1);
    assert_eq!(gunzip(&result), Vec::<u8>::new());
}

#[test]
fn finish_output_is_deterministic() {
    let input = b"the same bytes, twice over, must give the same stream".to_vec();
    let mut first = ParGz::builder(Vec::new()).buffer_size(8).build();
    first.write(&input);
    let mut second = ParGz::builder(Vec::new()).buffer_size(8).build();
    second.write(&input);
    let a = first.finish().unwrap();
    let b = second.finish().unwrap();
    assert_eq!(a, b);
    assert_eq!(gunzip(&a), input);
}

#[test]
fn pipeline_emits_members_in_submission_order() {
    let mut pipeline = Pipeline::new(2, 3);
    pipeline.send(b"first block ".to_vec());
    pipeline.dispatch_step();
    pipeline.send(b"second block".to_vec());
    pipeline.dispatch_step();
    let first = pipeline.writer_step();
    let second = pipeline.writer_step();

    // Members come out in submission order, one gzip member per block.
    let mut decoded_first = Vec::new();
    GzDecoder::new(&first[..]).read_to_end(&mut decoded_first).unwrap();
    assert_eq!(decoded_first, b"first block ".to_vec());
    let mut decoded_second = Vec::new();
    GzDecoder::new(&second[..]).read_to_end(&mut decoded_second).unwrap();
    assert_eq!(decoded_second, b"second block".to_vec());
    let mut stream = first.clone();
    stream.extend(second.clone());
    assert_eq!(gunzip(&stream), b"first block second block".to_vec());
}

#[test]
fn pipeline_queues_stay_bounded() {
    let mut pipeline = Pipeline::new(2, 3);
    assert_eq!(pipeline.worker_count(), 2);
    assert_eq!(pipeline.ingest_len(), 0);
    pipeline.send(b"a".to_vec());
    pipeline.send(b"b".to_vec());
    // The ingest queue is now full: a real producer would block here.
    assert_eq!(pipeline.ingest_len(), 2);
    pipeline.dispatch_step();
    assert_eq!(pipeline.ingest_len(), 1);
    assert_eq!(pipeline.emit_len(), 1);
    pipeline.dispatch_step();
    assert_eq!(pipeline.emit_len(), 2);
    let _ = pipeline.writer_step();
    let _ = pipeline.writer_step();
    assert_eq!(pipeline.emit_len(), 0);
}

#[test]
fn downstream_failure_surfaces_on_finish() {
    // A downstream sink that fails on a write: the writer task records the
    // I/O failure; the dispatcher's later channel failure is only a symptom
    // and is dropped. The aggregate result is the first failure.
    let mut pipeline = Pipeline::new(2, 3);
    pipeline.send(b"doomed".to_vec());
    pipeline.dispatch_step();
    let member = pipeline.writer_step();
    assert!(!member.is_empty());
    pipeline.record_error(ParGzError::Io);
    pipeline.record_error(ParGzError::ChannelSend);
    pipeline.close();
    assert_eq!(pipeline.result(), Err(ParGzError::Io));
}

#[test]
fn worker_failure_surfaces_on_finish() {
    let mut pipeline = Pipeline::new(1, 3);
    pipeline.record_error(ParGzError::Join);
    assert_eq!(pipeline.result(), Err(ParGzError::Join));
    let mut other = Pipeline::new(1, 3);
    pipeline.close();
    assert_eq!(other.result(), Ok(()));
    other.record_error(ParGzError::Unknown);
    assert_eq!(other.result(), Err(ParGzError::Unknown));
}

#[test]
fn all_levels_round_trip() {
    let data = b"compressible compressible compressible".to_vec();
    for level in 0..=9u32 {
        let mut par_gz = ParGz::builder(Vec::new())
            .buffer_size(16)
            .compression_level(level)
            .build();
        par_gz.write(&data);
        let result = par_gz.finish().unwrap();
        assert_eq!(gunzip(&result), data);
    }
}
