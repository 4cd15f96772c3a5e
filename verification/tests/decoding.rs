use qr_video_extractor::decode_qr_files::FountainDecoder;
use qr_video_extractor::decode_qr_files::QRFileDecoder;

const META: &str = "M:2.0:hello.txt:text%2Fplain:5:2:a:b:c:d:e:f:g:4f9f2cab";

#[test]
fn metadata_frame_starts_a_file() {
    let mut decoder = QRFileDecoder::new();
    let result = decoder.process_qr_code(META, 0);
    assert!(result.is_valid);
    assert_eq!(result.qr_type, "metadata");
    assert_eq!(result.reason, None);
    let files = decoder.file_decoders();
    assert_eq!(files.len(), 1);
    assert_eq!(files[0].0, "hello.txt");
    assert_eq!(files[0].1.total_chunks(), 2);
    assert_eq!(files[0].1.recovered_chunk_count(), 0);
}

#[test]
fn systematic_frame_completes_and_verifies_the_file() {
    let mut decoder = QRFileDecoder::new();
    decoder.process_qr_code(META, 0);
    let result = decoder.process_qr_code("D:1:x:x:x:2:0:aGVs|1:bG8=", 1);
    assert!(result.is_valid);
    assert_eq!(result.qr_type, "data");
    let finished = decoder.take_finished_files();
    assert_eq!(finished.len(), 1);
    assert_eq!(finished[0].file_name, "hello.txt");
    assert_eq!(finished[0].output_dir, "./decoded_files");
    assert_eq!(finished[0].data, b"hello".to_vec());
    assert_eq!(decoder.take_finished_files().len(), 0);
}

#[test]
fn wrong_checksum_gives_no_file() {
    let mut decoder = QRFileDecoder::new();
    decoder.process_qr_code("M:2.0:hello.txt:text%2Fplain:5:2:a:b:c:d:e:f:g:deadbeef", 0);
    decoder.process_qr_code("D:1:x:x:x:2:0:aGVs|1:bG8=", 1);
    assert_eq!(decoder.take_finished_files().len(), 0);
    assert!(decoder.file_decoders()[0].1.is_complete());
}

#[test]
fn repeated_frame_changes_nothing() {
    let mut decoder = QRFileDecoder::new();
    decoder.process_qr_code("M:2.0:f.bin:x:5:3:a:b:c:d", 0);
    decoder.process_qr_code("D:1:x:x:x:3:0:aGVs|", 1);
    decoder.process_qr_code("D:1:x:x:x:3:0:aGVs|", 2);
    let d = &decoder.file_decoders()[0].1;
    assert_eq!(d.recovered_chunk_count(), 1);
    assert_eq!(d.missing_chunks(), vec![1, 2]);
}

#[test]
fn data_before_metadata_has_no_decoder() {
    let mut decoder = QRFileDecoder::new();
    let result = decoder.process_qr_code("D:1:x:x:x:2:0:aGVs|1:bG8=", 0);
    assert!(!result.is_valid);
    assert_eq!(result.qr_type, "data");
    assert_eq!(result.reason, Some("No active decoder".to_string()));
}

#[test]
fn unknown_payload_is_reported() {
    let mut decoder = QRFileDecoder::new();
    let result = decoder.process_qr_code("hello", 0);
    assert!(!result.is_valid);
    assert_eq!(result.qr_type, "unknown");
    assert_eq!(result.reason, Some("Unknown packet type".to_string()));
}

#[test]
fn short_metadata_is_an_error() {
    let mut decoder = QRFileDecoder::new();
    let result = decoder.process_qr_code("M:2.0:a:b:1:1", 0);
    assert!(!result.is_valid);
    assert_eq!(result.qr_type, "error");
    assert_eq!(result.reason, Some("Invalid metadata format".to_string()));
    assert!(decoder.try_process_qr_code("M:2.0:a:b:1:1", 0).is_err());
}

#[test]
fn bad_packet_id_is_an_error() {
    let mut decoder = QRFileDecoder::new();
    decoder.process_qr_code(META, 0);
    let result = decoder.process_qr_code("D:x:x:x:x:2:0:aGVs", 1);
    assert_eq!(result.reason, Some("invalid digit found in string".to_string()));
}

#[test]
fn short_data_frame_is_an_error() {
    let mut decoder = QRFileDecoder::new();
    let result = decoder.process_qr_code("D:1:2", 1);
    assert_eq!(result.reason, Some("Invalid data packet format".to_string()));
}

#[test]
fn fountain_indices_followed_by_data_do_not_parse() {
    let mut decoder = QRFileDecoder::new();
    decoder.process_qr_code(META, 0);
    let result = decoder.process_qr_code("D:2:x:x:x:2:0,1:AgY=", 1);
    assert_eq!(result.qr_type, "error");
    assert_eq!(result.reason, Some("invalid digit found in string".to_string()));
}

#[test]
fn re_announced_file_keeps_its_chunks() {
    let mut decoder = QRFileDecoder::new();
    decoder.process_qr_code("M:2.0:f.bin:x:5:3:a:b:c:d", 0);
    decoder.process_qr_code("D:1:x:x:x:3:0:aGVs|", 1);
    decoder.process_qr_code("M:2.0:f.bin:x:5:3:a:b:c:d", 2);
    assert_eq!(decoder.file_decoders().len(), 1);
    assert_eq!(decoder.file_decoders()[0].1.recovered_chunk_count(), 1);
}

#[test]
fn checksum_is_fnv1a_in_hex() {
    let d = FountainDecoder::new();
    assert_eq!(d.calculate_checksum(&b"hello".to_vec()), "4f9f2cab");
    assert_eq!(d.calculate_checksum(&Vec::new()), "811c9dc5");
}

#[test]
fn fresh_fountain_decoder_is_empty() {
    let d = FountainDecoder::new();
    assert_eq!(d.total_chunks(), 0);
    assert_eq!(d.recovered_chunk_count(), 0);
    assert_eq!(d.pending_packet_count(), 0);
    assert!(d.meta_data().is_none());
    assert!(d.is_complete());
}

use qr_video_extractor::decode_qr_files::DataPacket;
use qr_video_extractor::decode_qr_files::FileMetadata;
use qr_video_extractor::decode_qr_files::SystematicChunk;

fn metadata(size: usize, count: usize) -> FileMetadata {
    FileMetadata {
        version: "2.0".to_string(),
        file_name: "f.bin".to_string(),
        file_type: "x".to_string(),
        file_size: size,
        chunks_count: count,
        file_checksum: None,
    }
}

fn fountain(id: usize, chunks: Vec<usize>, xor: Vec<u8>) -> DataPacket {
    DataPacket { packet_id: id, source_chunks: chunks, systematic_data_chunks: Vec::new(), xor_data: Some(xor) }
}

#[test]
fn peeling_recovers_chunks_from_xor_packets() {
    let mut d = FountainDecoder::new();
    d.initialize(metadata(3, 3));
    let a = 0b1010_1010u8;
    let b = 0b1100_1100u8;
    let c = 0b0011_0011u8;
    assert!(d.add_packet(fountain(2, vec![1, 2], vec![b ^ c])));
    assert_eq!(d.pending_packet_count(), 1);
    assert!(d.add_packet(fountain(1, vec![0, 1], vec![a ^ b])));
    assert_eq!(d.recovered_chunk_count(), 0);
    let systematic = DataPacket {
        packet_id: 0,
        source_chunks: vec![0],
        systematic_data_chunks: vec![SystematicChunk { chunk_index: 0, chunk_data: vec![a] }],
        xor_data: None,
    };
    assert!(d.add_packet(systematic));
    assert_eq!(d.recovered_chunk_count(), 3);
    assert_eq!(d.pending_packet_count(), 0);
    assert!(d.add_packet(fountain(3, vec![0, 2], vec![a ^ c])));
    assert_eq!(d.recovered_chunk_count(), 3);
    assert_eq!(d.pending_packet_count(), 0);
    assert_eq!(d.finalize(), Some(vec![a, b, c]));
}

#[test]
fn packets_before_metadata_are_refused() {
    let mut d = FountainDecoder::new();
    assert!(!d.add_packet(fountain(1, vec![0, 1], vec![1])));
    assert_eq!(d.pending_packet_count(), 0);
}

#[test]
fn recovered_chunks_propagate_whatever_the_order() {
    let mut d = FountainDecoder::new();
    d.initialize(metadata(3, 3));
    assert!(d.add_packet(fountain(1, vec![0, 1], vec![0x66])));
    assert!(d.add_packet(fountain(2, vec![1, 2], vec![0xFF])));
    let systematic = DataPacket {
        packet_id: 0,
        source_chunks: vec![0],
        systematic_data_chunks: vec![SystematicChunk { chunk_index: 0, chunk_data: vec![0xAA] }],
        xor_data: None,
    };
    assert!(d.add_packet(systematic));
    assert_eq!(d.recovered_chunk_count(), 3);
    assert!(d.is_complete());
    assert_eq!(d.finalize(), Some(vec![0xAA, 0xCC, 0x33]));
}

#[test]
fn single_chunk_frame_carries_its_chunk() {
    let mut decoder = QRFileDecoder::new();
    decoder.process_qr_code("M:3.0:a.txt:text%2Fplain:3:1:2:1:0:10", 0);
    let result = decoder.process_qr_code("D:42:1234:10:1:1:0:QUJD", 1);
    assert!(result.is_valid);
    let finished = decoder.take_finished_files();
    assert_eq!(finished.len(), 1);
    assert_eq!(finished[0].file_name, "a.txt");
    assert_eq!(finished[0].data, b"ABC".to_vec());
}

#[test]
fn seven_field_data_frame_without_a_record_carries_nothing() {
    let mut decoder = QRFileDecoder::new();
    decoder.process_qr_code(META, 0);
    let result = decoder.process_qr_code("D:42:1234:10:100:3:1234", 1);
    assert_eq!(result.qr_type, "data");
    assert_eq!(decoder.file_decoders()[0].1.recovered_chunk_count(), 0);
}

#[test]
fn repeated_systematic_packet_changes_nothing() {
    let mut d = FountainDecoder::new();
    d.initialize(metadata(4, 4));
    assert!(d.add_packet(fountain(1, vec![1, 2], vec![7])));
    let chunk0 = || DataPacket {
        packet_id: 0,
        source_chunks: vec![0],
        systematic_data_chunks: vec![SystematicChunk { chunk_index: 0, chunk_data: vec![9] }],
        xor_data: None,
    };
    assert!(d.add_packet(chunk0()));
    assert_eq!((d.recovered_chunk_count(), d.pending_packet_count()), (1, 1));
    assert!(d.add_packet(chunk0()));
    assert_eq!((d.recovered_chunk_count(), d.pending_packet_count()), (1, 1));
    assert_eq!(d.missing_chunks(), vec![1, 2, 3]);
}
