use qr_video_extractor::events::ProcessingEvent;
use qr_video_extractor::file_reconstruction::FileDecoder;
use qr_video_extractor::file_reconstruction::FileReconstructor;
use qr_video_extractor::file_reconstruction::FinalReport;
use qr_video_extractor::file_reconstruction::ReconstructedFile;
use qr_video_extractor::qr_extraction::QrCodeData;

fn qr(frame: u64, data: &str) -> QrCodeData {
    QrCodeData { frame_number: frame, data: data.to_string(), chunk_id: 0 }
}

fn hello_payloads() -> Vec<QrCodeData> {
    vec![
        qr(0, "M:1.0:a.txt:text%2Fplain:5:2"),
        qr(1, "D:x:x:x:x:x:0:aGVs"),
        qr(2, "D:x:x:x:x:x:1:bG8="),
    ]
}

#[test]
fn routes_payloads_and_announces_the_file() {
    let mut r = FileReconstructor::new("out");
    let mut events = Vec::new();
    let result = r.route_qr_data_to_files(&hello_payloads(), &mut events);
    assert!(result.is_ok());
    assert_eq!(r.active_file_names(), vec!["file_001_a.txt".to_string()]);
    assert_eq!(events.len(), 1);
    match &events[0] {
        ProcessingEvent::Progress { phase, current, total, message } => {
            assert_eq!(*phase, 3);
            assert_eq!(*current, 1);
            assert_eq!(*total, 6);
            assert_eq!(message, "Started file: a.txt (2 chunks expected)");
        }
        _ => panic!("expected a progress event"),
    }
}

#[test]
fn reconstructs_the_file_with_its_checksums() {
    let mut r = FileReconstructor::new("out");
    let mut events = Vec::new();
    r.route_qr_data_to_files(&hello_payloads(), &mut events).unwrap();
    let decoder = r.take_file_decoder("file_001_a.txt").unwrap();
    assert_eq!(decoder.metadata().file_name, "a.txt");
    assert!(r.active_file_names().is_empty());
    let (file, bytes) = r.reconstruct_file_owned(decoder, "file_001_a.txt", "out/a.txt".to_string()).unwrap();
    assert_eq!(bytes, b"hello".to_vec());
    assert_eq!(file.size, 5);
    assert_eq!(file.file_path, "out/a.txt");
    assert_eq!(file.md5, "5d41402abc4b2a76b9719d911017c592");
    assert_eq!(file.sha1, "aaf4c61ddcc5e8a2dabede0f3b482cd9aea9434d");
    assert_eq!(file.sha256, "2cf24dba5fb0a30e26e83b2ac5b9e29e1b161e5c1fa7425e73043362938b9824");
    assert_eq!(file.crc32, "3610a686");
    assert!(!file.qr_checksum.is_empty());
}

#[test]
fn announced_checksum_is_kept() {
    let mut r = FileReconstructor::new("out");
    let mut events = Vec::new();
    let payloads = vec![
        qr(0, "M:1.0:a.txt:t:5:2:x:x:x:x:x:x:x:abc123"),
        qr(1, "D:x:x:x:x:x:0:aGVs"),
        qr(2, "D:x:x:x:x:x:1:bG8="),
    ];
    r.route_qr_data_to_files(&payloads, &mut events).unwrap();
    let decoder = r.take_file_decoder("file_001_a.txt").unwrap();
    let (file, _) = r.reconstruct_file_owned(decoder, "file_001_a.txt", "p".to_string()).unwrap();
    assert_eq!(file.qr_checksum, "abc123");
}

#[test]
fn file_is_cut_to_its_size() {
    let mut r = FileReconstructor::new("out");
    let mut events = Vec::new();
    let payloads = vec![
        qr(0, "M:1.0:b.bin:t:4:2"),
        qr(1, "D:x:x:x:x:x:0:aGVs"),
        qr(2, "D:x:x:x:x:x:1:bG8="),
    ];
    r.route_qr_data_to_files(&payloads, &mut events).unwrap();
    let decoder = r.take_file_decoder("file_001_b.bin").unwrap();
    let (file, bytes) = r.reconstruct_file_owned(decoder, "file_001_b.bin", "p".to_string()).unwrap();
    assert_eq!(bytes, b"hell".to_vec());
    assert_eq!(file.size, 4);
}

#[test]
fn missing_chunk_is_reported() {
    let mut r = FileReconstructor::new("out");
    let mut events = Vec::new();
    let payloads = vec![qr(0, "M:1.0:a.txt:t:5:2"), qr(1, "D:x:x:x:x:x:1:bG8=")];
    r.route_qr_data_to_files(&payloads, &mut events).unwrap();
    let decoder = r.take_file_decoder("file_001_a.txt").unwrap();
    let err = r.reconstruct_file_owned(decoder, "file_001_a.txt", "p".to_string()).unwrap_err();
    assert_eq!(err, "Missing chunk 0 for file file_001_a.txt");
}

#[test]
fn bad_base64_stops_routing() {
    let mut r = FileReconstructor::new("out");
    let mut events = Vec::new();
    let payloads = vec![qr(0, "M:1.0:a.txt:t:5:2"), qr(1, "D:x:x:x:x:x:0:!!!!"), qr(2, "M:1.0:c.txt:t:1:1")];
    let err = r.route_qr_data_to_files(&payloads, &mut events).unwrap_err();
    assert!(err.starts_with("Failed to decode base64: "));
    assert_eq!(events.len(), 1);
    assert!(r.active_file_names().is_empty());
}

#[test]
fn data_payload_without_index_is_refused() {
    let mut r = FileReconstructor::new("out");
    let mut events = Vec::new();
    let payloads = vec![qr(0, "M:1.0:a.txt:t:5:2"), qr(1, "D:x:x:x")];
    let err = r.route_qr_data_to_files(&payloads, &mut events).unwrap_err();
    assert_eq!(err, "Invalid data packet format");
}

#[test]
fn data_payload_without_data_field_is_refused() {
    let mut r = FileReconstructor::new("out");
    let mut events = Vec::new();
    let payloads = vec![qr(0, "M:1.0:a.txt:t:5:2"), qr(1, "D:42:1234:10:100:3:1234")];
    let err = r.route_qr_data_to_files(&payloads, &mut events).unwrap_err();
    assert_eq!(err, "Invalid data packet format");
    assert_eq!(events.len(), 1);
    assert!(r.active_file_names().is_empty());
}

#[test]
fn data_payload_without_a_file_is_skipped() {
    let mut r = FileReconstructor::new("out");
    let mut events = Vec::new();
    let payloads = vec![qr(0, "D:x:x:x:x:x:0"), qr(1, "M:1.0:a.txt:t:5:2")];
    assert_eq!(r.route_qr_data_to_files(&payloads, &mut events), Ok(()));
    assert_eq!(events.len(), 1);
}

#[test]
fn files_are_numbered_in_order() {
    let mut r = FileReconstructor::new("out");
    let mut events = Vec::new();
    let payloads = vec![qr(0, "M:1.0:a.txt:t:1:1"), qr(1, "junk"), qr(2, "M:1.0:a.txt:t:1:1"), qr(3, "M:1:bad")];
    r.route_qr_data_to_files(&payloads, &mut events).unwrap();
    let mut names = r.active_file_names();
    names.sort();
    assert_eq!(names, vec!["file_001_a.txt".to_string(), "file_002_a.txt".to_string()]);
    assert_eq!(events.len(), 2);
}

#[test]
fn metadata_fields_are_read() {
    let r = FileReconstructor::new("out");
    let m = r.parse_metadata("M:1.0:my%20file.txt:text%2Fplain:12:3:150:8:1:10:500:80:H:cafe:lt").unwrap();
    assert_eq!(m.version, "1.0");
    assert_eq!(m.file_name, "my file.txt");
    assert_eq!(m.file_type, "text/plain");
    assert_eq!(m.file_size, 12);
    assert_eq!(m.chunks_count, 3);
    assert_eq!(m.file_checksum, Some("cafe".to_string()));
    assert_eq!(r.parse_metadata("M:1:a:b:c").unwrap_err(), "Invalid metadata format");
    assert_eq!(r.parse_metadata("M:1:a:b:x:1").unwrap_err(), "invalid digit found in string");
    assert_eq!(r.parse_metadata("M:1:a:b::1").unwrap_err(), "cannot parse integer from empty string");
    assert_eq!(r.parse_metadata("M:1:a:b:1:1:").unwrap().file_checksum, None);
    assert_eq!(r.parse_metadata("M:1:a:b:1:1:150").unwrap().file_checksum, None);
    let doc = r.parse_metadata("M:3.0:filename.ext:image/jpeg:1024000:100:150:8:1:10:500:80:H:checksum:ltparams").unwrap();
    assert_eq!(doc.file_size, 1024000);
    assert_eq!(doc.chunks_count, 100);
    assert_eq!(doc.file_checksum, Some("checksum".to_string()));
}

#[test]
fn data_packet_marks_the_file_complete() {
    let r0 = FileReconstructor::new("out");
    let meta = r0.parse_metadata("M:1.0:a.txt:t:5:2").unwrap();
    let mut decoder = FileDecoder::new(meta);
    let mut r = FileReconstructor::new("out");
    assert!(r.process_data_packet(&mut decoder, "D:x:x:x:x:x:0:aGVs").is_ok());
    assert!(r.process_data_packet(&mut decoder, "D:x:x:x:x:x:y:aGVs").is_err());
    assert!(r.process_data_packet(&mut decoder, "D:x:x:x:x:x:1:bG8=").is_ok());
    let (file, bytes) = r.reconstruct_file_owned(decoder, "k", "p".to_string()).unwrap();
    assert_eq!(bytes, b"hello".to_vec());
    assert_eq!(file.size, 5);
    assert!(r.attempt_fountain_recovery(&FileDecoder::new(r0.parse_metadata("M:1:a:b:1:1").unwrap())).is_ok());
}

#[test]
fn checksums_of_empty_data() {
    let r = FileReconstructor::new("out");
    let c = r.calculate_checksums(&Vec::new(), &None);
    assert_eq!(c.md5, "d41d8cd98f00b204e9800998ecf8427e");
    assert_eq!(c.crc32, "0");
    assert!(c.qr_checksum.chars().all(|ch| ch.is_ascii_hexdigit()));
}

fn sample_file(path: &str) -> ReconstructedFile {
    ReconstructedFile {
        qr_checksum: "q".to_string(),
        md5: "m".to_string(),
        sha1: "s".to_string(),
        sha256: "t".to_string(),
        crc32: "c".to_string(),
        size: 1,
        file_path: path.to_string(),
    }
}

#[test]
fn report_keeps_one_file_per_key() {
    let mut report = FinalReport::new("2024".to_string(), "out".to_string());
    report.insert_file("a".to_string(), sample_file("x"));
    report.insert_file("b".to_string(), sample_file("y"));
    report.insert_file("a".to_string(), sample_file("z"));
    assert_eq!(report.file_count(), 2);
    let a = report.files.iter().find(|e| e.0 == "a").unwrap();
    assert_eq!(a.1.file_path, "z");
}

#[test]
fn crc32_is_the_ieee_checksum() {
    let r = FileReconstructor::new("out");
    assert_eq!(r.calculate_checksums(&b"123456789".to_vec(), &None).crc32, "cbf43926");
    assert_eq!(r.calculate_checksums(&b"The quick brown fox jumps over the lazy dog".to_vec(), &None).crc32, "414fa339");
}
