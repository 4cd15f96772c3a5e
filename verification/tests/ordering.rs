use qr_video_extractor::qr_extraction::sort_by_frame;
use qr_video_extractor::qr_extraction::QrCodeData;
use qr_video_extractor::qr_extraction::QrExtractor;
use qr_video_extractor::text::chars_of;
use qr_video_extractor::text::parse_u64;
use qr_video_extractor::text::parse_usize;
use qr_video_extractor::text::IntErrorKind;

fn qr(frame: u64, data: &str) -> QrCodeData {
    QrCodeData { frame_number: frame, data: data.to_string(), chunk_id: 0 }
}

#[test]
fn payloads_are_sorted_stably_by_frame() {
    let sorted = sort_by_frame(vec![qr(5, "a"), qr(2, "b"), qr(5, "c"), qr(1, "d"), qr(2, "e")]);
    let order: Vec<(u64, String)> = sorted.into_iter().map(|q| (q.frame_number, q.data)).collect();
    assert_eq!(order, vec![
        (1, "d".to_string()),
        (2, "b".to_string()),
        (2, "e".to_string()),
        (5, "a".to_string()),
        (5, "c".to_string()),
    ]);
}

#[test]
fn results_collect_sorted_payloads() {
    let x = QrExtractor::new(4, 10);
    assert_eq!(x.sample_rate(), 30);
    assert_eq!(QrExtractor::new(4, 45).sample_rate(), 45);
    let r = x.collect_results(vec![qr(9, "z"), qr(3, "y")], 2, 17);
    assert_eq!(r.qr_codes[0].data, "y");
    assert_eq!(r.chunks_processed, 2);
    assert_eq!(r.total_frames_processed, 2);
    assert_eq!(r.processing_time_ms, 17);
}

#[test]
fn numbers_parse_as_the_standard_library_does() {
    assert_eq!(parse_usize(&chars_of("42")), Ok(42));
    assert_eq!(parse_usize(&chars_of("+7")), Ok(7));
    assert_eq!(parse_usize(&chars_of("")), Err(IntErrorKind::Empty));
    assert_eq!(parse_usize(&chars_of("+")), Err(IntErrorKind::InvalidDigit));
    assert_eq!(parse_usize(&chars_of("-1")), Err(IntErrorKind::InvalidDigit));
    assert_eq!(parse_u64(&chars_of("18446744073709551615")), Ok(u64::MAX));
    assert_eq!(parse_u64(&chars_of("18446744073709551616")), Err(IntErrorKind::PosOverflow));
}

#[test]
fn a_frame_with_too_few_bytes_is_refused() {
    let extractor = QrExtractor::new(1, 0);
    let result = extractor.extract_qr_from_frame(4, 4, &vec![0u8; 47], 3, 1);
    assert_eq!(result.err(), Some("Failed to create image buffer".to_string()));
}

#[test]
fn a_blank_frame_holds_no_payloads() {
    let extractor = QrExtractor::new(1, 0);
    let result = extractor.extract_qr_from_frame(16, 16, &vec![255u8; 16 * 16 * 3], 3, 1);
    assert_eq!(result.map(|codes| codes.len()).ok(), Some(0));
    assert!(extractor.detect_qr_codes_rqrr(16, 16, &vec![255u8; 256]).is_empty());
    assert!(extractor.detect_qr_codes_quircs(16, 16, &vec![0u8; 256]).is_empty());
}

#[test]
fn image_bytes_are_decoded_before_reading() {
    let extractor = QrExtractor::new(1, 0);
    assert!(extractor.qr_codes_in_image(&vec![1u8, 2, 3, 4]).is_none());
    let blank = image::GrayImage::from_pixel(16, 16, image::Luma([255u8]));
    let mut png: Vec<u8> = Vec::new();
    image::DynamicImage::ImageLuma8(blank)
        .write_to(&mut std::io::Cursor::new(&mut png), image::ImageFormat::Png)
        .unwrap();
    assert_eq!(extractor.qr_codes_in_image(&png), Some(Vec::new()));
}
