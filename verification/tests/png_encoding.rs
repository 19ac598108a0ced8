use paragraph_layout::encode::{encoding_outcome, rgba_buffer_len, save_png};
use paragraph_layout::error::OutputError;

const SIGNATURE: [u8; 8] = [137, 80, 78, 71, 13, 10, 26, 10];

fn decode(bytes: &[u8]) -> (u32, u32, png::ColorType, png::BitDepth, Vec<u8>) {
    let decoder = png::Decoder::new(std::io::Cursor::new(bytes.to_vec()));
    let mut reader = decoder.read_info().unwrap();
    let mut buffer = vec![0; reader.output_buffer_size().unwrap()];
    let info = reader.next_frame(&mut buffer).unwrap();
    buffer.truncate(info.buffer_size());
    (info.width, info.height, info.color_type, info.bit_depth, buffer)
}

#[test]
fn rgba_buffer_len_is_four_bytes_per_pixel() {
    assert_eq!(rgba_buffer_len(320, 240), Some(307_200));
    assert_eq!(rgba_buffer_len(1, 1), Some(4));
    assert_eq!(rgba_buffer_len(0, 240), Some(0));
    assert_eq!(rgba_buffer_len(320, 0), Some(0));
}

#[test]
fn rgba_buffer_len_refuses_what_cannot_be_addressed() {
    assert_eq!(rgba_buffer_len(u32::MAX, u32::MAX), None);
}

#[test]
fn save_png_writes_a_stream_that_decodes_to_the_pixels() {
    let pixels: Vec<u8> = vec![255, 0, 0, 255, 0, 255, 0, 128, 0, 0, 255, 0, 9, 8, 7, 6, 5, 4, 3, 2, 1, 0, 1, 2];
    let bytes = save_png(true, 3, 2, &pixels).unwrap();
    assert_eq!(&bytes[..8], &SIGNATURE);
    assert_ne!(bytes, pixels);
    let (width, height, color, depth, decoded) = decode(&bytes);
    assert_eq!((width, height), (3, 2));
    assert_eq!(color, png::ColorType::Rgba);
    assert_eq!(depth, png::BitDepth::Eight);
    assert_eq!(decoded, pixels);
}

#[test]
fn save_png_takes_a_whole_surface() {
    let len = rgba_buffer_len(320, 240).unwrap();
    let pixels: Vec<u8> = (0..len).map(|i| (i % 251) as u8).collect();
    let bytes = save_png(true, 320, 240, &pixels).unwrap();
    let (width, height, _, _, decoded) = decode(&bytes);
    assert_eq!((width, height), (320, 240));
    assert_eq!(decoded, pixels);
}

#[test]
fn save_png_gives_the_same_stream_for_the_same_image() {
    let pixels: Vec<u8> = (0..64).collect();
    assert_eq!(save_png(true, 4, 4, &pixels), save_png(true, 4, 4, &pixels));
    assert_ne!(save_png(true, 4, 4, &pixels), save_png(true, 2, 8, &pixels));
}

#[test]
fn save_png_reports_a_failed_read() {
    let pixels: Vec<u8> = vec![0; 16];
    assert_eq!(save_png(false, 2, 2, &pixels), Err(OutputError::SurfaceReadFailed));
    assert_eq!(save_png(false, 0, 0, &vec![]), Err(OutputError::SurfaceReadFailed));
    assert_eq!(save_png(false, 2, 2, &vec![1, 2, 3]), Err(OutputError::SurfaceReadFailed));
}

#[test]
fn save_png_refuses_a_buffer_of_the_wrong_length() {
    assert_eq!(save_png(true, 2, 2, &vec![0; 15]), Err(OutputError::EncodeFailed));
    assert_eq!(save_png(true, 2, 2, &vec![0; 17]), Err(OutputError::EncodeFailed));
    assert_eq!(save_png(true, 2, 2, &vec![]), Err(OutputError::EncodeFailed));
}

#[test]
fn save_png_refuses_an_empty_image() {
    assert_eq!(save_png(true, 0, 2, &vec![]), Err(OutputError::EncodeFailed));
    assert_eq!(save_png(true, 2, 0, &vec![]), Err(OutputError::EncodeFailed));
    assert_eq!(save_png(true, 0, 0, &vec![]), Err(OutputError::EncodeFailed));
}

#[test]
fn save_png_refuses_what_cannot_be_addressed() {
    assert_eq!(save_png(true, u32::MAX, u32::MAX, &vec![0; 4]), Err(OutputError::EncodeFailed));
}

#[test]
fn encoding_outcome_passes_the_stream_on() {
    assert_eq!(encoding_outcome(Ok(vec![1, 2, 3])), Ok(vec![1, 2, 3]));
    assert_eq!(encoding_outcome(Ok(vec![])), Ok(vec![]));
}

#[test]
fn encoding_outcome_reports_an_encoder_error() {
    let refused = png::Encoder::new(Vec::new(), 0, 0).write_header().err().unwrap();
    assert_eq!(encoding_outcome(Err(refused)), Err(OutputError::EncodeFailed));
}
