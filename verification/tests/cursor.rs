use driftwm::state::cursor::{CursorImage, CursorState, CursorStatus, choose_frames};

fn word(bytes: &mut Vec<u8>, value: u32) {
    bytes.extend_from_slice(&value.to_le_bytes());
}

/// A cursor file of 1x1 images, each with a size, a delay and one pixel.
fn cursor_file(images: &[(u32, u32, [u8; 4])]) -> Vec<u8> {
    let mut file: Vec<u8> = b"Xcur".to_vec();
    word(&mut file, 16);
    word(&mut file, 0x1_0000);
    word(&mut file, images.len() as u32);
    let table_end = 16 + 12 * images.len() as u32;
    for (i, (size, _, _)) in images.iter().enumerate() {
        word(&mut file, 0xfffd_0002);
        word(&mut file, *size);
        word(&mut file, table_end + 40 * i as u32);
    }
    for (size, delay, pixel) in images {
        word(&mut file, 36);
        word(&mut file, 0xfffd_0002);
        word(&mut file, *size);
        word(&mut file, 1);
        word(&mut file, 1);
        word(&mut file, 1);
        word(&mut file, 0);
        word(&mut file, 1);
        word(&mut file, *delay);
        file.extend_from_slice(pixel);
    }
    file
}

#[test]
fn a_cursor_file_is_loaded() {
    let mut cursors = CursorState::new();
    let file = cursor_file(&[(24, 0, [0x12, 0x34, 0x56, 0x78])]);
    assert!(cursors.load_xcursor("default", &file, 24));
    let frames = cursors.buffers.get("default").unwrap();
    assert_eq!(frames.frames.len(), 1);
    let frame = &frames.frames[0];
    assert_eq!(frame.pixels, vec![0x12, 0x34, 0x56, 0x78]);
    assert_eq!((frame.width, frame.height), (1, 1));
    assert_eq!((frame.xhot, frame.yhot), (0, 1));
    assert_eq!(frames.total_duration_ms, 0);
    assert!(!cursors.is_animated());
}

#[test]
fn the_frames_of_the_nearest_size_are_kept() {
    let mut cursors = CursorState::new();
    let file = cursor_file(&[
        (24, 30, [1, 0, 0, 0]),
        (32, 50, [2, 0, 0, 0]),
        (24, 40, [3, 0, 0, 0]),
        (32, 60, [4, 0, 0, 0]),
    ]);
    assert!(cursors.load_xcursor("default", &file, 30));
    let frames = cursors.buffers.get("default").unwrap();
    let pixels: Vec<u8> = frames.frames.iter().map(|f| f.pixels[0]).collect();
    assert_eq!(pixels, vec![2, 4]);
    assert_eq!(frames.total_duration_ms, 110);
    assert!(cursors.is_animated());
    cursors.status = CursorStatus::Other;
    assert!(!cursors.is_animated());
    cursors.status = CursorStatus::Named("wait".to_string());
    assert!(!cursors.is_animated());
}

#[test]
fn the_first_of_two_equally_near_sizes_wins() {
    let mut cursors = CursorState::new();
    let file = cursor_file(&[(20, 0, [1, 0, 0, 0]), (28, 0, [2, 0, 0, 0])]);
    assert!(cursors.load_xcursor("x", &file, 24));
    assert_eq!(cursors.buffers.get("x").unwrap().frames[0].pixels[0], 1);
}

#[test]
fn what_is_no_cursor_file_is_not_kept() {
    let mut cursors = CursorState::new();
    assert!(!cursors.load_xcursor("default", b"not a cursor", 24));
    assert!(!cursors.buffers.contains("default"));
    assert!(!cursors.load_xcursor("default", &cursor_file(&[]), 24));
    assert!(!cursors.buffers.contains("default"));
}

#[test]
fn loaded_frames_stay() {
    let mut cursors = CursorState::new();
    assert!(cursors.load_xcursor("default", &cursor_file(&[(24, 0, [1, 0, 0, 0])]), 24));
    assert!(cursors.load_xcursor("default", &cursor_file(&[(24, 0, [2, 0, 0, 0])]), 24));
    assert!(cursors.load_xcursor("default", b"", 24));
    assert_eq!(cursors.buffers.get("default").unwrap().frames[0].pixels[0], 1);
    assert_eq!(cursors.buffers.len(), 1);
}

fn image(size: u32, delay: u32) -> CursorImage {
    CursorImage {
        size,
        width: 1,
        height: 1,
        xhot: 0,
        yhot: 0,
        delay,
        pixels: vec![],
    }
}

#[test]
fn a_cycle_adds_up_its_delays() {
    assert!(choose_frames(vec![], 24).is_none());
    let single = choose_frames(vec![image(24, 30)], 24).unwrap();
    assert_eq!(single.total_duration_ms, 0);
    let still = choose_frames(vec![image(24, 0), image(24, 0)], 24).unwrap();
    assert_eq!(still.total_duration_ms, 0);
    let long = choose_frames(vec![image(24, u32::MAX), image(24, 5)], 24).unwrap();
    assert_eq!(long.total_duration_ms, u32::MAX);
}
