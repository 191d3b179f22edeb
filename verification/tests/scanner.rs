use fediiverse::qr::camera::CameraState;
use fediiverse::qr::frame::{RgbaFrame, TOP_HEIGHT, TOP_WIDTH};
use fediiverse::qr::scan::{found_frames, DecodeOutcome};
use fediiverse::qr::scanner::{last_grid, Scanner};
use fediiverse::ui::scan::QrScan;
use fediiverse::AppState;

/// A version 2 QR code holding "fediiverse;example.com;tok123".
const SETUP_CODE: [&str; 25] = [
        "#######..##.#.##..#######",
        "#.....#...######..#.....#",
        "#.###.#.#####.....#.###.#",
        "#.###.#..####.....#.###.#",
        "#.###.#...######..#.###.#",
        "#.....#..#.#..##..#.....#",
        "#######.#.#.#.#.#.#######",
        "........###..#.#.........",
        "###.#####.#..#...##...#..",
        "...#....#.#..#..###....##",
        "#####.##.#...##..###..###",
        "#..##...#..#.####..#.....",
        ".#.##.#......#.##.##...##",
        "..####...#......#.#..####",
        "#.###.#..#...#.......####",
        ".###.....##..###..##...##",
        "#.##..#.#.####..#####..##",
        "........###.#..##...#####",
        "#######.#.#....##.#.#####",
        "#.....#.#...###.#...#....",
        "#.###.#.#..####.######.#.",
        "#.###.#.....#.##....#....",
        "#.###.#.###.###....##...#",
        "#.....#.#######.#......#.",
        "#######.#.#..#.######..##",
];

const SCALE: usize = 6;
const LEFT: usize = 100;
const TOP: usize = 20;

fn is_dark(x: usize, y: usize) -> bool {
    if x < LEFT || y < TOP {
        return false;
    }
    let (mx, my) = ((x - LEFT) / SCALE, (y - TOP) / SCALE);
    my < 25 && mx < 25 && SETUP_CODE[my].as_bytes()[mx] == b'#'
}

/// The QR search as the application runs it: rqrr on the library's greyscale image,
/// reading the grid that `last_grid` picks.
fn search(scanner: &Scanner) -> Option<String> {
    let luma = scanner.luma();
    let w = scanner.image.width as usize;
    let h = scanner.image.height as usize;
    let mut prepared = rqrr::PreparedImage::prepare_from_greyscale(w, h, |x, y| luma[y * w + x]);
    let grids = prepared.detect_grids();
    let index = last_grid(grids.len())?;
    grids[index].decode().ok().map(|(_, text)| text)
}

fn frame_with_code(dark: [u8; 4], light: [u8; 4]) -> RgbaFrame {
    let mut frame = RgbaFrame::new(TOP_WIDTH, TOP_HEIGHT);
    for y in 0..TOP_HEIGHT as usize {
        for x in 0..TOP_WIDTH as usize {
            let px = if is_dark(x, y) { dark } else { light };
            let i = 4 * (y * TOP_WIDTH as usize + x);
            frame.pixels[i..i + 4].copy_from_slice(&px);
        }
    }
    frame
}

#[test]
fn blank_frame_has_no_code() {
    let scanner = Scanner::default();
    assert_eq!(scanner.image.width, 400);
    assert_eq!(scanner.image.height, 240);
    assert_eq!(scanner.image.pixels.len(), 400 * 240 * 4);
    assert!(scanner.image.pixels.iter().all(|b| *b == 0));
    assert_eq!(search(&scanner), None);
}

#[test]
fn reads_the_setup_code() {
    let scanner = Scanner { image: frame_with_code([0, 0, 0, 255], [255, 255, 255, 255]) };
    assert_eq!(search(&scanner).as_deref(), Some("fediiverse;example.com;tok123"));
}

#[test]
fn reads_the_setup_code_through_greyscale() {
    // dark blue on yellow: only the greyscale conversion makes these dark and light
    let scanner = Scanner { image: frame_with_code([0, 0, 255, 0], [255, 255, 0, 0]) };
    assert_eq!(search(&scanner).as_deref(), Some("fediiverse;example.com;tok123"));
}

#[test]
fn inverted_colors_have_no_code() {
    // light blue-ish on dark: the greyscale is the inverse image, which holds no code
    let scanner = Scanner { image: frame_with_code([255, 255, 0, 255], [0, 0, 255, 255]) };
    assert_eq!(search(&scanner), None);
}

#[test]
fn last_grid_is_read() {
    assert_eq!(last_grid(0), None);
    assert_eq!(last_grid(1), Some(0));
    assert_eq!(last_grid(3), Some(2));
}

#[test]
fn frames_read_from_the_end_until_a_failure() {
    let outcomes = vec![
        DecodeOutcome::Frame("a".to_string()),
        DecodeOutcome::Failure("bad".to_string()),
        DecodeOutcome::Frame("b".to_string()),
        DecodeOutcome::Frame("c".to_string()),
    ];
    assert_eq!(found_frames(&outcomes), vec!["c".to_string(), "b".to_string()]);
    assert!(found_frames(&vec![]).is_empty());
    assert!(found_frames(&vec![DecodeOutcome::Failure("x".to_string())]).is_empty());
}

fn bardecoder_frames(frame: &RgbaFrame) -> Vec<String> {
    let image: image::RgbaImage =
        image::ImageBuffer::from_raw(frame.width, frame.height, frame.pixels.clone()).unwrap();
    let outcomes: Vec<DecodeOutcome> = bardecoder::default_decoder()
        .decode(&image)
        .into_iter()
        .map(|r| match r {
            Ok(t) => DecodeOutcome::Frame(t),
            Err(e) => DecodeOutcome::Failure(e.to_string()),
        })
        .collect();
    found_frames(&outcomes)
}

#[test]
fn bardecoder_frames_on_blank_and_code() {
    let blank = fediiverse::qr::scan::Scanner::default();
    assert!(bardecoder_frames(&blank.image).is_empty());
    let scanner = fediiverse::qr::scan::Scanner {
        image: frame_with_code([0, 0, 0, 255], [255, 255, 255, 255]),
    };
    assert_eq!(
        bardecoder_frames(&scanner.image),
        vec!["fediiverse;example.com;tok123".to_string()]
    );
}

fn camera_with_code() -> CameraState {
    let mut buf = Vec::with_capacity(400 * 240 * 2);
    for y in 0..240 {
        for x in 0..400 {
            let v: u16 = if is_dark(x, y) { 0x0000 } else { 0xFFFF };
            buf.extend_from_slice(&v.to_le_bytes());
        }
    }
    CameraState { rgb565_camera_buf: buf }
}

fn run_frame(screen: &mut QrScan, state: &mut AppState) -> bool {
    let search = screen.update_state(state);
    if search {
        let text = search_text(state);
        state.record_scan(text);
    }
    search
}

fn search_text(state: &AppState) -> Option<String> {
    search(&state.scanner)
}

#[test]
fn app_state_finds_the_code_on_a_scan_frame() {
    let mut state = AppState::new(camera_with_code());
    let mut screen = QrScan::default();
    assert!(state.qr.is_none());
    assert!(state.wants_frames());
    assert!(!run_frame(&mut screen, &mut state));
    assert!(!run_frame(&mut screen, &mut state));
    assert!(state.qr.is_none());
    assert_eq!(&state.scanner.image.pixels[0..4], &[255, 255, 255, 255]);
    assert!(run_frame(&mut screen, &mut state));
    let code = state.qr.as_ref().expect("code found on the third frame");
    assert_eq!(code.setup_host, "example.com");
    assert_eq!(code.token, "tok123");
    assert_eq!(screen.scan_frame, 0);

    let setup = state.take_setup().unwrap();
    assert!(state.qr.is_none());
    assert!(!state.wants_frames());
    assert_eq!(setup.cert_url, "http://example.com/out/ca_cert.pem");
    assert_eq!(setup.storage_key, "fediiverse_token");
    assert_eq!(setup.storage_value, "tok123");
    assert!(state.take_setup().is_none());
    assert!(!state.wants_frames());
}

#[test]
fn blank_camera_finds_nothing() {
    let mut state = AppState::new(CameraState { rgb565_camera_buf: vec![0; 400 * 240 * 2] });
    let mut screen = QrScan::default();
    let mut searches = 0;
    for _ in 0..6 {
        if run_frame(&mut screen, &mut state) {
            searches += 1;
        }
    }
    assert_eq!(searches, 2);
    assert!(state.qr.is_none());
    assert!(state.take_setup().is_none());
    assert!(state.wants_frames());
}

#[test]
fn record_scan_keeps_only_setup_codes() {
    let mut state = AppState::new(CameraState::new(0));
    state.record_scan(None);
    assert!(state.qr.is_none());
    state.record_scan(Some("https://example.com".to_string()));
    assert!(state.qr.is_none());
    state.record_scan(Some("fediiverse;h;t".to_string()));
    assert_eq!(state.qr.as_ref().unwrap().setup_host, "h");
    state.record_scan(Some("not a code".to_string()));
    assert_eq!(state.qr.as_ref().unwrap().token, "t");
    state.record_scan(Some("fediiverse;h2;t2".to_string()));
    assert_eq!(state.qr.as_ref().unwrap().setup_host, "h2");
}

#[test]
fn luma_of_pixels() {
    let mut frame = RgbaFrame::new(2, 1);
    frame.pixels.copy_from_slice(&[255, 0, 0, 7, 10, 20, 30, 0]);
    assert!(frame.is_well_formed());
    let scanner = Scanner { image: frame };
    // (2126 * 255) / 10000 = 54; (2126*10 + 7152*20 + 722*30) / 10000 = 18
    assert_eq!(scanner.luma(), vec![54, 18]);
    let bad = RgbaFrame { width: 2, height: 2, pixels: vec![0; 8] };
    assert!(!bad.is_well_formed());
}
