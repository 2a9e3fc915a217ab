use screen_ocr::bridge::{RecognitionBridge, WORKING_TEXT};
use screen_ocr::geometry::{Point, Rect};
use screen_ocr::raster::{binarize, prepare_for_engine, FrameBuffer, GrayImage};
use screen_ocr::selection::{handle_under, DragMode, SelectionController};
use screen_ocr::session::{EngineConfig, OcrSession, ENCODE_ERROR_TEXT};
use std::sync::mpsc;

fn pt(x: i32, y: i32) -> Point {
    Point { x, y }
}

/// A frame whose pixel at (x, y) holds the bytes x, y, 7, 255.
fn frame(w: u32, h: u32) -> FrameBuffer {
    let mut px = Vec::new();
    for y in 0..h {
        for x in 0..w {
            px.extend_from_slice(&[x as u8, y as u8, 7, 255]);
        }
    }
    FrameBuffer::new(w, h, px).unwrap()
}

#[test]
fn normalization_orders_corners_and_is_idempotent() {
    let r = Rect { min: pt(110, 60), max: pt(10, 10) };
    let n = r.normalized();
    assert_eq!(n, Rect { min: pt(10, 10), max: pt(110, 60) });
    assert_eq!(n.normalized(), n);
    let mixed = Rect { min: pt(-5, 30), max: pt(20, -40) };
    let m = mixed.normalized();
    assert!(m.min.x <= m.max.x && m.min.y <= m.max.y);
    assert_eq!(m, Rect { min: pt(-5, -40), max: pt(20, 30) });
    assert_eq!(m.normalized(), m);
}

#[test]
fn union_covers_both_rectangles() {
    let a = Rect { min: pt(0, 5), max: pt(10, 15) };
    let b = Rect { min: pt(-3, 8), max: pt(4, 30) };
    assert_eq!(a.union(&b), Rect { min: pt(-3, 5), max: pt(10, 30) });
}

#[test]
fn press_without_selection_starts_one() {
    let mut c = SelectionController::new();
    assert!(c.on_pointer_down(pt(10, 10)));
    assert_eq!(c.mode, DragMode::Creating);
    assert_eq!(c.selection, Some(Rect { min: pt(10, 10), max: pt(10, 10) }));
    c.on_pointer_drag(pt(110, 60));
    assert_eq!(c.selection, Some(Rect { min: pt(10, 10), max: pt(110, 60) }));
    let done = c.on_pointer_up();
    assert_eq!(done, Some(Rect { min: pt(10, 10), max: pt(110, 60) }));
    assert_eq!(c.mode, DragMode::Idle);
    assert_eq!(c.drag_start, None);
}

#[test]
fn drag_up_and_left_is_normalized() {
    let mut c = SelectionController::new();
    c.on_pointer_down(pt(100, 100));
    c.on_pointer_drag(pt(20, 30));
    assert_eq!(c.on_pointer_up(), Some(Rect { min: pt(20, 30), max: pt(100, 100) }));
}

#[test]
fn press_on_corner_resizes_it() {
    let mut c = SelectionController::new();
    c.on_pointer_down(pt(10, 10));
    c.on_pointer_drag(pt(110, 60));
    c.on_pointer_up();
    assert!(!c.on_pointer_down(pt(112, 63)));
    assert_eq!(c.mode, DragMode::BottomRight);
    c.on_pointer_drag(pt(150, 90));
    assert_eq!(c.selection, Some(Rect { min: pt(10, 10), max: pt(150, 90) }));
    c.on_pointer_up();
    assert!(!c.on_pointer_down(pt(9, 11)));
    assert_eq!(c.mode, DragMode::TopLeft);
    c.on_pointer_drag(pt(0, 0));
    assert_eq!(c.selection, Some(Rect { min: pt(0, 0), max: pt(150, 90) }));
}

#[test]
fn handle_radius_is_strict() {
    let sel = Rect { min: pt(10, 10), max: pt(110, 60) };
    assert_eq!(handle_under(&sel, pt(110, 10)), DragMode::TopRight);
    assert_eq!(handle_under(&sel, pt(10, 60)), DragMode::BottomLeft);
    assert_eq!(handle_under(&sel, pt(17, 10)), DragMode::TopLeft);
    assert_eq!(handle_under(&sel, pt(18, 10)), DragMode::Creating);
    assert_eq!(handle_under(&sel, pt(15, 16)), DragMode::TopLeft);
    assert_eq!(handle_under(&sel, pt(16, 16)), DragMode::Creating);
    assert_eq!(handle_under(&sel, pt(60, 30)), DragMode::Creating);
}

#[test]
fn press_elsewhere_starts_a_new_selection() {
    let mut c = SelectionController::new();
    c.on_pointer_down(pt(10, 10));
    c.on_pointer_drag(pt(110, 60));
    c.on_pointer_up();
    assert!(c.on_pointer_down(pt(50, 30)));
    assert_eq!(c.selection, Some(Rect { min: pt(50, 30), max: pt(50, 30) }));
}

#[test]
fn press_during_drag_changes_nothing() {
    let mut c = SelectionController::new();
    c.on_pointer_down(pt(10, 10));
    c.on_pointer_drag(pt(40, 40));
    assert!(!c.on_pointer_down(pt(90, 90)));
    assert_eq!(c.mode, DragMode::Creating);
    assert_eq!(c.selection, Some(Rect { min: pt(10, 10), max: pt(40, 40) }));
}

#[test]
fn frame_buffer_checks_its_size() {
    assert!(FrameBuffer::new(2, 2, vec![0; 16]).is_some());
    assert!(FrameBuffer::new(2, 2, vec![0; 15]).is_none());
    assert!(GrayImage::new(3, 2, vec![0; 6]).is_some());
    assert!(GrayImage::new(3, 2, vec![0; 7]).is_none());
}

#[test]
fn extract_copies_the_selected_block() {
    let f = frame(200, 200);
    let sel = Rect { min: pt(110, 60), max: pt(10, 10) };
    assert_eq!(f.crop_bounds(&sel), (10, 10, 100, 50));
    let c = f.extract(&sel).unwrap();
    assert_eq!((c.width, c.height), (100, 50));
    assert_eq!(c.pixels.len(), 100 * 50 * 4);
    assert_eq!(&c.pixels[0..4], &[10, 10, 7, 255]);
    let last = (49 * 100 + 99) * 4;
    assert_eq!(&c.pixels[last..last + 4], &[109, 59, 7, 255]);
}

#[test]
fn extract_is_cut_to_the_frame() {
    let f = frame(20, 10);
    let sel = Rect { min: pt(-5, -5), max: pt(30, 30) };
    assert_eq!(f.crop_bounds(&sel), (0, 0, 20, 10));
    let sel = Rect { min: pt(15, 5), max: pt(40, 40) };
    let c = f.extract(&sel).unwrap();
    assert_eq!((c.width, c.height), (5, 5));
    assert_eq!(&c.pixels[0..4], &[15, 5, 7, 255]);
}

#[test]
fn empty_selection_extracts_nothing() {
    let f = frame(20, 10);
    assert!(f.extract(&Rect { min: pt(5, 5), max: pt(5, 9) }).is_none());
    assert!(f.extract(&Rect { min: pt(25, 2), max: pt(30, 8) }).is_none());
}

#[test]
fn png_encoding_writes_a_png_file() {
    let f = frame(3, 2);
    let png = f.encode_png().unwrap();
    assert_eq!(&png[0..8], &[0x89, b'P', b'N', b'G', 0x0d, 0x0a, 0x1a, 0x0a]);
    assert_ne!(png, f.pixels);
}

#[test]
fn binarize_splits_at_the_midpoint() {
    assert_eq!(binarize(&vec![0, 127, 128, 129, 255]), vec![0, 0, 0, 255, 255]);
    assert!(binarize(&Vec::new()).is_empty());
}

#[test]
fn engine_input_is_twice_the_size() {
    let g = GrayImage::new(3, 2, vec![10, 200, 130, 0, 255, 128]).unwrap();
    let p = prepare_for_engine(&g);
    assert_eq!((p.width, p.height), (6, 4));
    assert_eq!(p.pixels.len(), 24);
}

#[test]
fn engine_config_defaults_and_clamps() {
    let mut c = EngineConfig::new();
    assert_eq!(c.lang, "eng");
    assert_eq!((c.psm, c.oem, c.dpi), (Some(6), Some(3), Some(150)));
    c.set_psm(20);
    c.set_oem(-1);
    c.set_dpi(10);
    assert_eq!((c.psm, c.oem, c.dpi), (Some(13), Some(0), Some(50)));
    c.set_dpi(1000);
    c.set_psm(4);
    assert_eq!((c.psm, c.dpi), (Some(4), Some(300)));
}

#[test]
fn second_job_is_refused_while_one_runs() {
    let mut b = RecognitionBridge::new();
    let mut text = String::from("old");
    let (tx1, rx1) = mpsc::channel();
    let (tx2, rx2) = mpsc::channel::<String>();
    assert!(b.try_submit(rx1, &mut text));
    assert_eq!(text, WORKING_TEXT);
    assert!(b.is_working());
    assert!(!b.try_submit(rx2, &mut text));
    assert_eq!(text, WORKING_TEXT);
    // the refused job's channel is not watched
    assert!(tx2.send("stale".to_string()).is_err());
    tx1.send("first".to_string()).unwrap();
    b.poll(&mut text);
    assert_eq!(text, "first");
    assert!(b.is_working());
}

#[test]
fn chunks_arrive_in_order_until_the_sender_goes() {
    let mut b = RecognitionBridge::new();
    let mut text = String::new();
    let (tx, rx) = mpsc::channel();
    assert!(b.try_submit(rx, &mut text));
    b.poll(&mut text);
    assert_eq!(text, WORKING_TEXT);
    tx.send("Hel".to_string()).unwrap();
    tx.send("lo".to_string()).unwrap();
    b.poll(&mut text);
    assert_eq!(text, "Hello");
    tx.send(" world".to_string()).unwrap();
    drop(tx);
    b.poll(&mut text);
    assert_eq!(text, "Hello world");
    assert!(!b.is_working());
    b.poll(&mut text);
    assert_eq!(text, "Hello world");
}

#[test]
fn absorb_replaces_the_working_text_once() {
    let mut b = RecognitionBridge::new();
    let mut text = String::from("old");
    let (_tx, rx) = mpsc::channel::<String>();
    assert!(b.try_submit(rx, &mut text));
    b.absorb(&Vec::new(), false, &mut text);
    assert_eq!(text, WORKING_TEXT);
    b.absorb(&vec!["a".to_string(), WORKING_TEXT.to_string()], false, &mut text);
    assert_eq!(text, format!("a{}", WORKING_TEXT));
    b.absorb(&vec!["x".to_string()], false, &mut text);
    assert_eq!(text, format!("a{}x", WORKING_TEXT));
}

#[test]
fn chunk_that_spells_the_working_text_is_kept() {
    let mut b = RecognitionBridge::new();
    let mut text = String::new();
    b.absorb(&vec![WORKING_TEXT.to_string(), "x".to_string()], false, &mut text);
    assert_eq!(text, format!("{}x", WORKING_TEXT));
    let mut other = String::from(WORKING_TEXT);
    b.absorb(&vec!["y".to_string()], true, &mut other);
    assert_eq!(other, format!("{}y", WORKING_TEXT));
    assert_eq!(WORKING_TEXT, "Analizando imagen con IA...");
}

#[test]
fn session_scenario_local_engine() {
    let mut s = OcrSession::new(frame(200, 200));
    assert_eq!(s.selection.mode, DragMode::Idle);
    assert_eq!(s.selection.drag_start, None);
    assert_eq!(s.engine.lang, "eng");
    assert_eq!((s.engine.psm, s.engine.oem, s.engine.dpi), (Some(6), Some(3), Some(150)));
    s.pointer_down(pt(10, 10));
    s.pointer_drag(pt(110, 60));
    let sel = s.pointer_up().unwrap();
    assert_eq!(sel, Rect { min: pt(10, 10), max: pt(110, 60) });
    let crop = s.selection_crop().unwrap();
    assert_eq!((crop.width, crop.height), (100, 50));
    let out = "level\tpage_num\tblock_num\tpar_num\tline_num\tword_num\tleft\ttop\twidth\theight\tconf\ttext\n\
               5\t1\t1\t1\t1\t1\t20\t5\t40\t10\t92.5\tHello\n";
    s.apply_engine_output(out);
    assert_eq!(s.words.len(), 1);
    assert_eq!(s.words[0].text, "Hello");
    assert_eq!(s.words[0].bbox, Rect { min: pt(20, 5), max: pt(60, 15) });
    assert_eq!(s.lines.len(), 1);
    assert_eq!(s.lines[0].words.len(), 1);
    assert_eq!(s.results, "Hello");
    // a press off the handles starts a new selection and drops the results
    s.pointer_down(pt(150, 150));
    assert!(s.words.is_empty());
    assert!(s.lines.is_empty());
}

#[test]
fn session_engine_failure_drops_words_only() {
    let mut s = OcrSession::new(frame(50, 50));
    s.apply_engine_output("h\n5\t1\t1\t1\t1\t1\t0\t0\t4\t4\t88\tok\n");
    assert_eq!(s.results, "ok");
    s.apply_engine_failure();
    assert!(s.words.is_empty() && s.lines.is_empty());
    assert_eq!(s.results, "ok");
}

#[test]
fn session_submission_and_polling() {
    let mut s = OcrSession::new(frame(50, 50));
    assert!(s.prepare_submission().is_none());
    s.pointer_down(pt(5, 5));
    s.pointer_drag(pt(5, 20));
    s.pointer_up();
    assert!(s.prepare_submission().is_none());
    s.pointer_down(pt(30, 30));
    s.pointer_drag(pt(40, 45));
    s.pointer_up();
    let png = s.prepare_submission().unwrap();
    assert_eq!(&png[1..4], b"PNG");
    assert_ne!(s.results, ENCODE_ERROR_TEXT);
    let (tx, rx) = mpsc::channel();
    assert!(s.begin_job(rx));
    assert!(s.needs_redraw());
    assert!(s.prepare_submission().is_none());
    let (_tx2, rx2) = mpsc::channel();
    assert!(!s.begin_job(rx2));
    tx.send("text".to_string()).unwrap();
    drop(tx);
    s.poll();
    assert_eq!(s.results, "text");
    assert!(!s.needs_redraw());
}

#[test]
fn gray_has_one_byte_per_pixel() {
    let f = frame(5, 3);
    let g = f.to_gray();
    assert_eq!((g.width, g.height), (5, 3));
    assert_eq!(g.pixels.len(), 15);
    let white = FrameBuffer::new(1, 1, vec![255, 255, 255, 255]).unwrap();
    assert_eq!(white.to_gray().pixels, vec![255]);
}
