use screen_ocr::geometry::Point;
use screen_ocr::paddle::{length_prefix, read_length_prefix, unframe_message, frame_message, PaddleClient};
use screen_ocr::vision::{
    image_base64, GeminiClient, GeminiFailure, GeminiOutcome, OllamaClient, PromptMode, StreamAction, StreamEvent,
    EXTRACT_PROMPT, TRANSLATE_PROMPT,
};

#[test]
fn length_prefix_is_big_endian() {
    assert_eq!(length_prefix(0), vec![0; 8]);
    assert_eq!(length_prefix(258), vec![0, 0, 0, 0, 0, 0, 1, 2]);
    assert_eq!(length_prefix(u64::MAX), vec![255; 8]);
    assert_eq!(read_length_prefix(&[0, 0, 0, 0, 0, 0, 1, 2]), 258);
    assert_eq!(read_length_prefix(&[1, 0, 0, 0, 0, 0, 0, 0]), 1u64 << 56);
}

#[test]
fn frame_round_trip() {
    let payload = vec![9u8, 8, 7, 6, 5];
    let f = frame_message(&payload);
    assert_eq!(f.len(), 13);
    assert_eq!(&f[0..8], &[0, 0, 0, 0, 0, 0, 0, 5]);
    assert_eq!(unframe_message(&f), Some(payload));
    let empty = frame_message(&Vec::new());
    assert_eq!(empty, vec![0; 8]);
    assert_eq!(unframe_message(&empty), Some(Vec::new()));
}

#[test]
fn bad_frames_are_refused() {
    assert_eq!(unframe_message(&vec![0, 0, 0]), None);
    assert_eq!(unframe_message(&vec![0, 0, 0, 0, 0, 0, 0, 2, 1]), None);
    assert_eq!(unframe_message(&vec![0, 0, 0, 0, 0, 0, 0, 0, 1]), None);
}

#[test]
fn client_frames_requests_and_reads_lengths() {
    let c = PaddleClient::new();
    assert_eq!(c.request_frame(&vec![1, 2]), vec![0, 0, 0, 0, 0, 0, 0, 2, 1, 2]);
    assert_eq!(c.response_length(&[0, 0, 0, 0, 0, 0, 0x10, 0]), 4096);
}

#[test]
fn scenario_results_pair_texts_with_polygons() {
    let texts = vec!["A".to_string(), "B".to_string()];
    let polys = vec![vec![Point { x: 0, y: 0 }], vec![Point { x: 1, y: 1 }]];
    let r = PaddleClient::zip_results(&texts, &polys);
    assert_eq!(r.len(), 2);
    assert_eq!(r[0].text, "A");
    assert_eq!(r[0].coordinates, vec![Point { x: 0, y: 0 }]);
    assert_eq!(r[1].text, "B");
    assert_eq!(r[1].coordinates, vec![Point { x: 1, y: 1 }]);
}

#[test]
fn extra_texts_or_polygons_are_left_out() {
    let texts = vec!["A".to_string(), "B".to_string(), "C".to_string()];
    let polys = vec![vec![Point { x: 0, y: 0 }]];
    assert_eq!(PaddleClient::zip_results(&texts, &polys).len(), 1);
    assert!(PaddleClient::zip_results(&Vec::new(), &polys).is_empty());
}

#[test]
fn empty_or_failed_responses_give_no_results() {
    let c = PaddleClient::new();
    let decoded = Some((vec!["A".to_string()], vec![vec![Point { x: 3, y: 4 }]]));
    assert!(c.response_results(0, decoded).is_empty());
    assert!(c.response_results(12, None).is_empty());
    let decoded = Some((vec!["A".to_string()], vec![vec![Point { x: 3, y: 4 }]]));
    let r = c.response_results(12, decoded);
    assert_eq!(r.len(), 1);
    assert_eq!(r[0].text, "A");
}

#[test]
fn images_are_sent_as_padded_base64() {
    assert_eq!(image_base64(&b"hello".to_vec()), "aGVsbG8=");
    assert_eq!(image_base64(&b"hel".to_vec()), "aGVs");
    assert_eq!(image_base64(&Vec::new()), "");
}

#[test]
fn gemini_request_and_endpoint() {
    let g = GeminiClient::new();
    assert_eq!(g.model, "gemini-2.5-flash-lite");
    assert_eq!(g.prompt, EXTRACT_PROMPT);
    assert_eq!(
        g.endpoint(),
        "https://generativelanguage.googleapis.com/v1beta/models/gemini-2.5-flash-lite:generateContent"
    );
    let body = g.request_body(&vec![0xff, 0x00]);
    assert_eq!(body.prompt, EXTRACT_PROMPT);
    assert_eq!(body.mime_type, "image/png");
    assert_eq!(body.data, "/wA=");
    assert_eq!(GeminiClient::with_mode(PromptMode::Translate).prompt, TRANSLATE_PROMPT);
}

#[test]
fn gemini_answer_is_first_part_of_first_candidate() {
    let c = vec![vec!["first".to_string(), "second".to_string()], vec!["other".to_string()]];
    assert_eq!(GeminiClient::answer_text(&c), "first");
    assert_eq!(GeminiClient::answer_text(&Vec::new()), "");
    assert_eq!(GeminiClient::answer_text(&vec![Vec::new()]), "");
}

#[test]
fn failures_become_text_chunks() {
    assert_eq!(
        GeminiClient::failure_chunk(GeminiFailure::Network, "refused"),
        "[gemini.rs] Error de red: refused"
    );
    assert_eq!(
        GeminiClient::failure_chunk(GeminiFailure::Decode, "eof"),
        "[gemini.rs] Error al decodificar JSON: eof"
    );
    assert_eq!(GeminiClient::failure_chunk(GeminiFailure::Api, "403"), "[gemini.rs] Error de API: 403");
    assert_eq!(
        OllamaClient::start_failure_chunk("no daemon"),
        "[ollama.rs] No se pudo iniciar el stream: no daemon"
    );
}

#[test]
fn stream_events_decide_the_next_step() {
    let o = OllamaClient::new();
    assert_eq!(o.model, "gemma3:4b");
    match OllamaClient::next_action(StreamEvent::Texts(vec!["a".to_string(), "b".to_string()])) {
        StreamAction::Forward(v) => assert_eq!(v, vec!["a".to_string(), "b".to_string()]),
        _ => panic!("expected forward"),
    }
    match OllamaClient::next_action(StreamEvent::Failed("eof".to_string())) {
        StreamAction::Report(m) => assert_eq!(m, "[ollama.rs] Error en el stream: eof"),
        _ => panic!("expected report"),
    }
    assert!(matches!(OllamaClient::next_action(StreamEvent::Ended), StreamAction::Stop));
}

fn decode_response(body: &str) -> Option<(Vec<String>, Vec<Vec<Point>>)> {
    let v: serde_json::Value = serde_json::from_str(body).ok()?;
    let res = v.get("res")?;
    let texts = res
        .get("rec_texts")?
        .as_array()?
        .iter()
        .map(|t| t.as_str().map(|s| s.to_string()))
        .collect::<Option<Vec<String>>>()?;
    let mut polys = Vec::new();
    for poly in res.get("rec_polys")?.as_array()? {
        let mut points = Vec::new();
        for p in poly.as_array()? {
            let xy = p.as_array()?;
            points.push(Point { x: xy[0].as_f64()?.round() as i32, y: xy[1].as_f64()?.round() as i32 });
        }
        polys.push(points);
    }
    Some((texts, polys))
}

#[test]
fn scenario_socket_response_json() {
    let body = r#"{"res":{"rec_texts":["A","B"],"rec_polys":[[[0,0]],[[1,1]]]}}"#;
    let mut framed = screen_ocr::paddle::length_prefix(body.len() as u64);
    framed.extend_from_slice(body.as_bytes());
    let payload = unframe_message(&framed).unwrap();
    let c = PaddleClient::new();
    let mut header = [0u8; 8];
    header.copy_from_slice(&framed[0..8]);
    let len = c.response_length(&header);
    assert_eq!(len as usize, body.len());
    let decoded = decode_response(std::str::from_utf8(&payload).unwrap());
    let r = c.response_results(len, decoded);
    assert_eq!(r.len(), 2);
    assert_eq!((r[0].text.as_str(), r[0].coordinates.clone()), ("A", vec![Point { x: 0, y: 0 }]));
    assert_eq!((r[1].text.as_str(), r[1].coordinates.clone()), ("B", vec![Point { x: 1, y: 1 }]));
    assert!(c.response_results(len, decode_response("{not json")).is_empty());
}

#[test]
fn gemini_outcomes_become_one_chunk() {
    let answer = GeminiOutcome::Answer(vec![vec!["texto".to_string()]]);
    assert_eq!(GeminiClient::outcome_chunk(&answer), "texto");
    assert_eq!(GeminiClient::outcome_chunk(&GeminiOutcome::Answer(Vec::new())), "");
    assert_eq!(
        GeminiClient::outcome_chunk(&GeminiOutcome::ApiError("403 Forbidden".to_string(), Some("denied".to_string()))),
        "[gemini.rs] Error de API: 403 Forbidden - denied"
    );
    assert_eq!(
        GeminiClient::outcome_chunk(&GeminiOutcome::ApiError("500".to_string(), None)),
        "[gemini.rs] Error de API: 500 - Cuerpo del error ilegible"
    );
    assert_eq!(
        GeminiClient::outcome_chunk(&GeminiOutcome::NetworkError("dns".to_string())),
        "[gemini.rs] Error de red: dns"
    );
    assert_eq!(
        GeminiClient::outcome_chunk(&GeminiOutcome::DecodeError("eof".to_string())),
        "[gemini.rs] Error al decodificar JSON: eof"
    );
}

#[test]
fn png_encoding_fails_only_on_empty_images() {
    let empty = screen_ocr::raster::FrameBuffer::new(0, 3, Vec::new()).unwrap();
    assert!(empty.encode_png().is_err());
}
