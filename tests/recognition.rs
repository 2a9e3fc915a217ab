use screen_ocr::engine::{parse_decimal, parse_engine_output, parse_int, parse_row, Confidence};
use screen_ocr::geometry::{Point, Rect};
use screen_ocr::lines::{group_words_into_lines, lines_string, sort_reading_order};
use screen_ocr::engine::RecognizedWord;

fn chars(s: &str) -> Vec<char> {
    s.chars().collect()
}

fn row(x: &str, y: &str, w: &str, h: &str, conf: &str, text: &str) -> String {
    format!("5\t1\t1\t1\t1\t1\t{}\t{}\t{}\t{}\t{}\t{}", x, y, w, h, conf, text)
}

fn word(text: &str, x: i32, y: i32, w: i32, h: i32) -> RecognizedWord {
    RecognizedWord {
        text: text.to_string(),
        confidence: Confidence { value: 90, decimals: 0 },
        bbox: Rect { min: Point { x, y }, max: Point { x: x + w, y: y + h } },
    }
}

const HEADER: &str = "level\tpage_num\tblock_num\tpar_num\tline_num\tword_num\tleft\ttop\twidth\theight\tconf\ttext";

#[test]
fn decimal_fields_parse_exactly() {
    assert_eq!(parse_decimal(&chars("92.5")), Some(Confidence { value: 925, decimals: 1 }));
    assert_eq!(parse_decimal(&chars("96.063385")), Some(Confidence { value: 96063385, decimals: 6 }));
    assert_eq!(parse_decimal(&chars("-1")), Some(Confidence { value: -1, decimals: 0 }));
    assert_eq!(parse_decimal(&chars(".5")), Some(Confidence { value: 5, decimals: 1 }));
    assert_eq!(parse_decimal(&chars("")), None);
    assert_eq!(parse_decimal(&chars(".")), None);
    assert_eq!(parse_decimal(&chars("1.2.3")), None);
    assert_eq!(parse_decimal(&chars("abc")), None);
}

#[test]
fn integer_fields_parse_exactly() {
    assert_eq!(parse_int(&chars("20")), Some(20));
    assert_eq!(parse_int(&chars("-7")), Some(-7));
    assert_eq!(parse_int(&chars("+7")), Some(7));
    assert_eq!(parse_int(&chars("")), None);
    assert_eq!(parse_int(&chars("2.0")), None);
    assert_eq!(parse_int(&chars("1234567890")), None);
}

#[test]
fn row_above_threshold_gives_word() {
    let w = parse_row(&chars(&row("20", "5", "40", "10", "50.01", "Hi"))).unwrap();
    assert_eq!(w.text, "Hi");
    assert_eq!(w.confidence, Confidence { value: 5001, decimals: 2 });
    assert_eq!(w.bbox, Rect { min: Point { x: 20, y: 5 }, max: Point { x: 60, y: 15 } });
}

#[test]
fn row_at_or_below_threshold_gives_nothing() {
    assert!(parse_row(&chars(&row("20", "5", "40", "10", "50.0", "Hi"))).is_none());
    assert!(parse_row(&chars(&row("20", "5", "40", "10", "50", "Hi"))).is_none());
    assert!(parse_row(&chars(&row("20", "5", "40", "10", "49.9", "Hi"))).is_none());
    assert!(parse_row(&chars(&row("20", "5", "40", "10", "-1", ""))).is_none());
}

#[test]
fn blank_text_gives_nothing() {
    assert!(parse_row(&chars(&row("20", "5", "40", "10", "95", "   "))).is_none());
    assert!(parse_row(&chars(&row("20", "5", "40", "10", "95", ""))).is_none());
}

#[test]
fn rows_of_wrong_width_are_skipped() {
    assert!(parse_row(&chars("1\t2\t3")).is_none());
    assert!(parse_row(&chars("")).is_none());
    let eleven = "5\t1\t1\t1\t1\t20\t5\t40\t10\t95\tHi";
    assert!(parse_row(&chars(eleven)).is_none());
    let thirteen = format!("{}\textra", row("20", "5", "40", "10", "95", "Hi"));
    assert!(parse_row(&chars(&thirteen)).is_none());
    let out = format!("{}\n{}\n{}\n", HEADER, eleven, thirteen);
    assert!(parse_engine_output(&out).is_empty());
}

#[test]
fn malformed_numbers_skip_the_row() {
    assert!(parse_row(&chars(&row("x", "5", "40", "10", "95", "Hi"))).is_none());
    assert!(parse_row(&chars(&row("20", "5", "40", "10", "high", "Hi"))).is_none());
}

#[test]
fn header_is_skipped_and_rows_kept_in_order() {
    let out = format!(
        "{}\r\n{}\r\n{}\r\n{}",
        HEADER,
        row("0", "0", "10", "10", "91", "one"),
        row("0", "0", "10", "10", "10", "low"),
        row("20", "0", "10", "10", "99.5", "two")
    );
    let words = parse_engine_output(&out);
    assert_eq!(words.len(), 2);
    assert_eq!(words[0].text, "one");
    assert_eq!(words[1].text, "two");
    assert_eq!(words[1].confidence, Confidence { value: 995, decimals: 1 });
}

#[test]
fn empty_output_gives_no_words() {
    assert!(parse_engine_output("").is_empty());
    assert!(parse_engine_output(HEADER).is_empty());
}

#[test]
fn scenario_single_word_single_line() {
    let out = format!("{}\n{}\n", HEADER, "5\t1\t1\t1\t1\t1\t20\t5\t40\t10\t92.5\tHello");
    let words = parse_engine_output(&out);
    assert_eq!(words.len(), 1);
    assert_eq!(words[0].text, "Hello");
    assert_eq!(words[0].confidence, Confidence { value: 925, decimals: 1 });
    assert_eq!(words[0].bbox.min, Point { x: 20, y: 5 });
    assert_eq!(words[0].bbox.width(), 40);
    assert_eq!(words[0].bbox.height(), 10);
    let lines = group_words_into_lines(&words);
    assert_eq!(lines.len(), 1);
    assert_eq!(lines[0].words.len(), 1);
    assert_eq!(lines[0].words[0].text, "Hello");
    assert_eq!(lines[0].bbox, words[0].bbox);
    assert_eq!(lines_string(&lines), "Hello");
}

#[test]
fn words_sort_top_to_bottom_then_left_to_right() {
    let ws = vec![word("c", 50, 30, 5, 5), word("b", 40, 0, 5, 5), word("a", 0, 0, 5, 5)];
    let sorted = sort_reading_order(&ws);
    let texts: Vec<&str> = sorted.iter().map(|w| w.text.as_str()).collect();
    assert_eq!(texts, vec!["a", "b", "c"]);
}

#[test]
fn sort_keeps_order_of_equal_positions() {
    let ws = vec![word("first", 0, 0, 5, 5), word("second", 0, 0, 5, 5)];
    let sorted = sort_reading_order(&ws);
    assert_eq!(sorted[0].text, "first");
    assert_eq!(sorted[1].text, "second");
}

#[test]
fn nearby_words_share_a_line_with_union_box() {
    let ws = vec![word("world", 60, 2, 40, 10), word("hello", 10, 0, 40, 12)];
    let lines = group_words_into_lines(&ws);
    assert_eq!(lines.len(), 1);
    assert_eq!(lines[0].words[0].text, "hello");
    assert_eq!(lines[0].words[1].text, "world");
    assert_eq!(lines[0].bbox, Rect { min: Point { x: 10, y: 0 }, max: Point { x: 100, y: 12 } });
    assert_eq!(lines_string(&lines), "hello world");
}

#[test]
fn far_words_start_new_lines() {
    // the second word is 60 units right of the first: outside the band
    let ws = vec![word("left", 0, 0, 40, 10), word("right", 100, 0, 40, 10)];
    assert_eq!(group_words_into_lines(&ws).len(), 2);
    // the second word's top is 50 units below the first's bottom
    let ws = vec![word("up", 0, 0, 40, 10), word("down", 45, 60, 40, 10)];
    assert_eq!(group_words_into_lines(&ws).len(), 2);
    // 49 units below still joins
    let ws = vec![word("up", 0, 0, 40, 10), word("down", 45, 59, 40, 10)];
    assert_eq!(group_words_into_lines(&ws).len(), 1);
}

#[test]
fn grouping_is_the_same_for_any_input_order() {
    let a = vec![
        word(" one", 0, 0, 30, 10),
        word("two ", 35, 1, 30, 10),
        word("three", 0, 100, 30, 10),
        word("four", 200, 100, 30, 10),
    ];
    let b = vec![a[3].clone(), a[1].clone(), a[2].clone(), a[0].clone()];
    let la = group_words_into_lines(&a);
    let lb = group_words_into_lines(&b);
    assert_eq!(la.len(), 3);
    assert_eq!(la.len(), lb.len());
    for (x, y) in la.iter().zip(lb.iter()) {
        assert_eq!(x.bbox, y.bbox);
        let tx: Vec<&str> = x.words.iter().map(|w| w.text.as_str()).collect();
        let ty: Vec<&str> = y.words.iter().map(|w| w.text.as_str()).collect();
        assert_eq!(tx, ty);
    }
    assert_eq!(lines_string(&la), "one two three four");
    assert_eq!(lines_string(&la), lines_string(&lb));
}

#[test]
fn grouping_no_words_gives_no_lines() {
    assert!(group_words_into_lines(&Vec::new()).is_empty());
    assert_eq!(lines_string(&Vec::new()), "");
}

#[test]
fn line_boxes_map_back_to_crop_space() {
    let lines = group_words_into_lines(&vec![word("Hello", 20, 5, 40, 10)]);
    assert_eq!(lines[0].crop_local_bbox(), Rect { min: Point { x: 10, y: 2 }, max: Point { x: 30, y: 7 } });
    let r = Rect { min: Point { x: -3, y: -4 }, max: Point { x: 7, y: 1 } };
    assert_eq!(r.halved(), Rect { min: Point { x: -2, y: -2 }, max: Point { x: 3, y: 0 } });
}

#[test]
fn inserting_a_malformed_row_changes_nothing() {
    let good = row("0", "0", "10", "10", "91", "one");
    let good2 = row("20", "0", "10", "10", "99", "two");
    let out1 = format!("{}\n{}\n{}\n", HEADER, good, good2);
    let out2 = format!("{}\n{}\n1\t2\t3\n{}\n", HEADER, good, good2);
    let w1 = parse_engine_output(&out1);
    let w2 = parse_engine_output(&out2);
    assert_eq!(w1.len(), w2.len());
    for (a, b) in w1.iter().zip(w2.iter()) {
        assert_eq!((a.text.as_str(), a.confidence, a.bbox), (b.text.as_str(), b.confidence, b.bbox));
    }
    assert_eq!(lines_string(&group_words_into_lines(&w1)), lines_string(&group_words_into_lines(&w2)));
}
