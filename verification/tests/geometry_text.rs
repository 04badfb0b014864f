use guest_runtime::cg_geometry::{CGPoint, CGRect, CGSize};
use guest_runtime::cg_text::{parse_tuple, split_once, strip_prefix, strip_suffix, PointText, RectText, SizeText};

fn point(x: &str, y: &str) -> PointText {
    PointText { x: x.as_bytes().to_vec(), y: y.as_bytes().to_vec() }
}

fn size(w: &str, h: &str) -> SizeText {
    SizeText { width: w.as_bytes().to_vec(), height: h.as_bytes().to_vec() }
}

#[test]
fn point_text_is_taken_apart() {
    assert_eq!(CGPoint::parse_text(b"{1, 2}"), Ok(point("1", "2")));
    assert_eq!(CGPoint::parse_text(b"{-1.5, 2e3}"), Ok(point("-1.5", "2e3")));
    assert_eq!(CGPoint::parse_text(b"{inf, NaN}"), Ok(point("inf", "NaN")));
}

#[test]
fn size_text_is_taken_apart() {
    assert_eq!(CGSize::parse_text(b"{320, 480}"), Ok(size("320", "480")));
    assert_eq!(CGSize::parse_text(b"{0.5, .25}"), Ok(size("0.5", ".25")));
}

#[test]
fn rect_text_is_taken_apart_origin_before_size() {
    assert_eq!(
        CGRect::parse_text(b"{{1, 2}, {3, 4}}"),
        Ok(RectText { origin: point("1", "2"), size: size("3", "4") })
    );
    assert_eq!(
        CGRect::parse_text(b"{{-0, 1e1}, {+5., inf}}"),
        Ok(RectText { origin: point("-0", "1e1"), size: size("+5.", "inf") })
    );
}

#[test]
fn point_text_with_any_deviation_is_refused() {
    for s in [
        "", "{", "}", "{}", "1, 2", "{1, 2", "1, 2}", "{1,2}", "{1 , 2}", "{1,  2}", "{1; 2}", "{1 2}",
        "{{1, 2}}", "{1, 2}}", "{{1, 2}", "{1, 2} ", " {1, 2}", "{1, 2}x", "{1, 2, 3}", "{a, 2}", "{1, b}",
        "{, 2}", "{1, }", "{1, 2}\n", "(1, 2)", "{1, 2}{3, 4}", "{ 1, 2}", "{1, 2 }",
    ] {
        assert_eq!(CGPoint::parse_text(s.as_bytes()), Err(()), "{:?}", s);
        assert_eq!(CGSize::parse_text(s.as_bytes()), Err(()), "{:?}", s);
    }
}

#[test]
fn rect_text_with_any_deviation_is_refused() {
    for s in [
        "", "{{}}", "{{}", "{}}", "{{1, 2}, {3, 4}", "{1, 2}, {3, 4}}", "{1, 2}, {3, 4}", "{{1, 2},{3, 4}}",
        "{{1, 2}, {3, 4}} ", "{{1, 2}, {3, 4}}}", "{{{1, 2}, {3, 4}}", "{{1, 2} {3, 4}}", "{{1, 2}, {3, 4}, {5, 6}}",
        "{{1, 2}, {3}}", "{{1}, {3, 4}}", "{{1, 2}, {3, x}}", "{{1, 2},  {3, 4}}", "{{1,2}, {3,4}}", "{1, 2}",
        "{{1, 2}, {3, 4}}x", "{{1, 2}; {3, 4}}", "{{1, 2}, {3, 4 }}", "{{1, 2}, { 3, 4}}",
    ] {
        assert_eq!(CGRect::parse_text(s.as_bytes()), Err(()), "{:?}", s);
    }
}

#[test]
fn texts_are_put_together_with_one_comma_and_one_space() {
    assert_eq!(CGPoint::format_text(&point("1", "2")), b"{1, 2}".to_vec());
    assert_eq!(CGSize::format_text(&size("320", "480.5")), b"{320, 480.5}".to_vec());
    assert_eq!(
        CGRect::format_text(&RectText { origin: point("0", "-1"), size: size("inf", "NaN") }),
        b"{{0, -1}, {inf, NaN}}".to_vec()
    );
}

#[test]
fn formatting_what_was_parsed_gives_the_text_back() {
    for s in ["{1, 2}", "{-1.50, +2e03}", "{.5, 5.}", "{nan, -INF}"] {
        let fields = CGPoint::parse_text(s.as_bytes()).unwrap();
        assert_eq!(CGPoint::format_text(&fields), s.as_bytes().to_vec());
        let fields = CGSize::parse_text(s.as_bytes()).unwrap();
        assert_eq!(CGSize::format_text(&fields), s.as_bytes().to_vec());
    }
    for s in ["{{1, 2}, {3, 4}}", "{{-1.50, +2e03}, {.5, 5.}}"] {
        let fields = CGRect::parse_text(s.as_bytes()).unwrap();
        assert_eq!(CGRect::format_text(&fields), s.as_bytes().to_vec());
    }
}

#[test]
fn parsing_what_was_formatted_gives_the_fields_back() {
    let values = [0.0f32, -0.0, 1.0, -2.5, 0.1, 1.0e-7, 3.4028235e38, 1.0e-45, f32::INFINITY, f32::NEG_INFINITY, f32::NAN];
    for a in values {
        for b in values {
            let p = point(&format!("{}", a), &format!("{}", b));
            assert_eq!(CGPoint::parse_text(&CGPoint::format_text(&p)), Ok(p.clone()));
            let z = size(&format!("{}", b), &format!("{}", a));
            assert_eq!(CGSize::parse_text(&CGSize::format_text(&z)), Ok(z.clone()));
            let r = RectText { origin: p, size: z };
            assert_eq!(CGRect::parse_text(&CGRect::format_text(&r)), Ok(r.clone()));
        }
    }
}

#[test]
fn tuple_is_split_at_the_separator() {
    assert_eq!(parse_tuple(b"1, 2"), Ok((b"1".to_vec(), b"2".to_vec())));
    assert_eq!(parse_tuple(b"1,2"), Err(()));
    assert_eq!(parse_tuple(b"1, 2, 3"), Err(()));
    assert_eq!(parse_tuple(b", "), Err(()));
    assert_eq!(parse_tuple(b"1, "), Err(()));
}

#[test]
fn split_once_splits_at_the_first_occurrence() {
    assert_eq!(split_once(b"a, b, c", b", "), Some((&b"a"[..], &b"b, c"[..])));
    assert_eq!(split_once(b", ", b", "), Some((&b""[..], &b""[..])));
    assert_eq!(split_once(b"abc", b", "), None);
    assert_eq!(split_once(b"", b", "), None);
    assert_eq!(split_once(b"abc", b""), Some((&b""[..], &b"abc"[..])));
    assert_eq!(split_once(b"a,, b", b", "), Some((&b"a,"[..], &b"b"[..])));
}

#[test]
fn prefix_and_suffix_are_stripped_once() {
    assert_eq!(strip_prefix(b"{{1}", b"{"), Some(&b"{1}"[..]));
    assert_eq!(strip_prefix(b"1}", b"{"), None);
    assert_eq!(strip_prefix(b"", b"{"), None);
    assert_eq!(strip_suffix(b"{1}}", b"}"), Some(&b"{1}"[..]));
    assert_eq!(strip_suffix(b"{1", b"}"), None);
    assert_eq!(strip_suffix(b"}", b"}}"), None);
}

fn number(field: &[u8]) -> f32 {
    std::str::from_utf8(field).unwrap().parse().unwrap()
}

#[test]
fn every_field_that_is_taken_apart_is_a_number_for_the_host() {
    let fields = ["0", "-0", "1.5", ".5", "5.", "1e5", "1E-5", "+2.5e+3", "inf", "-Infinity", "nan", "NAN", "007"];
    for a in fields {
        for b in fields {
            let text = format!("{{{{{}, {}}}, {{{}, {}}}}}", a, b, b, a);
            let rect = CGRect::parse_text(text.as_bytes()).unwrap();
            assert_eq!(number(&rect.origin.x).to_bits(), a.parse::<f32>().unwrap().to_bits());
            assert_eq!(number(&rect.origin.y).to_bits(), b.parse::<f32>().unwrap().to_bits());
            assert_eq!(number(&rect.size.width).to_bits(), b.parse::<f32>().unwrap().to_bits());
            assert_eq!(number(&rect.size.height).to_bits(), a.parse::<f32>().unwrap().to_bits());
        }
    }
}

#[test]
fn numbers_survive_being_written_and_read() {
    let values = [
        0.0f32,
        -0.0,
        1.0,
        -2.5,
        0.1,
        0.3,
        1.0e-7,
        123456.79,
        3.4028235e38,
        -3.4028235e38,
        1.17549435e-38,
        1.0e-45,
        f32::INFINITY,
        f32::NEG_INFINITY,
    ];
    for a in values {
        for b in values {
            let text = CGPoint::format_text(&point(&a.to_string(), &b.to_string()));
            let fields = CGPoint::parse_text(&text).unwrap();
            assert_eq!(number(&fields.x).to_bits(), a.to_bits());
            assert_eq!(number(&fields.y).to_bits(), b.to_bits());
        }
    }
    let text = CGSize::format_text(&size(&f32::NAN.to_string(), "1"));
    assert_eq!(text, b"{NaN, 1}".to_vec());
    assert!(number(&CGSize::parse_text(&text).unwrap().width).is_nan());
}

#[test]
fn reading_and_writing_a_number_need_not_give_its_text_back() {
    let fields = CGPoint::parse_text(b"{1.0, 2e0}").unwrap();
    let written = CGPoint::format_text(&point(&number(&fields.x).to_string(), &number(&fields.y).to_string()));
    assert_eq!(written, b"{1, 2}".to_vec());
    // The fields themselves are given back as they were read.
    assert_eq!(CGPoint::format_text(&fields), b"{1.0, 2e0}".to_vec());
}
