use steam_autoshutdown::scan::{
    extract, reader_match_exp, reader_read_and_store_until, rem_n_from_end, Capture, CaptureStep,
};
use steam_autoshutdown::stream::ByteStream;
use steam_autoshutdown::window::Matcher;

const START: &str = "<div id=\"appHubAppName\" class=\"apphub_AppName\">";
const END: &str = "</div>";

fn stream(s: &[u8]) -> ByteStream {
    ByteStream::new(s.to_vec())
}

fn rest(mut s: ByteStream) -> Vec<u8> {
    let mut out = Vec::new();
    while let Some(b) = s.next_byte() {
        out.push(b);
    }
    out
}

#[test]
fn extract_round_trip_store_tag() {
    let page = "xxx<div id=\"appHubAppName\" class=\"apphub_AppName\">Half-Life 3</div>yyy";
    let mut s = stream(page.as_bytes());
    let r = extract(START.as_bytes(), END.as_bytes(), &mut s);
    assert_eq!(r, Some(b"Half-Life 3".to_vec()));
    assert_eq!(rest(s), b"yyy".to_vec());
}

#[test]
fn extract_start_then_end_of_stream() {
    let page = format!("abc{}", START);
    let mut s = stream(page.as_bytes());
    assert_eq!(extract(START.as_bytes(), END.as_bytes(), &mut s), None);
    let page = format!("abc{}Half-Life 3 and more", START);
    let mut s = stream(page.as_bytes());
    assert_eq!(extract(START.as_bytes(), END.as_bytes(), &mut s), None);
}

#[test]
fn match_on_short_stream_is_false() {
    let mut s = stream(b"abcde");
    assert!(!reader_match_exp(b"abcdefghij", &mut s));
    assert_eq!(s.remaining(), 0);
}

#[test]
fn extract_without_start_is_none() {
    let mut s = stream(b"no tag here </div> at all");
    assert_eq!(extract(START.as_bytes(), END.as_bytes(), &mut s), None);
    let mut s = stream(b"</div>");
    assert_eq!(extract(b"<x>", b"</div>", &mut s), None);
}

#[test]
fn extract_empty_content_is_none() {
    let page = format!("a{}{}b", START, END);
    let mut s = stream(page.as_bytes());
    assert_eq!(extract(START.as_bytes(), END.as_bytes(), &mut s), None);
    assert_eq!(rest(s), b"b".to_vec());
}

#[test]
fn extract_one_byte_content() {
    let mut s = stream(b"<a>x</a>");
    assert_eq!(extract(b"<a>", b"</a>", &mut s), Some(b"x".to_vec()));
}

#[test]
fn extract_same_bytes_same_result() {
    let page = b"..<b>bold</b>..<b>again</b>";
    let mut s1 = stream(page);
    let mut s2 = stream(page);
    let r1 = extract(b"<b>", b"</b>", &mut s1);
    let r2 = extract(b"<b>", b"</b>", &mut s2);
    assert_eq!(r1, r2);
    assert_eq!(r1, Some(b"bold".to_vec()));
}

#[test]
fn extract_takes_earliest_occurrences() {
    let mut s = stream(b"[[one]] [[two]]");
    assert_eq!(extract(b"[[", b"]]", &mut s), Some(b"one".to_vec()));
    assert_eq!(extract(b"[[", b"]]", &mut s), Some(b"two".to_vec()));
    assert_eq!(extract(b"[[", b"]]", &mut s), None);
}

#[test]
fn match_finds_pattern_anywhere() {
    let mut s = stream(b"abcdef");
    assert!(reader_match_exp(b"abc", &mut s));
    assert_eq!(rest(s), b"def".to_vec());
    let mut s = stream(b"abcdef");
    assert!(reader_match_exp(b"cd", &mut s));
    assert_eq!(rest(s), b"ef".to_vec());
    let mut s = stream(b"abcdef");
    assert!(reader_match_exp(b"def", &mut s));
    assert_eq!(s.remaining(), 0);
    let mut s = stream(b"abcdef");
    assert!(!reader_match_exp(b"dg", &mut s));
    assert_eq!(s.remaining(), 0);
}

#[test]
fn match_overlapping_prefix() {
    let mut s = stream(b"aaabz");
    assert!(reader_match_exp(b"aab", &mut s));
    assert_eq!(rest(s), b"z".to_vec());
}

#[test]
fn match_single_byte_pattern() {
    let mut s = stream(b"xyz");
    assert!(reader_match_exp(b"y", &mut s));
    assert_eq!(rest(s), b"z".to_vec());
    let mut s = stream(b"");
    assert!(!reader_match_exp(b"y", &mut s));
}

#[test]
fn store_until_end_pattern() {
    let mut s = stream(b"hello</div>tail");
    assert_eq!(reader_read_and_store_until(b"</div>", &mut s), Some(b"hello".to_vec()));
    assert_eq!(rest(s), b"tail".to_vec());
    let mut s = stream(b"</div>hello</div>");
    assert_eq!(reader_read_and_store_until(b"</div>", &mut s), None);
    assert_eq!(rest(s), b"hello</div>".to_vec());
    let mut s = stream(b"hello");
    assert_eq!(reader_read_and_store_until(b"</div>", &mut s), None);
    let mut s = stream(b"</di");
    assert_eq!(reader_read_and_store_until(b"</div>", &mut s), None);
    let mut s = stream(b"a<</div>");
    assert_eq!(reader_read_and_store_until(b"</div>", &mut s), Some(b"a<".to_vec()));
}

#[test]
fn rem_n_from_end_cases() {
    let mut v = vec![1, 2, 3, 4];
    rem_n_from_end(&mut v, 3);
    assert_eq!(v, vec![1]);
    let mut v = vec![1, 2];
    rem_n_from_end(&mut v, 5);
    assert!(v.is_empty());
    let mut v = vec![1, 2];
    rem_n_from_end(&mut v, 0);
    assert_eq!(v, vec![1, 2]);
}

#[test]
fn matcher_reports_each_occurrence() {
    let mut m = Matcher::new(b"aba".to_vec());
    let hits: Vec<bool> = b"ababa".iter().map(|b| m.push(*b)).collect();
    assert_eq!(hits, vec![false, false, true, false, true]);
}

#[test]
fn capture_steps() {
    let mut c = Capture::new(b"!!".to_vec());
    assert!(matches!(c.push(b'h'), CaptureStep::Pending));
    assert!(matches!(c.push(b'i'), CaptureStep::Pending));
    assert!(matches!(c.push(b'!'), CaptureStep::Pending));
    match c.push(b'!') {
        CaptureStep::Found(v) => assert_eq!(v, b"hi".to_vec()),
        _ => panic!("expected a capture"),
    }
    let mut c = Capture::new(b"!!".to_vec());
    assert!(matches!(c.push(b'!'), CaptureStep::Pending));
    assert!(matches!(c.push(b'!'), CaptureStep::Absent));
}
