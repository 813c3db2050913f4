use pagechain::extract::{extraction_event, process_response, record_from_lines, split_lines, successor_request, Item, MalformedRecord};
use pagechain::tracker::Event;
use pagechain::fs::{request, response, MissingField, Request};

fn item(name: &str, year: i32) -> Item {
    Item { name: name.to_string(), year }
}

fn path(p: &str) -> Option<Request> {
    Some(Request { path: p.to_string() })
}

#[test]
fn happy_path_first_page_names_second() {
    let r = process_response(&b"Alice\n1990\n2\n".to_vec());
    assert_eq!(r, Ok((item("Alice", 1990), path("fixtures/2.txt"))));
}

#[test]
fn sentinel_page_has_no_successor() {
    let r = process_response(&b"Bob\n1985\n0\n".to_vec());
    assert_eq!(r, Ok((item("Bob", 1985), None)));
}

#[test]
fn two_lines_are_malformed() {
    let r = process_response(&b"Bob\n1985\n".to_vec());
    assert_eq!(r, Err(MalformedRecord::TooFewLines));
}

#[test]
fn unterminated_content_is_malformed() {
    let r = process_response(&b"Bob\n1985\n0".to_vec());
    assert_eq!(r, Err(MalformedRecord::UnterminatedLine));
}

#[test]
fn invalid_utf8_is_malformed() {
    let r = process_response(&vec![0xff, b'\n', b'1', b'\n', b'0', b'\n']);
    assert_eq!(r, Err(MalformedRecord::InvalidText));
}

#[test]
fn bad_year_is_malformed() {
    assert_eq!(process_response(&b"A\nabc\n0\n".to_vec()), Err(MalformedRecord::InvalidYear));
    assert_eq!(process_response(&b"A\n\n0\n".to_vec()), Err(MalformedRecord::InvalidYear));
    assert_eq!(process_response(&b"A\n2147483648\n0\n".to_vec()), Err(MalformedRecord::InvalidYear));
}

#[test]
fn bad_next_page_is_malformed() {
    assert_eq!(process_response(&b"A\n1\n-\n".to_vec()), Err(MalformedRecord::InvalidNextPage));
    assert_eq!(process_response(&b"A\n1\n 3\n".to_vec()), Err(MalformedRecord::InvalidNextPage));
}

#[test]
fn negative_and_signed_integers_are_accepted() {
    let r = process_response(&b"\n-2147483648\n+7\n".to_vec());
    assert_eq!(r, Ok((item("", i32::MIN), path("fixtures/7.txt"))));
    let r = process_response(&b"Eve\n-44\n-3\nextra\n".to_vec());
    assert_eq!(r, Ok((item("Eve", -44), path("fixtures/-3.txt"))));
}

#[test]
fn empty_content_has_too_few_lines() {
    assert_eq!(process_response(&Vec::new()), Err(MalformedRecord::TooFewLines));
}

#[test]
fn split_lines_drops_newlines() {
    assert_eq!(split_lines(&b"a\n\nbc\n".to_vec()), Some(vec![b"a".to_vec(), Vec::new(), b"bc".to_vec()]));
    assert_eq!(split_lines(&b"a\nb".to_vec()), None);
    assert_eq!(split_lines(&Vec::new()), Some(Vec::new()));
}

#[test]
fn record_from_lines_reads_three_fields() {
    let lines = vec!["Zed".to_string(), "2001".to_string(), "12".to_string()];
    assert_eq!(record_from_lines(&lines), Ok((item("Zed", 2001), path("fixtures/12.txt"))));
    let short = vec!["Zed".to_string(), "2001".to_string()];
    assert_eq!(record_from_lines(&short), Err(MalformedRecord::TooFewLines));
}

#[test]
fn successor_request_formats_the_page() {
    assert_eq!(successor_request(0), None);
    assert_eq!(successor_request(2147483647), path("fixtures/2147483647.txt"));
}

#[test]
fn builders_require_their_field() {
    assert_eq!(request().with_path("1.txt".to_string()).build(), Ok(Request { path: "1.txt".to_string() }));
    assert_eq!(request().build(), Err(MissingField));
    let r = response().with_content(vec![1, 2]).build().unwrap();
    assert_eq!(r.content, vec![1, 2]);
    assert!(response().build().is_err());
}

#[test]
fn extraction_event_follows_the_outcome() {
    assert_eq!(extraction_event(&process_response(&b"A\n1\n2\n".to_vec())), Event::Extracted { successor: true });
    assert_eq!(extraction_event(&process_response(&b"A\n1\n0\n".to_vec())), Event::Extracted { successor: false });
    assert_eq!(extraction_event(&process_response(&b"A\n1\n".to_vec())), Event::Rejected);
}
