use vstd::prelude::*;
use crate::fs::Request;
use crate::tracker::Event;

verus! {

/// A decoded record.
#[derive(Debug, Clone, PartialEq, Eq)]
pub struct Item {
    pub name: String,
    pub year: i32,
}

/// Why a response could not be decoded into a record.
#[derive(Debug, Clone, Copy, PartialEq, Eq)]
pub enum MalformedRecord {
    /// The content does not end with a newline.
    UnterminatedLine,
    /// A line is not valid UTF-8.
    InvalidText,
    /// Fewer than three lines.
    TooFewLines,
    /// The second line is not a 32-bit decimal integer.
    InvalidYear,
    /// The third line is not a 32-bit decimal integer.
    InvalidNextPage,
}

pub const NEWLINE: u8 = 10;

// ----------------------------------------------------------------------------
// Framing

/// The content is empty or ends with a newline.
pub open spec fn framed(s: Seq<u8>) -> bool {
    s.len() == 0 || s.last() == NEWLINE
}

/// The newline-terminated lines of `s`, where `cur` holds the bytes of the
/// line in progress; a final unterminated segment is dropped.
pub open spec fn split_from(s: Seq<u8>, cur: Seq<u8>) -> Seq<Seq<u8>>
    decreases s.len(),
{
    if s.len() == 0 {
        seq![]
    } else if s[0] == NEWLINE {
        seq![cur] + split_from(s.drop_first(), seq![])
    } else {
        split_from(s.drop_first(), cur.push(s[0]))
    }
}

pub open spec fn lines_of(s: Seq<u8>) -> Seq<Seq<u8>> {
    split_from(s, seq![])
}

/// Splits framed content into its lines, without their newlines.
pub fn split_lines(content: &Vec<u8>) -> (r: Option<Vec<Vec<u8>>>)
    ensures
        r is Some <==> framed(content@),
        r is Some ==> r->0@.map_values(|l: Vec<u8>| l@) == lines_of(content@),
{
    let n = content.len();
    if n > 0 && content[n - 1] != NEWLINE {
        return None;
    }
    let mut out: Vec<Vec<u8>> = Vec::new();
    let mut cur: Vec<u8> = Vec::new();
    let mut i: usize = 0;
    assert(content@.subrange(0, n as int) =~= content@);
    assert(out@.map_values(|l: Vec<u8>| l@) + lines_of(content@) =~= lines_of(content@));
    assert(cur@ =~= Seq::<u8>::empty());
    while i < n
        invariant
            n == content@.len(),
            i <= n,
            lines_of(content@) == out@.map_values(|l: Vec<u8>| l@) + split_from(
                content@.subrange(i as int, n as int),
                cur@,
            ),
        decreases n - i,
    {
        let b = content[i];
        let ghost rest = content@.subrange(i as int, n as int);
        assert(rest.drop_first() =~= content@.subrange(i + 1, n as int));
        if b == NEWLINE {
            let line = cur;
            cur = Vec::new();
            proof {
                assert(out@.push(line).map_values(|l: Vec<u8>| l@) =~= out@.map_values(
                    |l: Vec<u8>| l@,
                ) + seq![line@]);
            }
            out.push(line);
        } else {
            cur.push(b);
        }
        i = i + 1;
    }
    assert(content@.subrange(n as int, n as int) =~= Seq::<u8>::empty());
    assert(out@.map_values(|l: Vec<u8>| l@) + Seq::<Seq<u8>>::empty() =~= out@.map_values(
        |l: Vec<u8>| l@,
    ));
    Some(out)
}

// ----------------------------------------------------------------------------
// Text

/// What `std::str::from_utf8` makes of a byte sequence: the characters it
/// encodes, or `None` where it is not valid UTF-8.
pub uninterp spec fn utf8_text(b: Seq<u8>) -> Option<Seq<char>>;

/// Relies on std::str::from_utf8: it succeeds exactly on valid UTF-8, and the
/// outcome depends on the bytes alone.
#[verifier::external_body]
fn decode_utf8(b: &[u8]) -> (r: Option<String>)
    ensures
        r is Some <==> utf8_text(b@) is Some,
        r is Some ==> r->0@ == utf8_text(b@)->0,
{
    match std::str::from_utf8(b) {
        Ok(s) => Some(s.to_string()),
        Err(_) => None,
    }
}

pub open spec fn all_text(ls: Seq<Seq<u8>>) -> bool {
    forall|i: int| 0 <= i < ls.len() ==> (#[trigger] utf8_text(ls[i])) is Some
}

/// Decodes each line as UTF-8, or `None` where one is not valid.
pub fn decode_lines(raw: &Vec<Vec<u8>>) -> (r: Option<Vec<String>>)
    ensures
        r is Some <==> all_text(raw@.map_values(|l: Vec<u8>| l@)),
        r is Some ==> r->0@.len() == raw@.len() && forall|i: int|
            0 <= i < raw@.len() ==> #[trigger] r->0@[i]@ == utf8_text(raw@[i]@)->0,
{
    let mut out: Vec<String> = Vec::new();
    let mut i: usize = 0;
    while i < raw.len()
        invariant
            i <= raw@.len(),
            out@.len() == i,
            forall|j: int| 0 <= j < i ==> utf8_text(#[trigger] raw@[j]@) is Some,
            forall|j: int| 0 <= j < i ==> #[trigger] out@[j]@ == utf8_text(raw@[j]@)->0,
        decreases raw@.len() - i,
    {
        match decode_utf8(raw[i].as_slice()) {
            Some(s) => out.push(s),
            None => {
                assert(raw@.map_values(|l: Vec<u8>| l@)[i as int] == raw@[i as int]@);
                return None;
            },
        }
        i = i + 1;
    }
    proof {
        let v = raw@.map_values(|l: Vec<u8>| l@);
        assert forall|j: int| 0 <= j < v.len() implies (#[trigger] utf8_text(v[j])) is Some by {
            assert(v[j] == raw@[j]@);
        }
    }
    Some(out)
}

// ----------------------------------------------------------------------------
// Integers

pub open spec fn is_digit(c: char) -> bool {
    '0' <= c && c <= '9'
}

pub open spec fn all_digits(s: Seq<char>) -> bool {
    s.len() > 0 && forall|i: int| 0 <= i < s.len() ==> is_digit(#[trigger] s[i])
}

pub open spec fn digit_value(c: char) -> int {
    (c as int) - ('0' as int)
}

/// The value of a string of decimal digits, most significant first.
pub open spec fn digits_value(s: Seq<char>) -> int
    decreases s.len(),
{
    if s.len() == 0 {
        0
    } else {
        digits_value(s.drop_last()) * 10 + digit_value(s.last())
    }
}

/// An optional `+` or `-` sign followed by one or more decimal digits.
pub open spec fn decimal_value(s: Seq<char>) -> Option<int> {
    if s.len() > 0 && s[0] == '-' && all_digits(s.drop_first()) {
        Some(-digits_value(s.drop_first()))
    } else if s.len() > 0 && s[0] == '+' && all_digits(s.drop_first()) {
        Some(digits_value(s.drop_first()))
    } else if all_digits(s) {
        Some(digits_value(s))
    } else {
        None
    }
}

/// The `i32` that a line denotes, if it denotes one in range.
pub open spec fn parsed_i32(s: Seq<char>) -> Option<i32> {
    match decimal_value(s) {
        Some(v) => if i32::MIN <= v <= i32::MAX {
            Some(v as i32)
        } else {
            None
        },
        None => None,
    }
}

/// Relies on `str::parse::<i32>` (`i32::from_str`): it accepts an optional
/// `+` or `-` sign followed by decimal digits only, and fails on anything else
/// and on values out of range.
#[verifier::external_body]
fn parse_i32(s: &str) -> (r: Option<i32>)
    ensures
        r == parsed_i32(s@),
{
    s.parse::<i32>().ok()
}

// ----------------------------------------------------------------------------
// Paths

pub open spec fn digit_char(d: nat) -> char {
    ((d + ('0' as nat)) as u32) as char
}

/// The decimal digits of `n`, without sign.
pub open spec fn digits_text(n: nat) -> Seq<char>
    decreases n,
{
    if n < 10 {
        seq![digit_char(n)]
    } else {
        digits_text(n / 10).push(digit_char(n % 10))
    }
}

pub open spec fn decimal_text(n: int) -> Seq<char> {
    if n < 0 {
        seq!['-'] + digits_text((-n) as nat)
    } else {
        digits_text(n as nat)
    }
}

/// The resource path of page `n`: `fixtures/<n>.txt`.
pub open spec fn page_path(n: int) -> Seq<char> {
    seq!['f', 'i', 'x', 't', 'u', 'r', 'e', 's', '/'] + decimal_text(n) + seq!['.', 't', 'x', 't']
}

/// Relies on `format!` with `i32`'s `Display`: decimal digits, with a leading
/// `-` for negative values.
#[verifier::external_body]
fn format_page_path(n: i32) -> (r: String)
    ensures
        r@ == page_path(n as int),
{
    format!("fixtures/{n}.txt")
}

// ----------------------------------------------------------------------------
// Records

/// The fields a list of lines decodes to: name, year and next page.
pub open spec fn decode_record(ls: Seq<Seq<char>>) -> Result<(Seq<char>, i32, i32), MalformedRecord> {
    if ls.len() < 3 {
        Err(MalformedRecord::TooFewLines)
    } else if parsed_i32(ls[1]) is None {
        Err(MalformedRecord::InvalidYear)
    } else if parsed_i32(ls[2]) is None {
        Err(MalformedRecord::InvalidNextPage)
    } else {
        Ok((ls[0], parsed_i32(ls[1])->0, parsed_i32(ls[2])->0))
    }
}

/// The path of the page that follows, if any: page `0` ends the chain.
pub open spec fn successor_path(next_page: i32) -> Option<Seq<char>> {
    if next_page == 0 {
        None
    } else {
        Some(page_path(next_page as int))
    }
}

pub open spec fn request_path(q: Option<Request>) -> Option<Seq<char>> {
    match q {
        Some(q) => Some(q@),
        None => None,
    }
}

/// `r` is what decoding the lines `ls` must give.
pub open spec fn extracted(ls: Seq<Seq<char>>, r: Result<(Item, Option<Request>), MalformedRecord>) -> bool {
    match decode_record(ls) {
        Err(e) => r == Err::<(Item, Option<Request>), MalformedRecord>(e),
        Ok((name, year, next)) => r is Ok && r->Ok_0.0.name@ == name && r->Ok_0.0.year == year
            && request_path(r->Ok_0.1) == successor_path(next),
    }
}

/// The request for the page after `next_page`, or `None` where it is `0`.
pub fn successor_request(next_page: i32) -> (r: Option<Request>)
    ensures
        request_path(r) == successor_path(next_page),
        r is None <==> next_page == 0,
{
    if next_page == 0 {
        None
    } else {
        Some(Request { path: format_page_path(next_page) })
    }
}

/// Decodes a record from its lines: line one is the name, line two the year,
/// line three the next page; further lines are ignored.
pub fn record_from_lines(lines: &Vec<String>) -> (r: Result<(Item, Option<Request>), MalformedRecord>)
    ensures
        extracted(lines@.map_values(|l: String| l@), r),
{
    let ghost ls = lines@.map_values(|l: String| l@);
    if lines.len() < 3 {
        return Err(MalformedRecord::TooFewLines);
    }
    assert(ls[1] == lines@[1]@ && ls[2] == lines@[2]@ && ls[0] == lines@[0]@);
    let year = match parse_i32(lines[1].as_str()) {
        Some(y) => y,
        None => return Err(MalformedRecord::InvalidYear),
    };
    let next_page = match parse_i32(lines[2].as_str()) {
        Some(p) => p,
        None => return Err(MalformedRecord::InvalidNextPage),
    };
    let item = Item { name: lines[0].clone(), year };
    Ok((item, successor_request(next_page)))
}

/// What the bytes of a response decode to: the framing, then the text of each
/// line, then the record.
pub open spec fn response_extracted(c: Seq<u8>, r: Result<(Item, Option<Request>), MalformedRecord>) -> bool {
    if !framed(c) {
        r == Err::<(Item, Option<Request>), MalformedRecord>(MalformedRecord::UnterminatedLine)
    } else if !all_text(lines_of(c)) {
        r == Err::<(Item, Option<Request>), MalformedRecord>(MalformedRecord::InvalidText)
    } else {
        extracted(lines_of(c).map_values(|l: Seq<u8>| utf8_text(l)->0), r)
    }
}

/// Decodes the content of a response into a record and the request for the
/// page that follows it, if any.
pub fn process_response(content: &Vec<u8>) -> (r: Result<(Item, Option<Request>), MalformedRecord>)
    ensures
        response_extracted(content@, r),
{
    let raw = match split_lines(content) {
        Some(raw) => raw,
        None => return Err(MalformedRecord::UnterminatedLine),
    };
    let lines = match decode_lines(&raw) {
        Some(lines) => lines,
        None => return Err(MalformedRecord::InvalidText),
    };
    let r = record_from_lines(&lines);
    proof {
        let lc = lines_of(content@);
        assert(lines@.map_values(|l: String| l@) =~= lc.map_values(|l: Seq<u8>| utf8_text(l)->0));
    }
    r
}

/// The event the extractor reports for a decoded response: a rejection, or
/// a record together with whether a successor request was emitted.
pub open spec fn event_of(r: Result<(Item, Option<Request>), MalformedRecord>) -> Event {
    match r {
        Ok((_, next)) => Event::Extracted { successor: next is Some },
        Err(_) => Event::Rejected,
    }
}

pub fn extraction_event(r: &Result<(Item, Option<Request>), MalformedRecord>) -> (e: Event)
    ensures
        e == event_of(*r),
{
    match r {
        Ok((_, next)) => Event::Extracted { successor: next.is_some() },
        Err(_) => Event::Rejected,
    }
}

/// A record whose next page is `0` yields no successor request, and one with
/// any other next page yields the request for that page.
pub proof fn lemma_sentinel_ends_chain(
    ls: Seq<Seq<char>>,
    r: Result<(Item, Option<Request>), MalformedRecord>,
)
    requires
        extracted(ls, r),
        decode_record(ls) is Ok,
    ensures
        r is Ok,
        parsed_i32(ls[2])->0 == 0 <==> r->Ok_0.1 is None,
        parsed_i32(ls[2])->0 != 0 ==> r->Ok_0.1->0@ == page_path(parsed_i32(ls[2])->0 as int),
        event_of(r) == (Event::Extracted { successor: parsed_i32(ls[2])->0 != 0 }),
{
}

/// A response that does not decode yields neither a record nor a successor
/// request, and the extractor reports it as rejected; in particular content
/// of fewer than three well-formed lines is rejected as too short.
pub proof fn lemma_malformed_emits_nothing(
    c: Seq<u8>,
    r: Result<(Item, Option<Request>), MalformedRecord>,
)
    requires
        response_extracted(c, r),
    ensures
        !framed(c) || !all_text(lines_of(c)) || decode_record(
            lines_of(c).map_values(|l: Seq<u8>| utf8_text(l)->0),
        ) is Err <==> r is Err,
        r is Err ==> event_of(r) == Event::Rejected,
        framed(c) && all_text(lines_of(c)) && lines_of(c).len() < 3 ==> r == Err::<
            (Item, Option<Request>),
            MalformedRecord,
        >(MalformedRecord::TooFewLines),
{
}

} // verus!
