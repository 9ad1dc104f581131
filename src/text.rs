//! Texts that the terminal prints or names files with.
use vstd::prelude::*;

verus! {

/// The decimal digit of `d`, for `d < 10`.
pub open spec fn digit_char(d: nat) -> char {
    (('0' as nat) + d) as char
}

/// `n` written in decimal, without leading zeros.
pub open spec fn decimal(n: nat) -> Seq<char>
    decreases n,
{
    if n < 10 {
        seq![digit_char(n)]
    } else {
        decimal(n / 10) + seq![digit_char(n % 10)]
    }
}

/// The report of a port that could not be opened.
pub open spec fn open_failure_text(port: Seq<char>, baud: nat) -> Seq<char> {
    "Unable to connect to "@ + port + " with baud "@ + decimal(baud)
}

/// The name of the log file for a run started at `stamp`.
pub open spec fn log_name_text(stamp: Seq<char>) -> Seq<char> {
    "log-"@ + stamp + ".txt"@
}

/// The one-character text of digit `d`.
fn digit_str(d: u32) -> (r: &'static str)
    requires
        d < 10,
    ensures
        r@ == seq![digit_char(d as nat)],
{
    proof {
        reveal_strlit("0");
        reveal_strlit("1");
        reveal_strlit("2");
        reveal_strlit("3");
        reveal_strlit("4");
        reveal_strlit("5");
        reveal_strlit("6");
        reveal_strlit("7");
        reveal_strlit("8");
        reveal_strlit("9");
    }
    match d {
        0 => "0",
        1 => "1",
        2 => "2",
        3 => "3",
        4 => "4",
        5 => "5",
        6 => "6",
        7 => "7",
        8 => "8",
        _ => "9",
    }
}

/// Appends `n` in decimal to `s`.
fn push_decimal(s: &mut String, n: u32)
    ensures
        final(s)@ == old(s)@ + decimal(n as nat),
    decreases n,
{
    if n >= 10 {
        push_decimal(s, n / 10);
    }
    s.append(digit_str(n % 10));
    proof {
        if n >= 10 {
            assert(final(s)@ == old(s)@ + decimal((n / 10) as nat) + seq![digit_char((n % 10) as nat)]);
        }
    }
}

/// `n` in decimal.
pub fn decimal_text(n: u32) -> (r: String)
    ensures
        r@ == decimal(n as nat),
{
    let mut s = String::new();
    push_decimal(&mut s, n);
    s
}

/// "Unable to connect to <port> with baud <baud>".
pub fn open_failure_message(port: &str, baud: u32) -> (r: String)
    ensures
        r@ == open_failure_text(port@, baud as nat),
{
    let mut s = String::from_str("Unable to connect to ");
    s.append(port);
    s.append(" with baud ");
    push_decimal(&mut s, baud);
    s
}

/// "log-<stamp>.txt".
pub fn log_file_name(stamp: &str) -> (r: String)
    ensures
        r@ == log_name_text(stamp@),
{
    let mut s = String::from_str("log-");
    s.append(stamp);
    s.append(".txt");
    s
}

/// A line typed on the keyboard as it goes to the device: without its
/// trailing line feed, if it has one, and ended by carriage return and line
/// feed.
pub open spec fn wire_line(line: Seq<u8>) -> Seq<u8> {
    let body = if line.len() > 0 && line.last() == 10u8 {
        line.drop_last()
    } else {
        line
    };
    body + seq![13u8, 10u8]
}

/// The bytes to send to the device for a line read from the keyboard.
pub fn line_to_wire(line: &[u8]) -> (r: Vec<u8>)
    requires
        line@.len() + 2 <= usize::MAX,
    ensures
        r@ == wire_line(line@),
{
    let n = line.len();
    let end = if n > 0 && line[n - 1] == 10u8 {
        n - 1
    } else {
        n
    };
    let mut r: Vec<u8> = Vec::with_capacity(end + 2);
    let mut i: usize = 0;
    while i < end
        invariant
            end <= n == line@.len(),
            i <= end,
            r@ == line@.subrange(0, i as int),
        decreases end - i,
    {
        r.push(line[i]);
        i = i + 1;
        assert(r@ == line@.subrange(0, i as int));
    }
    r.push(13u8);
    r.push(10u8);
    assert(line@.subrange(0, n as int) == line@);
    assert(line@.subrange(0, (n - 1) as int) == line@.drop_last() || end == n);
    r
}

/// The report of a port that cannot be opened names the port and the baud
/// rate, in that order, and holds nothing else but the fixed words.
pub proof fn lemma_open_failure_names_port_and_baud(port: Seq<char>, baud: nat)
    ensures
        open_failure_text(port, baud).subrange(21, 21 + port.len() as int) == port,
        open_failure_text(port, baud).subrange(
            21 + port.len() as int + 11,
            open_failure_text(port, baud).len() as int,
        ) == decimal(baud),
        open_failure_text(port, baud).subrange(0, 21) == "Unable to connect to "@,
        open_failure_text(port, baud).subrange(21 + port.len() as int, 21 + port.len() as int + 11)
            == " with baud "@,
{
    reveal_strlit("Unable to connect to ");
    reveal_strlit(" with baud ");
    let t = open_failure_text(port, baud);
    assert(t == "Unable to connect to "@ + port + " with baud "@ + decimal(baud));
    assert(t.subrange(21, 21 + port.len() as int) =~= port);
    assert(t.subrange(21 + port.len() as int + 11, t.len() as int) =~= decimal(baud));
    assert(t.subrange(0, 21) =~= "Unable to connect to "@);
    assert(t.subrange(21 + port.len() as int, 21 + port.len() as int + 11) =~= " with baud "@);
}

/// A moment with the offset of the time zone it was seen in: `secs` whole
/// seconds and `nanos` nanoseconds after 1970-01-01T00:00:00Z, seen at
/// `offset_secs` seconds east of UTC.
#[derive(Clone, Copy, Debug, PartialEq, Eq, Structural)]
pub struct Timestamp {
    pub secs: i64,
    pub nanos: u32,
    pub offset_secs: i32,
}

/// The RFC 3339 text that `chrono` gives for a moment seen at an offset.
pub uninterp spec fn rfc3339_of(secs: int, nanos: int, offset_secs: int) -> Seq<char>;

/// Relies on chrono's DateTime::to_rfc3339, on the moment built with
/// FixedOffset::east_opt (`None` for an offset of a day or more) and
/// TimeZone::timestamp_opt (`None` out of chrono's range, which holds every
/// moment from the start of year 1 to the end of 9999 with nanoseconds below
/// a second); writing the text cannot fail.
#[verifier::external_body]
fn rfc3339(t: &Timestamp) -> (r: Option<String>)
    ensures
        r matches Some(s) ==> s@ == rfc3339_of(t.secs as int, t.nanos as int, t.offset_secs as int),
        (t.offset_secs <= -86_400 || t.offset_secs >= 86_400) ==> r is None,
        (-86_400 < t.offset_secs < 86_400 && t.nanos < 1_000_000_000 && -62_135_596_800
            <= t.secs <= 253_402_300_799) ==> r is Some,
{
    match chrono::FixedOffset::east_opt(t.offset_secs) {
        Some(o) => match chrono::TimeZone::timestamp_opt(&o, t.secs, t.nanos).single() {
            Some(d) => Some(d.to_rfc3339()),
            None => None,
        },
        None => None,
    }
}

/// The name of the log file for a run started at `t`, or `None` where the
/// moment cannot be written. A name is given for every moment from the start of
/// year 1 to the end of 9999 seen at an offset of less than a day.
pub fn log_file_name_at(t: &Timestamp) -> (r: Option<String>)
    ensures
        r matches Some(n) ==> n@ == log_name_text(
            rfc3339_of(t.secs as int, t.nanos as int, t.offset_secs as int),
        ),
        (t.offset_secs <= -86_400 || t.offset_secs >= 86_400) ==> r is None,
        (-86_400 < t.offset_secs < 86_400 && t.nanos < 1_000_000_000 && -62_135_596_800
            <= t.secs <= 253_402_300_799) ==> r is Some,
{
    match rfc3339(t) {
        Some(stamp) => Some(log_file_name(stamp.as_str())),
        None => None,
    }
}

} // verus!
