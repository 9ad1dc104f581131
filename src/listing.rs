//! The port listing as a compact JSON array of strings.
use vstd::prelude::*;

verus! {

#[verifier::external_type_specification]
#[verifier::external_body]
pub struct ExJsonError(serde_json::Error);

/// The lower-case hexadecimal digit of `d`, for `d < 16`.
pub open spec fn hex_digit(d: nat) -> char {
    if d < 10 {
        (('0' as nat) + d) as char
    } else {
        (('a' as nat) + d - 10) as char
    }
}

/// How one character stands inside a JSON string: quote and backslash get a
/// backslash, control characters a short escape where JSON has one and a
/// `\u00XX` escape otherwise; every other character stands as it is.
pub open spec fn escaped(c: char) -> Seq<char> {
    if c == '"' {
        seq!['\\', '"']
    } else if c == '\\' {
        seq!['\\', '\\']
    } else if c == '\u{8}' {
        seq!['\\', 'b']
    } else if c == '\t' {
        seq!['\\', 't']
    } else if c == '\n' {
        seq!['\\', 'n']
    } else if c == '\u{c}' {
        seq!['\\', 'f']
    } else if c == '\r' {
        seq!['\\', 'r']
    } else if (c as nat) < 0x20 {
        seq!['\\', 'u', '0', '0', hex_digit((c as nat) / 16), hex_digit((c as nat) % 16)]
    } else {
        seq![c]
    }
}

/// The escaped characters of `s`, in order.
pub open spec fn escape_all(s: Seq<char>) -> Seq<char>
    decreases s.len(),
{
    if s.len() == 0 {
        Seq::empty()
    } else {
        escaped(s[0]) + escape_all(s.skip(1))
    }
}

/// `s` as a JSON string literal.
pub open spec fn json_string(s: Seq<char>) -> Seq<char> {
    seq!['"'] + escape_all(s) + seq!['"']
}

/// The JSON string literals of `names`, separated by commas.
pub open spec fn json_elements(names: Seq<Seq<char>>) -> Seq<char>
    decreases names.len(),
{
    if names.len() == 0 {
        Seq::empty()
    } else if names.len() == 1 {
        json_string(names[0])
    } else {
        json_string(names[0]) + seq![','] + json_elements(names.skip(1))
    }
}

/// `names` as a compact JSON array of strings.
pub open spec fn json_array(names: Seq<Seq<char>>) -> Seq<char> {
    seq!['['] + json_elements(names) + seq![']']
}

/// The text of each string of `v`.
pub open spec fn texts(v: Seq<String>) -> Seq<Seq<char>> {
    v.map_values(|s: String| s@)
}

/// Relies on serde_json::to_string: a sequence of strings is written as `[`,
/// the string literals separated by `,`, then `]`, with no white space; in a
/// literal `"` and `\` are escaped with a backslash, control characters get
/// `\b \t \n \f \r` or `\u00xx`, and nothing else is escaped. Strings cannot
/// make it fail.
#[verifier::external_body]
fn to_json(names: &Vec<String>) -> (r: Result<String, serde_json::Error>)
    ensures
        r is Ok,
        r->Ok_0@ == json_array(texts(names@)),
{
    serde_json::to_string(names)
}

/// The names of the ports as a JSON array of strings, with nothing around it.
pub fn port_list_json(names: &Vec<String>) -> (r: String)
    ensures
        r@ == json_array(texts(names@)),
{
    match to_json(names) {
        Ok(s) => s,
        Err(_) => String::new(),
    }
}

/// The value of a hexadecimal digit, either case.
pub open spec fn hex_value(c: char) -> Option<nat> {
    if '0' <= c && c <= '9' {
        Some(((c as nat) - ('0' as nat)) as nat)
    } else if 'a' <= c && c <= 'f' {
        Some(((c as nat) - ('a' as nat) + 10) as nat)
    } else if 'A' <= c && c <= 'F' {
        Some(((c as nat) - ('A' as nat) + 10) as nat)
    } else {
        None
    }
}

/// The character that the four hexadecimal digits `t[0..4]` of a `\u` escape
/// stand for; a surrogate is not read.
pub open spec fn unicode_escape(t: Seq<char>) -> Option<char> {
    if t.len() >= 4 && hex_value(t[0]) is Some && hex_value(t[1]) is Some && hex_value(t[2]) is Some
        && hex_value(t[3]) is Some {
        let v = ((hex_value(t[0])->Some_0 * 16 + hex_value(t[1])->Some_0) * 16 + hex_value(
            t[2],
        )->Some_0) * 16 + hex_value(t[3])->Some_0;
        if v < 0xd800 || v > 0xdfff {
            Some(v as char)
        } else {
            None
        }
    } else {
        None
    }
}

/// The character that a backslash escape with letter `c` stands for.
pub open spec fn short_escape(c: char) -> Option<char> {
    if c == '"' {
        Some('"')
    } else if c == '\\' {
        Some('\\')
    } else if c == '/' {
        Some('/')
    } else if c == 'b' {
        Some('\u{8}')
    } else if c == 'f' {
        Some('\u{c}')
    } else if c == 'n' {
        Some('\n')
    } else if c == 'r' {
        Some('\r')
    } else if c == 't' {
        Some('\t')
    } else {
        None
    }
}

/// Reads the rest of a JSON string literal whose opening quote is already
/// read: its text and what follows the closing quote.
pub open spec fn decode_string(t: Seq<char>) -> Option<(Seq<char>, Seq<char>)>
    decreases t.len(),
{
    if t.len() == 0 {
        None
    } else if t[0] == '"' {
        Some((Seq::empty(), t.skip(1)))
    } else if t[0] == '\\' {
        if t.len() < 2 {
            None
        } else if t[1] == 'u' {
            match unicode_escape(t.skip(2)) {
                Some(c) => match decode_string(t.skip(6)) {
                    Some((s, r)) => Some((seq![c] + s, r)),
                    None => None,
                },
                None => None,
            }
        } else {
            match short_escape(t[1]) {
                Some(c) => match decode_string(t.skip(2)) {
                    Some((s, r)) => Some((seq![c] + s, r)),
                    None => None,
                },
                None => None,
            }
        }
    } else if (t[0] as nat) < 0x20 {
        None
    } else {
        match decode_string(t.skip(1)) {
            Some((s, r)) => Some((seq![t[0]] + s, r)),
            None => None,
        }
    }
}

/// Reads string literals separated by commas up to the closing bracket, which
/// must end `t`.
pub open spec fn decode_items(t: Seq<char>) -> Option<Seq<Seq<char>>>
    decreases t.len(),
{
    if t.len() == 0 || t[0] != '"' {
        None
    } else {
        match decode_string(t.skip(1)) {
            Some((s, r)) => if r == seq![']'] {
                Some(seq![s])
            } else if r.len() > 0 && r[0] == ',' && r.len() < t.len() {
                match decode_items(r.skip(1)) {
                    Some(xs) => Some(seq![s] + xs),
                    None => None,
                }
            } else {
                None
            },
            None => None,
        }
    }
}

/// Reads `t` as a JSON array of strings with no white space.
pub open spec fn decode_array(t: Seq<char>) -> Option<Seq<Seq<char>>> {
    if t == seq!['[', ']'] {
        Some(Seq::empty())
    } else if t.len() > 0 && t[0] == '[' {
        decode_items(t.skip(1))
    } else {
        None
    }
}

/// Reading back one escaped character.
proof fn lemma_decode_escaped(c: char, t: Seq<char>)
    requires
        decode_string(t) is Some,
    ensures
        decode_string(escaped(c) + t) == Some((seq![c] + decode_string(t)->Some_0.0, decode_string(t)->Some_0.1)),
{
    let e = escaped(c);
    let u = e + t;
    assert(u.skip(e.len() as int) =~= t);
    if (c as nat) < 0x20 && c != '\u{8}' && c != '\t' && c != '\n' && c != '\u{c}' && c != '\r' {
        let hi = (c as nat) / 16;
        let lo = (c as nat) % 16;
        assert(u.skip(2).take(4) =~= seq!['0', '0', hex_digit(hi), hex_digit(lo)]);
        assert(hex_value(hex_digit(hi)) == Some(hi));
        assert(hex_value(hex_digit(lo)) == Some(lo));
        assert(u.skip(2)[2] == hex_digit(hi));
        assert(u.skip(2)[3] == hex_digit(lo));
        assert(((0nat * 16 + 0) * 16 + hi) * 16 + lo == c as nat);
        assert(unicode_escape(u.skip(2)) == Some(c));
        assert(u.skip(6) =~= t);
    } else if c == '"' || c == '\\' || c == '\u{8}' || c == '\t' || c == '\n' || c == '\u{c}' || c == '\r' {
        assert(u.skip(2) =~= t);
    } else {
        assert(u.skip(1) =~= t);
    }
}

/// Reading back the body of a string literal.
proof fn lemma_decode_string(s: Seq<char>, rest: Seq<char>)
    ensures
        decode_string(escape_all(s) + seq!['"'] + rest) == Some((s, rest)),
    decreases s.len(),
{
    if s.len() == 0 {
        assert(escape_all(s) + seq!['"'] + rest =~= seq!['"'] + rest);
        assert((seq!['"'] + rest).skip(1) =~= rest);
    } else {
        lemma_decode_string(s.skip(1), rest);
        let t = escape_all(s.skip(1)) + seq!['"'] + rest;
        lemma_decode_escaped(s[0], t);
        assert(escape_all(s) + seq!['"'] + rest =~= escaped(s[0]) + t);
        assert(seq![s[0]] + s.skip(1) =~= s);
    }
}

/// Reading back the elements, up to the closing bracket.
proof fn lemma_decode_items(names: Seq<Seq<char>>)
    requires
        names.len() > 0,
    ensures
        decode_items(json_elements(names) + seq![']']) == Some(names),
    decreases names.len(),
{
    let t = json_elements(names) + seq![']'];
    let n0 = names[0];
    if names.len() == 1 {
        assert(t.skip(1) =~= escape_all(n0) + seq!['"'] + seq![']']);
        lemma_decode_string(n0, seq![']']);
        assert(seq![n0] =~= names);
    } else {
        let tail = names.skip(1);
        let rest = seq![','] + json_elements(tail) + seq![']'];
        assert(t.skip(1) =~= escape_all(n0) + seq!['"'] + rest);
        lemma_decode_string(n0, rest);
        assert(rest.skip(1) =~= json_elements(tail) + seq![']']);
        lemma_decode_items(tail);
        assert(seq![n0] + tail =~= names);
    }
}

/// The listing reads back, as a JSON array of strings, to exactly the names it
/// was made from: one string per port, whatever the names hold.
pub proof fn lemma_listing_reads_back(names: Seq<Seq<char>>)
    ensures
        decode_array(json_array(names)) == Some(names),
        decode_array(json_array(names))->Some_0.len() == names.len(),
{
    let t = json_array(names);
    if names.len() == 0 {
        assert(t =~= seq!['[', ']']);
        assert(Seq::<Seq<char>>::empty() =~= names);
    } else {
        assert(t.len() > 2);
        assert(t != seq!['[', ']']);
        assert(t.skip(1) =~= json_elements(names) + seq![']']);
        lemma_decode_items(names);
    }
}

} // verus!
