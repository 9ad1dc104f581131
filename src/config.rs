//! The command line surface: flags and options read with `pico_args`.
use vstd::prelude::*;

use crate::listing::texts;
use crate::text::{decimal, digit_char, lemma_open_failure_names_port_and_baud, open_failure_text};

verus! {

/// Baud rate used where the command line has no `--baud`.
pub const DEFAULT_BAUD: u32 = 115_200;

#[verifier::external_type_specification]
#[verifier::external_body]
pub struct ExArguments(pico_args::Arguments);

#[verifier::external_type_specification]
#[verifier::external_body]
pub struct ExArgumentsError(pico_args::Error);

/// The arguments that a `pico_args::Arguments` still holds, in order. Every
/// such value here is made by [`arguments_from`] from strings, so each
/// argument is text.
pub uninterp spec fn args_of(a: pico_args::Arguments) -> Seq<Seq<char>>;

/// The first position of `k` in `xs`.
pub open spec fn index_in(xs: Seq<Seq<char>>, k: Seq<char>) -> Option<int>
    decreases xs.len(),
{
    if xs.len() == 0 {
        None
    } else {
        match index_in(xs.drop_last(), k) {
            Some(i) => Some(i),
            None => if xs.last() == k {
                Some(xs.len() - 1)
            } else {
                None
            },
        }
    }
}

/// Where a flag with a short and a long form stands: the first `short`, else
/// the first `long`.
pub open spec fn key_index(xs: Seq<Seq<char>>, short: Seq<char>, long: Seq<char>) -> Option<int> {
    match index_in(xs, short) {
        Some(i) => Some(i),
        None => index_in(xs, long),
    }
}

/// A short key: `-` and one other character.
pub open spec fn short_key(k: Seq<char>) -> bool {
    k.len() == 2 && k[0] == '-' && k[1] != '-'
}

/// A long key: `--` and what follows.
pub open spec fn long_key(k: Seq<char>) -> bool {
    k.len() >= 2 && k[0] == '-' && k[1] == '-'
}

/// What is left of `xs` once the flag is taken out.
pub open spec fn after_flag(xs: Seq<Seq<char>>, short: Seq<char>, long: Seq<char>) -> Seq<
    Seq<char>,
> {
    match key_index(xs, short, long) {
        Some(i) => xs.remove(i),
        None => xs,
    }
}

/// The option `k` is absent, or followed by a value.
pub open spec fn value_ok(xs: Seq<Seq<char>>, k: Seq<char>) -> bool {
    match index_in(xs, k) {
        Some(i) => i + 1 < xs.len(),
        None => true,
    }
}

/// The value that follows the option `k`, if it is there with one.
pub open spec fn value_of(xs: Seq<Seq<char>>, k: Seq<char>) -> Option<Seq<char>> {
    match index_in(xs, k) {
        Some(i) => if i + 1 < xs.len() {
            Some(xs[i + 1])
        } else {
            None
        },
        None => None,
    }
}

/// What is left of `xs` once the option `k` and its value are taken out; all
/// of it where the option is absent or has no value.
pub open spec fn after_value(xs: Seq<Seq<char>>, k: Seq<char>) -> Seq<Seq<char>> {
    match index_in(xs, k) {
        Some(i) => if i + 1 < xs.len() {
            xs.remove(i).remove(i)
        } else {
            xs
        },
        None => xs,
    }
}

pub open spec fn is_digit(c: char) -> bool {
    '0' <= c && c <= '9'
}

/// The number that the decimal digits `s` write.
pub open spec fn digits_value(s: Seq<char>) -> nat
    decreases s.len(),
{
    if s.len() == 0 {
        0
    } else {
        digits_value(s.drop_last()) * 10 + ((s.last() as nat) - ('0' as nat)) as nat
    }
}

/// The text read as a `u32`: an optional `+`, then one or more decimal
/// digits, with a value that fits.
pub open spec fn parse_u32(s: Seq<char>) -> Option<u32> {
    let d = if s.len() > 0 && s[0] == '+' {
        s.skip(1)
    } else {
        s
    };
    if d.len() > 0 && (forall|i: int| 0 <= i < d.len() ==> is_digit(#[trigger] d[i]))
        && digits_value(d) <= u32::MAX {
        Some(digits_value(d) as u32)
    } else {
        None
    }
}

/// The number that follows the option `k`, if it is there with one that reads.
pub open spec fn u32_of(xs: Seq<Seq<char>>, k: Seq<char>) -> Option<u32> {
    match value_of(xs, k) {
        Some(v) => parse_u32(v),
        None => None,
    }
}

/// What is left of `xs` once the option `k` and a number that reads are
/// taken out; all of it otherwise.
pub open spec fn after_u32(xs: Seq<Seq<char>>, k: Seq<char>) -> Seq<Seq<char>> {
    if u32_of(xs, k) is Some {
        after_value(xs, k)
    } else {
        xs
    }
}

/// Relies on pico_args::Arguments::from_vec: the parser holds the arguments
/// as given.
#[verifier::external_body]
fn arguments_from(v: Vec<String>) -> (r: pico_args::Arguments)
    ensures
        args_of(r) == texts(v@),
{
    pico_args::Arguments::from_vec(v.into_iter().map(|s| s.into()).collect())
}

/// Relies on pico_args::Arguments::contains with a short and a long key: it
/// looks for the first `short`, else the first `long`, and takes out what it
/// finds.
#[verifier::external_body]
fn take_flag(a: &mut pico_args::Arguments, short: &'static str, long: &'static str) -> (r: bool)
    requires
        short_key(short@),
        long_key(long@),
    ensures
        r == key_index(args_of(*old(a)), short@, long@) is Some,
        args_of(*final(a)) == after_flag(args_of(*old(a)), short@, long@),
{
    a.contains([short, long])
}

/// Relies on pico_args::Arguments::opt_value_from_str for a `String`, which
/// every text reads as: the argument after the first `key` is its value, and
/// both are taken out; a `key` that is last is an error, which takes out
/// nothing.
#[verifier::external_body]
fn take_text(a: &mut pico_args::Arguments, key: &'static str) -> (r: Result<
    Option<String>,
    pico_args::Error,
>)
    requires
        long_key(key@),
    ensures
        r is Ok == value_ok(args_of(*old(a)), key@),
        r is Ok ==> (r->Ok_0 is Some == value_of(args_of(*old(a)), key@) is Some),
        r matches Ok(Some(v)) ==> Some(v@) == value_of(args_of(*old(a)), key@),
        args_of(*final(a)) == after_value(args_of(*old(a)), key@),
{
    a.opt_value_from_str(key)
}

/// Relies on pico_args::Arguments::opt_value_from_str for a `u32`, read by
/// `u32`'s `FromStr` (an optional `+` and decimal digits, within range): with
/// no `key`, `None` comes back and nothing is taken; where the argument after
/// the first `key` reads, that number comes back and both are taken out; a
/// `key` that is last or whose value does not read is an error, which takes
/// out nothing.
#[verifier::external_body]
fn take_u32(a: &mut pico_args::Arguments, key: &'static str) -> (r: Result<
    Option<u32>,
    pico_args::Error,
>)
    requires
        long_key(key@),
    ensures
        r is Ok == (index_in(args_of(*old(a)), key@) is None || u32_of(args_of(*old(a)), key@) is Some),
        r matches Ok(o) ==> o == u32_of(args_of(*old(a)), key@),
        args_of(*final(a)) == after_u32(args_of(*old(a)), key@),
{
    a.opt_value_from_str(key)
}

/// Relies on pico_args::Arguments::finish: it hands back the arguments that
/// are left, in order.
#[verifier::external_body]
fn remaining(a: pico_args::Arguments) -> (r: Vec<String>)
    ensures
        texts(r@) == args_of(a),
{
    a.finish().into_iter().map(|s| s.to_string_lossy().into_owned()).collect()
}

/// The configuration read from the command line.
#[derive(Debug)]
pub struct AppArgs {
    /// `-l` / `--list`: list the serial ports.
    pub list: bool,
    /// `--port <name>`: the port to stream.
    pub port: Option<String>,
    /// `--baud <n>`: the baud rate.
    pub baud: u32,
    /// `-f` / `--follow`: reconnect instead of ending on a failure.
    pub follow: bool,
    /// `-s` / `--save`: copy the device's bytes to a log file.
    pub save: bool,
    /// `-b` / `--bl`: put the device into its bootloader.
    pub bl: bool,
}

/// What the command line asks for.
#[derive(Debug)]
pub enum Parsed {
    /// `-h` / `--help`: print the help text and stop.
    Help,
    /// Run with this configuration; `unused` are the arguments that none of
    /// the flags and options took.
    Run { args: AppArgs, unused: Vec<String> },
}

/// A command line that cannot be read.
#[derive(Clone, Copy, Debug, PartialEq, Eq, Structural)]
pub enum ArgError {
    /// `--port` is the last argument, with no value after it.
    PortWithoutValue,
    /// `--baud` is the last argument, or what follows it does not read as a
    /// `u32`.
    BaudUnreadable,
}

/// What is left after `-l`, `--port`, `--baud`, `-f`, `-s` and `-b` are taken
/// out of `xs`, in that order.
pub open spec fn leftover(xs: Seq<Seq<char>>) -> Seq<Seq<char>> {
    let x1 = after_flag(xs, "-l"@, "--list"@);
    let x2 = after_value(x1, "--port"@);
    let x3 = after_u32(x2, "--baud"@);
    let x4 = after_flag(x3, "-f"@, "--follow"@);
    let x5 = after_flag(x4, "-s"@, "--save"@);
    after_flag(x5, "-b"@, "--bl"@)
}

/// Reads the command line `argv` (without the program's own path). Help is
/// asked for by `-h` or `--help` anywhere. Otherwise each flag is looked for
/// in what the ones before left, in the order list, port, baud, follow, save,
/// bootloader. A `--port` with no value after it is an error; so is a `--baud`
/// with no value after it or one that does not read as a `u32`. Without
/// `--baud` the baud rate is [`DEFAULT_BAUD`].
pub fn parse_args(argv: Vec<String>) -> (r: Result<Parsed, ArgError>)
    ensures
        ({
            let x0 = texts(argv@);
            let x1 = after_flag(x0, "-l"@, "--list"@);
            let x2 = after_value(x1, "--port"@);
            let x3 = after_u32(x2, "--baud"@);
            let x4 = after_flag(x3, "-f"@, "--follow"@);
            let x5 = after_flag(x4, "-s"@, "--save"@);
            if key_index(x0, "-h"@, "--help"@) is Some {
                r matches Ok(Parsed::Help)
            } else if !value_ok(x1, "--port"@) {
                r == Err::<Parsed, ArgError>(ArgError::PortWithoutValue)
            } else if index_in(x2, "--baud"@) is Some && u32_of(x2, "--baud"@) is None {
                r == Err::<Parsed, ArgError>(ArgError::BaudUnreadable)
            } else {
                r matches Ok(Parsed::Run { args, unused }) && args.list == key_index(
                    x0,
                    "-l"@,
                    "--list"@,
                ) is Some && (args.port is Some == value_of(x1, "--port"@) is Some) && (
                args.port matches Some(p) ==> Some(p@) == value_of(x1, "--port"@)) && args.baud
                    == (match u32_of(x2, "--baud"@) {
                    Some(n) => n,
                    None => DEFAULT_BAUD,
                }) && args.follow == key_index(x3, "-f"@, "--follow"@) is Some && args.save
                    == key_index(x4, "-s"@, "--save"@) is Some && args.bl == key_index(
                    x5,
                    "-b"@,
                    "--bl"@,
                ) is Some && texts(unused@) == leftover(x0)
            }
        }),
{
    proof {
        reveal_strlit("-h");
        reveal_strlit("--help");
        reveal_strlit("-l");
        reveal_strlit("--list");
        reveal_strlit("--port");
        reveal_strlit("--baud");
        reveal_strlit("-f");
        reveal_strlit("--follow");
        reveal_strlit("-s");
        reveal_strlit("--save");
        reveal_strlit("-b");
        reveal_strlit("--bl");
    }
    let mut a = arguments_from(argv);
    if take_flag(&mut a, "-h", "--help") {
        return Ok(Parsed::Help);
    }
    let list = take_flag(&mut a, "-l", "--list");
    let port = match take_text(&mut a, "--port") {
        Ok(p) => p,
        Err(_) => {
            return Err(ArgError::PortWithoutValue);
        },
    };
    let baud = match take_u32(&mut a, "--baud") {
        Ok(Some(n)) => n,
        Ok(None) => DEFAULT_BAUD,
        Err(_) => {
            return Err(ArgError::BaudUnreadable);
        },
    };
    let follow = take_flag(&mut a, "-f", "--follow");
    let save = take_flag(&mut a, "-s", "--save");
    let bl = take_flag(&mut a, "-b", "--bl");
    let unused = remaining(a);
    Ok(Parsed::Run { args: AppArgs { list, port, baud, follow, save, bl }, unused })
}

/// What a run with a given configuration does.
#[derive(Clone, Copy, Debug, PartialEq, Eq, Structural)]
pub enum Mode {
    /// Print the serial ports as JSON.
    List,
    /// Put the device into its bootloader.
    Bootloader,
    /// Stream the port named by `--port`.
    Stream,
    /// Nothing to do: print the help text.
    Help,
}

/// The job of a run: listing comes first, then the bootloader, then streaming
/// where a port is named; with none of them the help text is printed.
pub fn mode(args: &AppArgs) -> (m: Mode)
    ensures
        m == (if args.list {
            Mode::List
        } else if args.bl {
            Mode::Bootloader
        } else if args.port is Some {
            Mode::Stream
        } else {
            Mode::Help
        }),
{
    if args.list {
        Mode::List
    } else if args.bl {
        Mode::Bootloader
    } else if args.port.is_some() {
        Mode::Stream
    } else {
        Mode::Help
    }
}

/// The decimal text of `n` is digits alone, and reads back as `n`.
pub proof fn lemma_decimal_reads_back(n: u32)
    ensures
        decimal(n as nat).len() >= 1,
        forall|i: int| 0 <= i < decimal(n as nat).len() ==> is_digit(#[trigger] decimal(n as nat)[i]),
        parse_u32(decimal(n as nat)) == Some(n),
{
    lemma_decimal_digits(n as nat);
    assert(decimal(n as nat)[0] != '+') by {
        assert(is_digit(decimal(n as nat)[0]));
    }
}

proof fn lemma_decimal_digits(n: nat)
    ensures
        decimal(n).len() >= 1,
        forall|i: int| 0 <= i < decimal(n).len() ==> is_digit(#[trigger] decimal(n)[i]),
        digits_value(decimal(n)) == n,
    decreases n,
{
    if n < 10 {
        assert(decimal(n).drop_last() =~= Seq::<char>::empty());
        assert(digit_char(n) as nat == ('0' as nat) + n);
        assert(digits_value(decimal(n).drop_last()) == 0);
        assert(decimal(n).last() == digit_char(n));
    } else {
        lemma_decimal_digits(n / 10);
        let d = decimal(n);
        assert(d == decimal(n / 10) + seq![digit_char(n % 10)]);
        assert(d.drop_last() =~= decimal(n / 10));
        assert(digit_char(n % 10) as nat == ('0' as nat) + n % 10);
        assert((n / 10) * 10 + n % 10 == n);
        assert(d.last() == digit_char(n % 10));
        assert(digits_value(d) == digits_value(d.drop_last()) * 10 + ((d.last() as nat) - ('0' as nat)) as nat);
        assert forall|i: int| 0 <= i < d.len() implies is_digit(#[trigger] d[i]) by {
            if i < d.len() - 1 {
                assert(d[i] == decimal(n / 10)[i]);
            }
        }
    }
}

/// No argument is `k`: the key is not found.
proof fn lemma_index_absent(xs: Seq<Seq<char>>, k: Seq<char>)
    requires
        forall|i: int| 0 <= i < xs.len() ==> xs[i] != k,
    ensures
        index_in(xs, k) is None,
    decreases xs.len(),
{
    if xs.len() > 0 {
        lemma_index_absent(xs.drop_last(), k);
    }
}

/// `k` is the first argument: it is found there.
proof fn lemma_index_first(xs: Seq<Seq<char>>, k: Seq<char>)
    requires
        xs.len() > 0,
        xs[0] == k,
    ensures
        index_in(xs, k) == Some(0int),
    decreases xs.len(),
{
    if xs.len() > 1 {
        assert(xs.drop_last()[0] == k);
        lemma_index_first(xs.drop_last(), k);
    } else {
        assert(index_in(xs.drop_last(), k) is None);
        assert(xs.last() == k);
    }
}

/// `--port n --baud b`, for any baud rate `b` written in decimal and any port
/// name `n` that is not itself the help or list flag, reads as streaming port
/// `n` at baud `b` with no other flag and nothing left over. Where that port
/// cannot be opened, the report names `n` and a number that reads back as `b`.
pub proof fn lemma_port_and_baud_read(n: Seq<char>, b: u32)
    requires
        n != "-h"@,
        n != "--help"@,
        n != "-l"@,
        n != "--list"@,
    ensures
        ({
            let xs = seq!["--port"@, n, "--baud"@, decimal(b as nat)];
            let x1 = after_flag(xs, "-l"@, "--list"@);
            let x2 = after_value(x1, "--port"@);
            let x3 = after_u32(x2, "--baud"@);
            let x4 = after_flag(x3, "-f"@, "--follow"@);
            let x5 = after_flag(x4, "-s"@, "--save"@);
            &&& key_index(xs, "-h"@, "--help"@) is None
            &&& key_index(xs, "-l"@, "--list"@) is None
            &&& value_ok(x1, "--port"@)
            &&& value_of(x1, "--port"@) == Some(n)
            &&& u32_of(x2, "--baud"@) == Some(b)
            &&& key_index(x3, "-f"@, "--follow"@) is None
            &&& key_index(x4, "-s"@, "--save"@) is None
            &&& key_index(x5, "-b"@, "--bl"@) is None
            &&& leftover(xs) == Seq::<Seq<char>>::empty()
        }),
        open_failure_text(n, b as nat).subrange(21, 21 + n.len() as int) == n,
        parse_u32(
            open_failure_text(n, b as nat).subrange(
                21 + n.len() as int + 11,
                open_failure_text(n, b as nat).len() as int,
            ),
        ) == Some(b),
{
    reveal_strlit("-h");
    reveal_strlit("--help");
    reveal_strlit("-l");
    reveal_strlit("--list");
    reveal_strlit("--port");
    reveal_strlit("--baud");
    lemma_decimal_reads_back(b);
    lemma_open_failure_names_port_and_baud(n, b as nat);
    let d = decimal(b as nat);
    let xs = seq!["--port"@, n, "--baud"@, d];
    assert(d != "-h"@ && d != "--help"@ && d != "-l"@ && d != "--list"@) by {
        assert(is_digit(d[0]));
        assert("-h"@[0] == '-' && "--help"@[0] == '-' && "-l"@[0] == '-' && "--list"@[0] == '-');
    }
    assert("--port"@.len() == 6 && "--baud"@.len() == 6);
    assert("-h"@.len() == 2 && "--help"@.len() == 6 && "-l"@.len() == 2 && "--list"@.len() == 6);
    assert("--port"@[2] == 'p' && "--baud"@[2] == 'b' && "--help"@[2] == 'h' && "--list"@[2] == 'l');
    assert(xs[0] == "--port"@ && xs[1] == n && xs[2] == "--baud"@ && xs[3] == d);
    assert(forall|i: int| 0 <= i < xs.len() ==> xs[i] != "-h"@);
    assert(forall|i: int| 0 <= i < xs.len() ==> xs[i] != "--help"@);
    assert(forall|i: int| 0 <= i < xs.len() ==> xs[i] != "-l"@);
    assert(forall|i: int| 0 <= i < xs.len() ==> xs[i] != "--list"@);
    lemma_index_absent(xs, "-h"@);
    lemma_index_absent(xs, "--help"@);
    lemma_index_absent(xs, "-l"@);
    lemma_index_absent(xs, "--list"@);
    lemma_index_first(xs, "--port"@);
    let x2 = xs.remove(0).remove(0);
    assert(x2 =~= seq!["--baud"@, d]);
    lemma_index_first(x2, "--baud"@);
    assert(x2.remove(0).remove(0) =~= Seq::<Seq<char>>::empty());
}

} // verus!
