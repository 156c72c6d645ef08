//! The command line: the file to serve and the port to listen on.
use vstd::prelude::*;
use vstd::string::*;

verus! {

/// The port used when none is given.
pub const DEFAULT_PORT: u16 = 3000;

/// What the program serves: the target file and the loopback port.
pub struct Config {
    pub path: String,
    pub port: u16,
}

/// Why the command line was refused.
#[derive(Clone, Copy, Debug, PartialEq, Eq, Structural)]
pub enum ArgError {
    /// No file name was given.
    MissingFilename,
    /// The port is not a decimal number in `0..=65535`.
    InvalidPort,
}

impl ArgError {
    /// The line printed on standard error for this refusal.
    pub fn message(&self) -> (r: &'static str)
        ensures
            *self == ArgError::MissingFilename ==> r@ == "Missing filename argument"@,
            *self == ArgError::InvalidPort ==> r@ == "Invalid port argument"@,
    {
        match self {
            ArgError::MissingFilename => "Missing filename argument",
            ArgError::InvalidPort => "Invalid port argument",
        }
    }
}

/// A decimal digit.
pub open spec fn is_digit(c: char) -> bool {
    '0' <= c && c <= '9'
}

/// The value of a decimal digit.
pub open spec fn digit_value(c: char) -> int {
    c as int - '0' as int
}

/// The value of a string of decimal digits, most significant first.
pub open spec fn decimal_value(d: Seq<char>) -> int
    decreases d.len(),
{
    if d.len() == 0 {
        0
    } else {
        decimal_value(d.drop_last()) * 10 + digit_value(d.last())
    }
}

/// Every character is a decimal digit.
pub open spec fn all_digits(d: Seq<char>) -> bool {
    forall|i: int| 0 <= i < d.len() ==> is_digit(#[trigger] d[i])
}

/// The digits of a port argument: one leading `+` is allowed.
pub open spec fn unsigned_part(s: Seq<char>) -> Seq<char> {
    if s.len() > 0 && s[0] == '+' {
        s.drop_first()
    } else {
        s
    }
}

/// The port a text denotes: a non-empty run of decimal digits, after an
/// optional `+`, whose value fits in 16 bits.
pub open spec fn port_of(s: Seq<char>) -> Option<u16> {
    let d = unsigned_part(s);
    if d.len() > 0 && all_digits(d) && decimal_value(d) <= 65535 {
        Some(decimal_value(d) as u16)
    } else {
        None
    }
}

/// The configuration the positional arguments give, as a path and a port.
pub open spec fn config_of(args: Seq<Seq<char>>) -> Result<(Seq<char>, u16), ArgError> {
    if args.len() == 0 {
        Err(ArgError::MissingFilename)
    } else if args.len() == 1 {
        Ok((args[0], DEFAULT_PORT))
    } else {
        match port_of(args[1]) {
            Some(p) => Ok((args[0], p)),
            None => Err(ArgError::InvalidPort),
        }
    }
}

/// The text of each argument.
pub open spec fn texts(args: Seq<String>) -> Seq<Seq<char>> {
    args.map_values(|a: String| a@)
}

/// The loopback address `127.0.0.1`.
pub open spec fn loopback() -> Seq<u8> {
    seq![127u8, 0, 0, 1]
}

/// A run of digits has a value of at least zero.
pub proof fn lemma_value_nonneg(d: Seq<char>)
    requires
        all_digits(d),
    ensures
        decimal_value(d) >= 0,
    decreases d.len(),
{
    if d.len() > 0 {
        let shorter = d.drop_last();
        assert(all_digits(shorter)) by {
            assert forall|i: int| 0 <= i < shorter.len() implies is_digit(#[trigger] shorter[i]) by {
                assert(shorter[i] == d[i]);
            }
        }
        assert(is_digit(d[d.len() - 1]));
        lemma_value_nonneg(shorter);
    }
}

/// A longer run of digits never has a smaller value.
pub proof fn lemma_value_of_prefix(d: Seq<char>, k: int)
    requires
        all_digits(d),
        0 <= k <= d.len(),
    ensures
        decimal_value(d.subrange(0, k)) <= decimal_value(d),
    decreases d.len(),
{
    if k < d.len() {
        let shorter = d.drop_last();
        assert(shorter.subrange(0, k) =~= d.subrange(0, k));
        assert(all_digits(shorter)) by {
            assert forall|i: int| 0 <= i < shorter.len() implies is_digit(#[trigger] shorter[i]) by {
                assert(shorter[i] == d[i]);
            }
        }
        assert(is_digit(d[d.len() - 1]));
        lemma_value_nonneg(shorter);
        lemma_value_of_prefix(shorter, k);
    } else {
        assert(d.subrange(0, k) =~= d);
    }
}

/// Parses a port argument as the standard library reads a `u16`.
pub fn parse_port(s: &str) -> (r: Option<u16>)
    ensures
        r == port_of(s@),
{
    let n = s.unicode_len();
    let mut start: usize = 0;
    if n > 0 && s.get_char(0) == '+' {
        start = 1;
    }
    let ghost d = unsigned_part(s@);
    assert(d =~= s@.subrange(start as int, n as int));
    if start == n {
        return None;
    }
    let mut acc: u32 = 0;
    let mut i: usize = start;
    while i < n
        invariant
            start <= i <= n,
            n == s@.len(),
            d == s@.subrange(start as int, n as int),
            d == unsigned_part(s@),
            acc <= 65535,
            all_digits(d.subrange(0, i - start)),
            acc == decimal_value(d.subrange(0, i - start)),
        decreases n - i,
    {
        let c = s.get_char(i);
        assert(d[i - start] == c);
        if c < '0' || c > '9' {
            assert(!is_digit(d[i - start]));
            return None;
        }
        let ghost before = d.subrange(0, i - start);
        let ghost after = d.subrange(0, i - start + 1);
        assert(after.drop_last() =~= before);
        assert(after.last() == c);
        acc = acc * 10 + (c as u32 - '0' as u32);
        assert(acc == decimal_value(after));
        assert(all_digits(after)) by {
            assert forall|m: int| 0 <= m < after.len() implies is_digit(#[trigger] after[m]) by {
                if m < before.len() {
                    assert(after[m] == before[m]);
                }
            }
        }
        if acc > 65535 {
            proof {
                if all_digits(d) {
                    lemma_value_of_prefix(d, i - start + 1);
                }
            }
            return None;
        }
        i = i + 1;
    }
    assert(d.subrange(0, n - start) =~= d);
    Some(acc as u16)
}

/// Reads the positional arguments: the target file, then an optional port.
/// Arguments after the port are ignored.
pub fn parse_args(args: &Vec<String>) -> (r: Result<Config, ArgError>)
    ensures
        match r {
            Ok(c) => config_of(texts(args@)) == Ok::<(Seq<char>, u16), ArgError>((c.path@, c.port)),
            Err(e) => config_of(texts(args@)) == Err::<(Seq<char>, u16), ArgError>(e),
        },
{
    let ghost views = texts(args@);
    if args.len() == 0 {
        return Err(ArgError::MissingFilename);
    }
    let path = args[0].clone();
    assert(views[0] == args@[0]@);
    if args.len() == 1 {
        return Ok(Config { path, port: DEFAULT_PORT });
    }
    assert(views[1] == args@[1]@);
    match parse_port(args[1].as_str()) {
        Some(port) => Ok(Config { path, port }),
        None => Err(ArgError::InvalidPort),
    }
}

/// The socket address to listen on: loopback only.
pub fn listen_addr(port: u16) -> (r: ([u8; 4], u16))
    ensures
        r.0@ == loopback(),
        r.1 == port,
{
    let ip: [u8; 4] = [127, 0, 0, 1];
    assert(ip@ =~= loopback());
    (ip, port)
}

/// The decimal digit for `n` in `0..10`.
pub open spec fn digit_char(n: int) -> char {
    seq!['0', '1', '2', '3', '4', '5', '6', '7', '8', '9'][n]
}

/// The usual decimal text of a number: no sign, no leading zeros.
pub open spec fn decimal_text(n: nat) -> Seq<char>
    decreases n,
{
    if n < 10 {
        seq![digit_char(n as int)]
    } else {
        decimal_text(n / 10).push(digit_char((n % 10) as int))
    }
}

/// Each digit character is a digit with the value it stands for.
pub proof fn lemma_digit_char(n: int)
    requires
        0 <= n < 10,
    ensures
        is_digit(digit_char(n)),
        digit_value(digit_char(n)) == n,
{
    let d = seq!['0', '1', '2', '3', '4', '5', '6', '7', '8', '9'];
    if n == 0 {
        assert(d[0] == '0');
    } else if n == 1 {
        assert(d[1] == '1');
    } else if n == 2 {
        assert(d[2] == '2');
    } else if n == 3 {
        assert(d[3] == '3');
    } else if n == 4 {
        assert(d[4] == '4');
    } else if n == 5 {
        assert(d[5] == '5');
    } else if n == 6 {
        assert(d[6] == '6');
    } else if n == 7 {
        assert(d[7] == '7');
    } else if n == 8 {
        assert(d[8] == '8');
    } else {
        assert(d[9] == '9');
    }
}

/// The decimal text of a number is a non-empty run of digits worth that number.
pub proof fn lemma_decimal_text(n: nat)
    ensures
        decimal_text(n).len() > 0,
        all_digits(decimal_text(n)),
        decimal_value(decimal_text(n)) == n,
    decreases n,
{
    if n < 10 {
        lemma_digit_char(n as int);
        assert(seq![digit_char(n as int)].drop_last() =~= Seq::<char>::empty());
        assert(decimal_value(Seq::<char>::empty()) == 0);
    } else {
        lemma_decimal_text(n / 10);
        lemma_digit_char((n % 10) as int);
        let t = decimal_text(n);
        assert(t.drop_last() =~= decimal_text(n / 10));
        assert(t.last() == digit_char((n % 10) as int));
        assert((n / 10) * 10 + n % 10 == n);
        assert forall|i: int| 0 <= i < t.len() implies is_digit(#[trigger] t[i]) by {
            if i < t.len() - 1 {
                assert(t[i] == decimal_text(n / 10)[i]);
            }
        }
    }
}

/// Starting with a path and the decimal text of a port serves that path on
/// that port (of the loopback address, see `listen_addr`).
pub proof fn lemma_startup_args(path: Seq<char>, port: u16)
    ensures
        config_of(seq![path, decimal_text(port as nat)]) == Ok::<(Seq<char>, u16), ArgError>(
            (path, port),
        ),
{
    let t = decimal_text(port as nat);
    lemma_decimal_text(port as nat);
    assert(is_digit(t[0]));
    assert(unsigned_part(t) == t);
}

} // verus!
