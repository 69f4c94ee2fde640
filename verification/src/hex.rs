use vstd::prelude::*;
use vstd::string::*;

verus! {

/// Why a hexadecimal number could not be read; the same three outcomes as
/// std's `ParseIntError` for unsigned types.
#[derive(Debug, PartialEq, Eq, Structural, Clone, Copy)]
pub enum IntParseError {
    Empty,
    InvalidDigit,
    PosOverflow,
}

impl IntParseError {
    /// The text std prints for the corresponding `ParseIntError`.
    pub open spec fn spec_message(self) -> Seq<char> {
        match self {
            IntParseError::Empty => "cannot parse integer from empty string"@,
            IntParseError::InvalidDigit => "invalid digit found in string"@,
            IntParseError::PosOverflow => "number too large to fit in target type"@,
        }
    }

    pub fn message(&self) -> (m: String)
        ensures
            m@ == self.spec_message(),
    {
        match self {
            IntParseError::Empty => String::from_str("cannot parse integer from empty string"),
            IntParseError::InvalidDigit => String::from_str("invalid digit found in string"),
            IntParseError::PosOverflow => String::from_str("number too large to fit in target type"),
        }
    }
}

/// Value of an ASCII hexadecimal digit (either case).
pub open spec fn hex_digit_value(c: char) -> Option<int> {
    let n = c as int;
    if 48 <= n <= 57 {
        Some(n - 48)
    } else if 97 <= n <= 102 {
        Some(n - 87)
    } else if 65 <= n <= 70 {
        Some(n - 55)
    } else {
        None
    }
}

/// `s` with every leading `"0x"` removed (as `trim_start_matches("0x")`).
pub open spec fn strip_hex_prefix(s: Seq<char>) -> Seq<char>
    decreases s.len(),
{
    if s.len() >= 2 && s[0] == '0' && s[1] == 'x' {
        strip_hex_prefix(s.skip(2))
    } else {
        s
    }
}

/// Left-to-right scan of hexadecimal digits onto `acc`: the first character
/// that is no digit gives `InvalidDigit`, the first digit that pushes the
/// value over `max` gives `PosOverflow`.
pub open spec fn hex_scan(ds: Seq<char>, acc: int, max: int) -> Result<int, IntParseError>
    decreases ds.len(),
{
    if ds.len() == 0 {
        Ok(acc)
    } else {
        match hex_digit_value(ds[0]) {
            None => Err(IntParseError::InvalidDigit),
            Some(d) => if acc * 16 + d > max {
                Err(IntParseError::PosOverflow)
            } else {
                hex_scan(ds.skip(1), acc * 16 + d, max)
            },
        }
    }
}

/// Radix-16 reading of `s` into an unsigned integer no larger than `max`,
/// as `from_str_radix(s, 16)` of std does for unsigned types: an optional
/// leading `+`, then at least one digit.
pub open spec fn parse_radix16(s: Seq<char>, max: int) -> Result<int, IntParseError> {
    if s.len() == 0 {
        Err(IntParseError::Empty)
    } else if s.len() == 1 && (s[0] == '+' || s[0] == '-') {
        Err(IntParseError::InvalidDigit)
    } else if s[0] == '+' {
        hex_scan(s.skip(1), 0, max)
    } else {
        hex_scan(s, 0, max)
    }
}

/// Reading of a hexadecimal text with its `0x` prefixes removed.
pub open spec fn parse_prefixed_hex_spec(s: Seq<char>, max: int) -> Result<int, IntParseError> {
    parse_radix16(strip_hex_prefix(s), max)
}

proof fn lemma_hex_scan_bounds(ds: Seq<char>, acc: int, max: int)
    requires
        0 <= acc <= max,
    ensures
        hex_scan(ds, acc, max) matches Ok(v) ==> 0 <= v <= max,
    decreases ds.len(),
{
    if ds.len() > 0 {
        if let Some(d) = hex_digit_value(ds[0]) {
            if acc * 16 + d <= max {
                lemma_hex_scan_bounds(ds.skip(1), acc * 16 + d, max);
            }
        }
    }
}

/// A successful reading lies between 0 and the limit.
pub proof fn lemma_parse_radix16_bounds(s: Seq<char>, max: int)
    requires
        0 <= max,
    ensures
        parse_radix16(s, max) matches Ok(v) ==> 0 <= v <= max,
{
    if s.len() > 0 {
        lemma_hex_scan_bounds(s.skip(1), 0, max);
        lemma_hex_scan_bounds(s, 0, max);
    }
}

/// The character that writes the hexadecimal digit `d` (0 to 15): `0`-`9`,
/// then `a`-`f`, or `A`-`F` when `upper`.
pub open spec fn hex_char(d: int, upper: bool) -> char {
    if d < 10 {
        ('0' as int + d) as char
    } else if upper {
        ('A' as int + (d - 10)) as char
    } else {
        ('a' as int + (d - 10)) as char
    }
}

/// The text that writes the digits `ds`, each letter in the case `upper`
/// gives for its position.
pub open spec fn hex_text(ds: Seq<int>, upper: Seq<bool>) -> Seq<char> {
    Seq::new(ds.len(), |i: int| hex_char(ds[i], upper[i]))
}

/// `16` to the power `n`.
pub open spec fn pow16(n: nat) -> int
    decreases n,
{
    if n == 0 {
        1
    } else {
        16 * pow16((n - 1) as nat)
    }
}

/// The number the digits `ds` stand for, most significant first.
pub open spec fn hex_number(ds: Seq<int>) -> int
    decreases ds.len(),
{
    if ds.len() == 0 {
        0
    } else {
        ds[0] * pow16((ds.len() - 1) as nat) + hex_number(ds.skip(1))
    }
}

proof fn lemma_pow16_pos(n: nat)
    ensures
        pow16(n) >= 1,
    decreases n,
{
    if n > 0 {
        lemma_pow16_pos((n - 1) as nat);
    }
}

proof fn lemma_hex_number_nonneg(ds: Seq<int>)
    requires
        forall|i: int| 0 <= i < ds.len() ==> 0 <= #[trigger] ds[i] < 16,
    ensures
        hex_number(ds) >= 0,
    decreases ds.len(),
{
    if ds.len() > 0 {
        lemma_hex_number_nonneg(ds.skip(1));
        lemma_pow16_pos((ds.len() - 1) as nat);
        assert(ds[0] * pow16((ds.len() - 1) as nat) >= 0) by (nonlinear_arith)
            requires
                ds[0] >= 0,
                pow16((ds.len() - 1) as nat) >= 1,
        ;
    }
}

/// Scanning written digits onto `acc` gives `acc` shifted past them plus
/// their number, or `PosOverflow` when that is past `max`.
proof fn lemma_hex_scan_text(ds: Seq<int>, upper: Seq<bool>, acc: int, max: int)
    requires
        upper.len() == ds.len(),
        forall|i: int| 0 <= i < ds.len() ==> 0 <= #[trigger] ds[i] < 16,
        0 <= acc <= max,
    ensures
        hex_scan(hex_text(ds, upper), acc, max) == (if acc * pow16(ds.len()) + hex_number(ds) <= max {
            Ok::<int, IntParseError>(acc * pow16(ds.len()) + hex_number(ds))
        } else {
            Err::<int, IntParseError>(IntParseError::PosOverflow)
        }),
    decreases ds.len(),
{
    let t = hex_text(ds, upper);
    if ds.len() > 0 {
        let rest = ds.skip(1);
        let n1 = (ds.len() - 1) as nat;
        assert(t.skip(1) =~= hex_text(rest, upper.skip(1)));
        let d = ds[0];
        assert(hex_digit_value(t[0]) == Some(d));
        let p = pow16(n1);
        lemma_pow16_pos(n1);
        lemma_hex_number_nonneg(rest);
        assert(pow16(ds.len()) == 16 * p);
        assert(hex_number(ds) == d * p + hex_number(rest));
        let acc2 = acc * 16 + d;
        assert(acc * pow16(ds.len()) + hex_number(ds) == acc2 * p + hex_number(rest)) by (nonlinear_arith)
            requires
                pow16(ds.len()) == 16 * p,
                hex_number(ds) == d * p + hex_number(rest),
                acc2 == acc * 16 + d,
        ;
        assert(acc2 <= acc2 * p) by (nonlinear_arith)
            requires
                acc2 >= 0,
                p >= 1,
        ;
        if acc2 <= max {
            lemma_hex_scan_text(rest, upper.skip(1), acc2, max);
        }
    }
}

/// Law: a hexadecimal text reads as the number its digits stand for. For
/// any non-empty digits `ds` (each 0 to 15) written in any mix of letter
/// case, with or without a leading `0x`, and any limit `max` from 0 on:
/// the reading is that number when it is at most `max`, and `PosOverflow`
/// when it is larger.
pub proof fn lemma_hex_text_reads_as_number(ds: Seq<int>, upper: Seq<bool>, prefixed: bool, max: int)
    requires
        ds.len() > 0,
        upper.len() == ds.len(),
        forall|i: int| 0 <= i < ds.len() ==> 0 <= #[trigger] ds[i] < 16,
        0 <= max,
    ensures
        hex_number(ds) > max ==> parse_prefixed_hex_spec(
            if prefixed {
                seq!['0', 'x'] + hex_text(ds, upper)
            } else {
                hex_text(ds, upper)
            },
            max,
        ) == Err::<int, IntParseError>(IntParseError::PosOverflow),
        hex_number(ds) <= max ==> parse_prefixed_hex_spec(
            if prefixed {
                seq!['0', 'x'] + hex_text(ds, upper)
            } else {
                hex_text(ds, upper)
            },
            max,
        ) == Ok::<int, IntParseError>(hex_number(ds)),
{
    let t = hex_text(ds, upper);
    assert(t[0] == hex_char(ds[0], upper[0]));
    if t.len() >= 2 {
        assert(t[1] == hex_char(ds[1], upper[1]));
        assert(t[1] != 'x');
    }
    assert(strip_hex_prefix(t) == t);
    if prefixed {
        let pt = seq!['0', 'x'] + t;
        assert(pt.skip(2) =~= t);
        assert(strip_hex_prefix(pt) == strip_hex_prefix(t));
    }
    lemma_hex_scan_text(ds, upper, 0, max);
}

/// The characters of a string slice, in order.
pub fn chars_of(s: &str) -> (v: Vec<char>)
    ensures
        v@ == s@,
{
    let n = s.unicode_len();
    let mut v: Vec<char> = Vec::new();
    let mut i: usize = 0;
    while i < n
        invariant
            n == s@.len(),
            i <= n,
            v@ == s@.subrange(0, i as int),
        decreases n - i,
    {
        let c = s.get_char(i);
        v.push(c);
        i = i + 1;
    }
    assert(v@ =~= s@);
    v
}

fn digit_value(c: char) -> (r: Option<u64>)
    ensures
        match hex_digit_value(c) {
            Some(d) => r == Some(d as u64),
            None => r is None,
        },
{
    let n = c as u32;
    if 48 <= n && n <= 57 {
        Some((n - 48) as u64)
    } else if 97 <= n && n <= 102 {
        Some((n - 87) as u64)
    } else if 65 <= n && n <= 70 {
        Some((n - 55) as u64)
    } else {
        None
    }
}

/// Reads `s` as hexadecimal after removing its leading `"0x"` prefixes,
/// refusing values above `max`.
pub fn parse_prefixed_hex(s: &str, max: u64) -> (r: Result<u64, IntParseError>)
    requires
        max <= u32::MAX,
    ensures
        match parse_prefixed_hex_spec(s@, max as int) {
            Ok(v) => r == Ok::<u64, IntParseError>(v as u64),
            Err(e) => r == Err::<u64, IntParseError>(e),
        },
        r matches Ok(v) ==> v <= max,
        parse_prefixed_hex_spec(s@, max as int) matches Ok(v) ==> 0 <= v <= max,
{
    proof {
        lemma_parse_radix16_bounds(strip_hex_prefix(s@), max as int);
    }
    let cs = chars_of(s);
    let n = cs.len();
    let mut i: usize = 0;
    assert(s@.skip(0) =~= s@);
    while i < n && n - i >= 2 && cs[i] == '0' && cs[i + 1] == 'x'
        invariant
            cs@ == s@,
            n == cs.len(),
            i <= n,
            strip_hex_prefix(s@) == strip_hex_prefix(s@.skip(i as int)),
        decreases n - i,
    {
        assert(s@.skip(i as int).skip(2) =~= s@.skip(i + 2));
        i = i + 2;
    }
    let ghost rest = s@.skip(i as int);
    assert(strip_hex_prefix(s@) == rest);
    if i == n {
        assert(rest.len() == 0);
        return Err(IntParseError::Empty);
    }
    if i + 1 == n && (cs[i] == '+' || cs[i] == '-') {
        return Err(IntParseError::InvalidDigit);
    }
    let mut j: usize = i;
    if cs[i] == '+' {
        j = i + 1;
    }
    let ghost digits = s@.skip(j as int);
    assert(parse_radix16(rest, max as int) == hex_scan(digits, 0, max as int)) by {
        if cs[i as int] == '+' {
            assert(rest.skip(1) =~= digits);
        } else {
            assert(rest =~= digits);
        }
    }
    let mut acc: u64 = 0;
    while j < n
        invariant
            cs@ == s@,
            n == cs.len(),
            j <= n,
            max <= u32::MAX,
            acc <= max,
            parse_prefixed_hex_spec(s@, max as int) == hex_scan(digits, 0, max as int),
            hex_scan(digits, 0, max as int) == hex_scan(s@.skip(j as int), acc as int, max as int),
        decreases n - j,
    {
        let ghost tail = s@.skip(j as int);
        assert(tail.len() > 0 && tail[0] == cs@[j as int]);
        match digit_value(cs[j]) {
            None => {
                return Err(IntParseError::InvalidDigit);
            },
            Some(d) => {
                if acc * 16 + d > max {
                    return Err(IntParseError::PosOverflow);
                }
                assert(tail.skip(1) =~= s@.skip(j + 1));
                acc = acc * 16 + d;
                j = j + 1;
            },
        }
    }
    assert(s@.skip(j as int).len() == 0);
    proof {
        lemma_hex_scan_bounds(digits, 0, max as int);
    }
    Ok(acc)
}

} // verus!
