//! Numerals of the counting game: five notations, read from a single token.
use vstd::prelude::*;

verus! {

/// The notation a count was written in.
#[derive(Clone, Copy, Debug, PartialEq, Eq, Structural)]
pub enum NumberFormat {
    Decimal,
    Binary,
    Hexadecimal,
    Unary,
    Octal,
}

/// Value of `c` read as a digit (`0-9`, then `a-z` or `A-Z` for 10 to 35);
/// 36 for a character that is a digit in no radix.
pub open spec fn digit_value(c: char) -> nat {
    if '0' <= c && c <= '9' {
        (c as u32 - '0' as u32) as nat
    } else if 'a' <= c && c <= 'z' {
        (c as u32 - 'a' as u32 + 10) as nat
    } else if 'A' <= c && c <= 'Z' {
        (c as u32 - 'A' as u32 + 10) as nat
    } else {
        36
    }
}

/// Positional value of a digit sequence, most significant digit first.
pub open spec fn value_of_digits(ds: Seq<char>, radix: nat) -> nat
    decreases ds.len(),
{
    if ds.len() == 0 {
        0
    } else {
        value_of_digits(ds.drop_last(), radix) * radix + digit_value(ds.last())
    }
}

/// Every character of `ds` is a digit in `radix`.
pub open spec fn all_digits(ds: Seq<char>, radix: nat) -> bool {
    forall|i: int| 0 <= i < ds.len() ==> digit_value(#[trigger] ds[i]) < radix
}

/// An unsigned 64-bit integer written in `radix`: an optional `+`, then at
/// least one digit, and a value that fits.
pub open spec fn radix_value(s: Seq<char>, radix: nat) -> Option<u64> {
    let ds = if s.len() > 0 && s[0] == '+' {
        s.drop_first()
    } else {
        s
    };
    if ds.len() > 0 && all_digits(ds, radix) && value_of_digits(ds, radix) <= u64::MAX {
        Some(value_of_digits(ds, radix) as u64)
    } else {
        None
    }
}

/// `s` begins with `a` and then `b`.
pub open spec fn starts_with_pair(s: Seq<char>, a: char, b: char) -> bool {
    s.len() >= 2 && s[0] == a && s[1] == b
}

/// A value, where there is one, paired with notation `f`.
pub open spec fn tagged(v: Option<u64>, f: NumberFormat) -> Option<(u64, NumberFormat)> {
    match v {
        Some(n) => Some((n, f)),
        None => None,
    }
}

/// `s` holds nothing but the digit zero.
pub open spec fn all_zeros(s: Seq<char>) -> bool {
    forall|i: int| 0 <= i < s.len() ==> #[trigger] s[i] == '0'
}

/// A token read as a count. The notations are tried in this order, the
/// first that matches decides: `0x` prefix (hexadecimal), `h` suffix
/// (hexadecimal), `0o` prefix (octal), `0b` prefix (binary), `0u` prefix
/// followed by zeros only (unary: the number of zeros), else decimal.
pub open spec fn parse_spec(t: Seq<char>) -> Option<(u64, NumberFormat)> {
    if starts_with_pair(t, '0', 'x') {
        tagged(radix_value(t.skip(2), 16), NumberFormat::Hexadecimal)
    } else if t.len() > 0 && t.last() == 'h' {
        tagged(radix_value(t.drop_last(), 16), NumberFormat::Hexadecimal)
    } else if starts_with_pair(t, '0', 'o') {
        tagged(radix_value(t.skip(2), 8), NumberFormat::Octal)
    } else if starts_with_pair(t, '0', 'b') {
        tagged(radix_value(t.skip(2), 2), NumberFormat::Binary)
    } else if starts_with_pair(t, '0', 'u') {
        if all_zeros(t.skip(2)) {
            Some(((t.len() - 2) as u64, NumberFormat::Unary))
        } else {
            None
        }
    } else {
        tagged(radix_value(t, 10), NumberFormat::Decimal)
    }
}

proof fn lemma_value_of_prefix_grows(ds: Seq<char>, radix: nat, i: int)
    requires
        radix >= 1,
        0 <= i <= ds.len(),
    ensures
        value_of_digits(ds.subrange(0, i), radix) <= value_of_digits(ds, radix),
    decreases ds.len(),
{
    if i < ds.len() {
        let shorter = ds.drop_last();
        assert(shorter.subrange(0, i) =~= ds.subrange(0, i));
        lemma_value_of_prefix_grows(shorter, radix, i);
        let v = value_of_digits(shorter, radix);
        assert(v <= v * radix) by (nonlinear_arith)
            requires
                radix >= 1,
        ;
    } else {
        assert(ds.subrange(0, i) =~= ds);
    }
}

/// The character of digit `d` (below 16): `0-9`, then `a-f`.
pub open spec fn digit_char(d: nat) -> char {
    if d < 10 {
        ((d + 48) as u32) as char
    } else {
        ((d + 87) as u32) as char
    }
}

/// `v` written in `radix` (2 to 16) with the fewest digits, most
/// significant first.
pub open spec fn digits_of(v: nat, radix: nat) -> Seq<char>
    decreases v,
    via digits_of_decreases
{
    if radix < 2 || v < radix {
        seq![digit_char(v)]
    } else {
        digits_of(v / radix, radix).push(digit_char(v % radix))
    }
}

#[via_fn]
proof fn digits_of_decreases(v: nat, radix: nat) {
    if !(radix < 2 || v < radix) {
        assert(v / radix < v) by (nonlinear_arith)
            requires
                radix >= 2,
                v >= radix,
        ;
    }
}

/// The radix of a positional notation; one for unary.
pub open spec fn radix_of(f: NumberFormat) -> nat {
    match f {
        NumberFormat::Decimal => 10,
        NumberFormat::Binary => 2,
        NumberFormat::Hexadecimal => 16,
        NumberFormat::Octal => 8,
        NumberFormat::Unary => 1,
    }
}

/// `v` written in notation `f`: decimal digits bare, the other radixes
/// behind `0b`, `0x` or `0o`, unary as `0u` and `v` zeros.
pub open spec fn render(v: u64, f: NumberFormat) -> Seq<char> {
    match f {
        NumberFormat::Decimal => digits_of(v as nat, 10),
        NumberFormat::Binary => seq!['0', 'b'] + digits_of(v as nat, 2),
        NumberFormat::Hexadecimal => seq!['0', 'x'] + digits_of(v as nat, 16),
        NumberFormat::Octal => seq!['0', 'o'] + digits_of(v as nat, 8),
        NumberFormat::Unary => seq!['0', 'u'] + Seq::new(v as nat, |i: int| '0'),
    }
}

proof fn lemma_digit_char(d: nat)
    requires
        d < 16,
    ensures
        digit_value(digit_char(d)) == d,
{
}

proof fn lemma_digits_of(v: nat, radix: nat)
    requires
        2 <= radix <= 16,
    ensures
        digits_of(v, radix).len() > 0,
        all_digits(digits_of(v, radix), radix),
        value_of_digits(digits_of(v, radix), radix) == v,
    decreases v,
{
    let ds = digits_of(v, radix);
    if v < radix {
        lemma_digit_char(v);
        assert(ds.drop_last() =~= Seq::<char>::empty());
        assert(value_of_digits(ds.drop_last(), radix) == 0);
        assert(0 * radix == 0);
    } else {
        let q = v / radix;
        let d = v % radix;
        assert(q < v && d < radix && q * radix + d == v) by (nonlinear_arith)
            requires
                radix >= 2,
                v >= radix,
                q == v / radix,
                d == v % radix,
        ;
        lemma_digits_of(q, radix);
        lemma_digit_char(d);
        let front = digits_of(q, radix);
        assert(ds.drop_last() =~= front);
        assert(ds.last() == digit_char(d));
        assert(value_of_digits(ds, radix) == value_of_digits(front, radix) * radix + d);
        assert forall|i: int| 0 <= i < ds.len() implies digit_value(#[trigger] ds[i]) < radix by {
            if i < front.len() {
                assert(ds[i] == front[i]);
            }
        }
    }
}

proof fn lemma_radix_value_of_digits(ds: Seq<char>, radix: nat)
    requires
        2 <= radix <= 16,
        ds.len() > 0,
        all_digits(ds, radix),
        value_of_digits(ds, radix) <= u64::MAX,
    ensures
        radix_value(ds, radix) == Some(value_of_digits(ds, radix) as u64),
{
    assert(digit_value(ds[0]) < radix);
}

/// Writing a count in any notation and reading it back gives the count and
/// the notation.
pub proof fn lemma_parse_render(v: u64, f: NumberFormat)
    ensures
        parse_spec(render(v, f)) == Some((v, f)),
{
    let t = render(v, f);
    match f {
        NumberFormat::Decimal => {
            lemma_digits_of(v as nat, 10);
            assert(digit_value(t.last()) < 10);
            if t.len() >= 2 {
                assert(digit_value(t[1]) < 10);
            }
            lemma_radix_value_of_digits(t, 10);
        },
        NumberFormat::Unary => {
            assert(t.skip(2) =~= Seq::new(v as nat, |i: int| '0'));
            if v > 0 {
                assert(t.last() == t.skip(2).last());
            }
        },
        _ => {
            let radix = radix_of(f);
            let ds = digits_of(v as nat, radix);
            lemma_digits_of(v as nat, radix);
            assert(t.skip(2) =~= ds);
            assert(t.last() == ds.last());
            assert(digit_value(ds.last()) < radix);
            lemma_radix_value_of_digits(ds, radix);
        },
    }
}

fn digit_of(c: char) -> (r: u32)
    ensures
        r as nat == digit_value(c),
{
    if '0' <= c && c <= '9' {
        c as u32 - '0' as u32
    } else if 'a' <= c && c <= 'z' {
        c as u32 - 'a' as u32 + 10
    } else if 'A' <= c && c <= 'Z' {
        c as u32 - 'A' as u32 + 10
    } else {
        36
    }
}

/// Reads `cs[lo..hi]` as an unsigned integer in `radix`.
fn read_radix(cs: &Vec<char>, lo: usize, hi: usize, radix: u32) -> (r: Option<u64>)
    requires
        lo <= hi <= cs@.len(),
        2 <= radix <= 36,
    ensures
        r == radix_value(cs@.subrange(lo as int, hi as int), radix as nat),
{
    let ghost s = cs@.subrange(lo as int, hi as int);
    let mut start = lo;
    if lo < hi && cs[lo] == '+' {
        start = lo + 1;
    }
    let ghost ds = cs@.subrange(start as int, hi as int);
    assert(ds =~= (if s.len() > 0 && s[0] == '+' { s.drop_first() } else { s }));
    if start == hi {
        return None;
    }
    let mut acc: u64 = 0;
    let mut i = start;
    while i < hi
        invariant
            lo <= start <= i <= hi <= cs@.len(),
            2 <= radix <= 36,
            s == cs@.subrange(lo as int, hi as int),
            ds == cs@.subrange(start as int, hi as int),
            ds =~= (if s.len() > 0 && s[0] == '+' { s.drop_first() } else { s }),
            all_digits(ds.subrange(0, i - start), radix as nat),
            acc as nat == value_of_digits(ds.subrange(0, i - start), radix as nat),
        decreases hi - i,
    {
        let k: Ghost<int> = Ghost(i - start);
        let d = digit_of(cs[i]);
        assert(ds[k@] == cs@[i as int]);
        if d >= radix {
            assert(!all_digits(ds, radix as nat));
            return None;
        }
        let ghost next = ds.subrange(0, k@ + 1);
        assert(next.drop_last() =~= ds.subrange(0, k@));
        assert(next.last() == cs@[i as int]);
        match acc.checked_mul(radix as u64) {
            Some(m) => match m.checked_add(d as u64) {
                Some(n) => {
                    acc = n;
                },
                None => {
                    proof {
                        lemma_value_of_prefix_grows(ds, radix as nat, k@ + 1);
                    }
                    return None;
                },
            },
            None => {
                proof {
                    lemma_value_of_prefix_grows(ds, radix as nat, k@ + 1);
                }
                return None;
            },
        }
        i = i + 1;
    }
    assert(ds.subrange(0, i - start) =~= ds);
    Some(acc)
}

fn pair_at_start(cs: &Vec<char>, a: char, b: char) -> (r: bool)
    ensures
        r == starts_with_pair(cs@, a, b),
{
    cs.len() >= 2 && cs[0] == a && cs[1] == b
}

fn with_format(v: Option<u64>, f: NumberFormat) -> (r: Option<(u64, NumberFormat)>)
    ensures
        r == tagged(v, f),
{
    match v {
        Some(n) => Some((n, f)),
        None => None,
    }
}

/// Reads a token, given as its characters, as a count with its notation.
pub fn parse_chars(cs: &Vec<char>) -> (r: Option<(u64, NumberFormat)>)
    ensures
        r == parse_spec(cs@),
{
    let len = cs.len();
    proof {
        assert(cs@.subrange(0, len as int) =~= cs@);
        if len >= 2 {
            assert(cs@.subrange(2, len as int) =~= cs@.skip(2));
        }
        if len >= 1 {
            assert(cs@.subrange(0, len - 1) =~= cs@.drop_last());
        }
    }
    if pair_at_start(cs, '0', 'x') {
        with_format(read_radix(cs, 2, len, 16), NumberFormat::Hexadecimal)
    } else if len > 0 && cs[len - 1] == 'h' {
        with_format(read_radix(cs, 0, len - 1, 16), NumberFormat::Hexadecimal)
    } else if pair_at_start(cs, '0', 'o') {
        with_format(read_radix(cs, 2, len, 8), NumberFormat::Octal)
    } else if pair_at_start(cs, '0', 'b') {
        with_format(read_radix(cs, 2, len, 2), NumberFormat::Binary)
    } else if pair_at_start(cs, '0', 'u') {
        let mut i: usize = 2;
        while i < len
            invariant
                2 <= i <= len == cs@.len(),
                starts_with_pair(cs@, '0', 'u'),
                !starts_with_pair(cs@, '0', 'x'),
                !starts_with_pair(cs@, '0', 'o'),
                !starts_with_pair(cs@, '0', 'b'),
                cs@.last() != 'h',
                cs@.subrange(2, len as int) =~= cs@.skip(2),
                all_zeros(cs@.subrange(2, i as int)),
            decreases len - i,
        {
            if cs[i] != '0' {
                assert(cs@.skip(2)[i - 2] == cs@[i as int]);
                return None;
            }
            assert(cs@.subrange(2, i + 1)[i - 2] == cs@[i as int]);
            i = i + 1;
        }
        Some(((len - 2) as u64, NumberFormat::Unary))
    } else {
        with_format(read_radix(cs, 0, len, 10), NumberFormat::Decimal)
    }
}

/// The characters of `text`, in order.
pub fn chars_of(text: &str) -> (r: Vec<char>)
    ensures
        r@ == text@,
{
    let n = text.unicode_len();
    let mut out: Vec<char> = Vec::new();
    let mut i: usize = 0;
    while i < n
        invariant
            i <= n == text@.len(),
            out@ == text@.subrange(0, i as int),
        decreases n - i,
    {
        out.push(text.get_char(i));
        assert(out@ =~= text@.subrange(0, i + 1));
        i = i + 1;
    }
    assert(out@ =~= text@);
    out
}

/// Reads `text` as a count with its notation; `None` where no notation
/// matches.
pub fn parse_number(text: &str) -> (r: Option<(u64, NumberFormat)>)
    ensures
        r == parse_spec(text@),
{
    let cs = chars_of(text);
    parse_chars(&cs)
}

} // verus!
