//! Arithmetic and text helpers: floored modulo, decimal numbers written and
//! read back, and characters escaped for display.

use vstd::prelude::*;

verus! {

/// The remainder of `a` by `b` that takes the sign of `b`:
/// `a - b * floor(a / b)`, in `0 .. b` for a positive `b` and in `b + 1 ..= 0`
/// for a negative one.
pub open spec fn floor_mod(a: int, b: int) -> int {
    if b > 0 {
        a % b
    } else if a % (-b) == 0 {
        0
    } else {
        a % (-b) + b
    }
}

/// Rust's `%`: the remainder that takes the sign of `a`.
pub open spec fn trunc_rem(a: int, b: int) -> int {
    if a == 0 {
        0
    } else if a > 0 && b > 0 {
        a % b
    } else if a < 0 && b < 0 {
        -((-a) % (-b))
    } else if a < 0 {
        -((-a) % b)
    } else {
        a % (-b)
    }
}

/// The remainder of a negated number.
pub proof fn lemma_neg_mod(u: int, p: int)
    requires
        p > 0,
    ensures
        (-u) % p == (if u % p == 0 { 0 } else { p - u % p }),
        0 <= u % p < p,
{
    vstd::arithmetic::div_mod::lemma_fundamental_div_mod(u, p);
    vstd::arithmetic::div_mod::lemma_mod_bound(u, p);
    let q = u / p;
    let s = u % p;
    assert(u == p * q + s);
    if s == 0 {
        assert(-u == (-q) * p + 0) by (nonlinear_arith)
            requires
                u == p * q + s,
                s == 0,
        ;
        vstd::arithmetic::div_mod::lemma_fundamental_div_mod_converse(-u, p, -q, 0);
    } else {
        assert(-u == (-q - 1) * p + (p - s)) by (nonlinear_arith)
            requires
                u == p * q + s,
        ;
        vstd::arithmetic::div_mod::lemma_fundamental_div_mod_converse(-u, p, -q - 1, p - s);
    }
}

/// The remainder of `a` by `b` with the sign of `b`, so that it lies in
/// `0 .. b` for a positive `b`.
pub fn modulo(a: i32, b: i32) -> (r: i32)
    requires
        b != 0,
        !(a == i32::MIN && b == -1),
    ensures
        r == floor_mod(a as int, b as int),
{
    let remainder = match a.checked_rem(b) {
        Some(v) => v,
        None => 0,
    };
    proof {
        let ai = a as int;
        let bi = b as int;
        if ai < 0 && bi < 0 {
            lemma_neg_mod(-ai, -bi);
        } else if ai < 0 && bi > 0 {
            lemma_neg_mod(-ai, bi);
        } else if ai > 0 && bi < 0 {
            vstd::arithmetic::div_mod::lemma_mod_pos_bound(ai, -bi);
        } else if ai > 0 && bi > 0 {
            vstd::arithmetic::div_mod::lemma_mod_pos_bound(ai, bi);
        } else if ai == 0 && bi < 0 {
            vstd::arithmetic::div_mod::lemma_fundamental_div_mod_converse(0, -bi, 0, 0);
        } else {
            vstd::arithmetic::div_mod::lemma_fundamental_div_mod_converse(0, bi, 0, 0);
        }
    }
    if remainder == 0 {
        0
    } else if (a < 0) != (b < 0) {
        remainder + b
    } else {
        remainder
    }
}

//---------------------------------------------------------------------------//

/// Appends `c` to `s`: `String::push`.
#[verifier::external_body]
pub(crate) fn push_char(s: &mut String, c: char)
    ensures
        final(s)@ == old(s)@.push(c),
{
    s.push(c);
}

/// A string made of `cs`.
pub fn string_of_chars(cs: &Vec<char>) -> (s: String)
    ensures
        s@ == cs@,
{
    let mut s = String::new();
    for i in 0..cs.len()
        invariant
            s@ == cs@.subrange(0, i as int),
    {
        push_char(&mut s, cs[i]);
        assert(s@ =~= cs@.subrange(0, i + 1));
    }
    assert(s@ =~= cs@);
    s
}

/// The characters of `s`.
pub fn chars_of(s: &str) -> (cs: Vec<char>)
    ensures
        cs@ == s@,
{
    let n = s.unicode_len();
    let mut cs: Vec<char> = Vec::new();
    for i in 0..n
        invariant
            n == s@.len(),
            cs@ == s@.subrange(0, i as int),
    {
        cs.push(s.get_char(i));
        assert(cs@ =~= s@.subrange(0, i + 1));
    }
    assert(cs@ =~= s@);
    cs
}

//---------------------------------------------------------------------------//

/// The character of the digit `d`, below the radix in use.
pub open spec fn digit_char(d: nat) -> char {
    if d < 10 {
        (48 + d) as char
    } else {
        (87 + d) as char
    }
}

/// The digits of `n` in base `radix`, most significant first, without
/// leading zeros; zero is written `0`.
pub open spec fn digits_in(n: nat, radix: nat) -> Seq<char>
    decreases n,
{
    if radix < 2 || n < radix {
        seq![digit_char(n)]
    } else {
        proof {
            assert(n / radix < n) by (nonlinear_arith)
                requires
                    n >= radix,
                    radix >= 2,
            ;
        }
        digits_in(n / radix, radix).push(digit_char(n % radix))
    }
}

/// The decimal writing of `n`, as `format!("{}", n)` gives it.
pub open spec fn decimal(n: nat) -> Seq<char> {
    digits_in(n, 10)
}

fn digit_char_exec(d: u32) -> (c: char)
    requires
        d < 16,
    ensures
        c == digit_char(d as nat),
{
    if d == 0 {
        '0'
    } else if d == 1 {
        '1'
    } else if d == 2 {
        '2'
    } else if d == 3 {
        '3'
    } else if d == 4 {
        '4'
    } else if d == 5 {
        '5'
    } else if d == 6 {
        '6'
    } else if d == 7 {
        '7'
    } else if d == 8 {
        '8'
    } else if d == 9 {
        '9'
    } else if d == 10 {
        'a'
    } else if d == 11 {
        'b'
    } else if d == 12 {
        'c'
    } else if d == 13 {
        'd'
    } else if d == 14 {
        'e'
    } else {
        'f'
    }
}

/// The digits of `n` in base `radix`.
pub fn digits_of(n: u64, radix: u64) -> (cs: Vec<char>)
    requires
        2 <= radix <= 16,
    ensures
        cs@ == digits_in(n as nat, radix as nat),
    decreases n,
{
    if n < radix {
        vec![digit_char_exec(n as u32)]
    } else {
        assert(n / radix < n) by (nonlinear_arith)
            requires
                n >= radix,
                radix >= 2,
        ;
        let mut cs = digits_of(n / radix, radix);
        cs.push(digit_char_exec((n % radix) as u32));
        cs
    }
}

/// The decimal writing of `n`.
pub fn format_decimal(n: u64) -> (s: String)
    ensures
        s@ == decimal(n as nat),
{
    let cs = digits_of(n, 10);
    string_of_chars(&cs)
}

/// The decimal writing of a signed `n`: a minus sign, then the digits of its
/// magnitude.
pub open spec fn signed_decimal(n: int) -> Seq<char> {
    if n < 0 {
        seq!['-'].add(decimal((-n) as nat))
    } else {
        decimal(n as nat)
    }
}

/// The decimal writing of `n`, as `format!("{}", n)` gives it.
pub fn format_signed_decimal(n: i64) -> (s: String)
    ensures
        s@ == signed_decimal(n as int),
{
    if n < 0 {
        let magnitude: u64 = if n == i64::MIN { 0x8000_0000_0000_0000u64 } else { (-n) as u64 };
        let mut cs: Vec<char> = vec!['-'];
        let mut digits = digits_of(magnitude, 10);
        cs.append(&mut digits);
        let s = string_of_chars(&cs);
        assert(s@ =~= signed_decimal(n as int));
        s
    } else {
        format_decimal(n as u64)
    }
}

//---------------------------------------------------------------------------//

pub open spec fn is_digit(c: char) -> bool {
    '0' <= c <= '9'
}

pub open spec fn all_digits(s: Seq<char>) -> bool {
    forall|i: int| 0 <= i < s.len() ==> is_digit(#[trigger] s[i])
}

/// The number that the decimal digits `s` write.
pub open spec fn digits_value(s: Seq<char>) -> nat
    decreases s.len(),
{
    if s.len() == 0 {
        0
    } else {
        digits_value(s.drop_last()) * 10 + ((s.last() as int - 48) as nat)
    }
}

/// What `str::parse` gives for an unsigned integer type whose largest value
/// is `max`: an optional `+`, then at least one decimal digit and nothing
/// else, of a value no larger than `max`.
pub open spec fn parse_unsigned(s: Seq<char>, max: nat) -> Option<nat> {
    let body = if s.len() > 0 && s[0] == '+' { s.drop_first() } else { s };
    if body.len() > 0 && all_digits(body) && digits_value(body) <= max {
        Some(digits_value(body))
    } else {
        None
    }
}

/// What `str::parse` gives for a signed integer type ranging over
/// `min ..= max`: an optional `+` or `-`, then at least one decimal digit and
/// nothing else, of a value in range.
pub open spec fn parse_signed(s: Seq<char>, min: int, max: int) -> Option<int> {
    if s.len() > 0 && s[0] == '-' {
        let body = s.drop_first();
        if body.len() > 0 && all_digits(body) && -digits_value(body) >= min {
            Some(-digits_value(body))
        } else {
            None
        }
    } else {
        match parse_unsigned(s, max as nat) {
            Some(v) => Some(v as int),
            None => None,
        }
    }
}

/// Appending digits never makes a number smaller.
proof fn lemma_digits_value_grows(s: Seq<char>, k: int)
    requires
        0 <= k <= s.len(),
        all_digits(s),
    ensures
        digits_value(s.subrange(0, k)) <= digits_value(s),
    decreases s.len() - k,
{
    if k < s.len() {
        lemma_digits_value_grows(s, k + 1);
        assert(s.subrange(0, k + 1).drop_last() =~= s.subrange(0, k));
    } else {
        assert(s.subrange(0, k) =~= s);
    }
}

/// The value of the decimal digits `cs[start..]`, if they are all digits and
/// the value is at most `max`.
fn digits_value_upto(cs: &Vec<char>, start: usize, max: u64) -> (r: Option<u64>)
    requires
        start <= cs@.len(),
    ensures
        ({
            let body = cs@.subrange(start as int, cs@.len() as int);
            match r {
                Some(v) => all_digits(body) && digits_value(body) == v && v <= max,
                None => !(all_digits(body) && digits_value(body) <= max),
            }
        }),
{
    let ghost body = cs@.subrange(start as int, cs@.len() as int);
    let mut value: u64 = 0;
    let mut i = start;
    while i < cs.len()
        invariant
            start <= i <= cs@.len(),
            body == cs@.subrange(start as int, cs@.len() as int),
            all_digits(body.subrange(0, i - start)),
            value == digits_value(body.subrange(0, i - start)),
            value <= max,
        decreases cs@.len() - i,
    {
        let c = cs[i];
        assert(body[i - start] == c);
        if !('0' <= c && c <= '9') {
            assert(!is_digit(body[i - start]));
            return None;
        }
        let d = (c as u32 - 48) as u64;
        assert(body.subrange(0, i + 1 - start).drop_last() =~= body.subrange(0, i - start));
        if d > max || value > (max - d) / 10 {
            proof {
                assert(value * 10 + d > max) by (nonlinear_arith)
                    requires
                        d > max || value > (max - d) / 10,
                        d <= 9,
                        value >= 0,
                {
                }
                if all_digits(body) {
                    lemma_digits_value_grows(body, i + 1 - start);
                }
            }
            return None;
        }
        proof {
            assert(value * 10 + d <= max) by (nonlinear_arith)
                requires
                    value <= (max - d) / 10,
                    d <= max,
            {
            }
        }
        value = value * 10 + d;
        i = i + 1;
    }
    assert(body.subrange(0, i - start) =~= body);
    Some(value)
}

/// What `str::parse` gives for an unsigned type whose largest value is `max`.
fn parse_unsigned_exec(s: &str, max: u64) -> (r: Option<u64>)
    ensures
        match parse_unsigned(s@, max as nat) {
            Some(v) => r == Some(v as u64),
            None => r is None,
        },
{
    let cs = chars_of(s);
    let start: usize = if cs.len() > 0 && cs[0] == '+' { 1 } else { 0 };
    let ghost body = if s@.len() > 0 && s@[0] == '+' { s@.drop_first() } else { s@ };
    assert(body =~= cs@.subrange(start as int, cs@.len() as int));
    if start == cs.len() {
        return None;
    }
    digits_value_upto(&cs, start, max)
}

/// What `str::parse` gives for a signed type ranging over `min ..= max`.
fn parse_signed_exec(s: &str, min: i64, max: i64) -> (r: Option<i64>)
    requires
        min < 0 < max,
    ensures
        match parse_signed(s@, min as int, max as int) {
            Some(v) => r == Some(v as i64),
            None => r is None,
        },
{
    let cs = chars_of(s);
    if cs.len() > 0 && cs[0] == '-' {
        assert(s@.drop_first() =~= cs@.subrange(1, cs@.len() as int));
        if cs.len() == 1 {
            return None;
        }
        let magnitude: u64 = if min == i64::MIN { 0x8000_0000_0000_0000u64 } else { (-min) as u64 };
        match digits_value_upto(&cs, 1, magnitude) {
            Some(v) => {
                if v == 0x8000_0000_0000_0000u64 {
                    Some(i64::MIN)
                } else {
                    Some(-(v as i64))
                }
            },
            None => None,
        }
    } else {
        match parse_unsigned_exec(s, max as u64) {
            Some(v) => Some(v as i64),
            None => None,
        }
    }
}

/// `s.parse::<usize>()`, with any error as `None`.
pub fn parse_usize(s: &str) -> (r: Option<usize>)
    ensures
        match parse_unsigned(s@, usize::MAX as nat) {
            Some(v) => r == Some(v as usize),
            None => r is None,
        },
{
    match parse_unsigned_exec(s, usize::MAX as u64) {
        Some(v) => Some(v as usize),
        None => None,
    }
}

/// `s.parse::<u32>()`, with any error as `None`.
pub fn parse_u32(s: &str) -> (r: Option<u32>)
    ensures
        match parse_unsigned(s@, u32::MAX as nat) {
            Some(v) => r == Some(v as u32),
            None => r is None,
        },
{
    match parse_unsigned_exec(s, u32::MAX as u64) {
        Some(v) => Some(v as u32),
        None => None,
    }
}

/// `s.parse::<i32>()`, with any error as `None`.
pub fn parse_i32(s: &str) -> (r: Option<i32>)
    ensures
        match parse_signed(s@, i32::MIN as int, i32::MAX as int) {
            Some(v) => r == Some(v as i32),
            None => r is None,
        },
{
    match parse_signed_exec(s, i32::MIN as i64, i32::MAX as i64) {
        Some(v) => Some(v as i32),
        None => None,
    }
}

/// `s.parse::<i16>()`, with any error as `None`.
pub fn parse_i16(s: &str) -> (r: Option<i16>)
    ensures
        match parse_signed(s@, i16::MIN as int, i16::MAX as int) {
            Some(v) => r == Some(v as i16),
            None => r is None,
        },
{
    match parse_signed_exec(s, i16::MIN as i64, i16::MAX as i64) {
        Some(v) => Some(v as i16),
        None => None,
    }
}

//---------------------------------------------------------------------------//

/// `char::escape_default`: a backslash before tab, carriage return, line
/// feed, quote, double quote and backslash (the first three as `t`, `r` and
/// `n`); printable ASCII as it is; anything else as `\u{...}` with the code
/// in lowercase hexadecimal.
pub open spec fn escape_default(c: char) -> Seq<char> {
    if c == '\t' {
        seq!['\\', 't']
    } else if c == '\r' {
        seq!['\\', 'r']
    } else if c == '\n' {
        seq!['\\', 'n']
    } else if c == '\'' || c == '"' || c == '\\' {
        seq!['\\', c]
    } else if ' ' <= c <= '~' {
        seq![c]
    } else {
        seq!['\\', 'u', '{'] + digits_in(c as nat, 16) + seq!['}']
    }
}

/// Appends `escape_default(c)` to `out`.
pub fn push_escaped(out: &mut Vec<char>, c: char)
    ensures
        final(out)@ == old(out)@ + escape_default(c),
{
    let ghost start = out@;
    if c == '\t' {
        out.push('\\');
        out.push('t');
    } else if c == '\r' {
        out.push('\\');
        out.push('r');
    } else if c == '\n' {
        out.push('\\');
        out.push('n');
    } else if c == '\'' || c == '"' || c == '\\' {
        out.push('\\');
        out.push(c);
    } else if ' ' <= c && c <= '~' {
        out.push(c);
    } else {
        out.push('\\');
        out.push('u');
        out.push('{');
        let mut digits = digits_of(c as u64, 16);
        out.append(&mut digits);
        out.push('}');
    }
    assert(out@ =~= start + escape_default(c));
}
//---------------------------------------------------------------------------//

/// The upper-case hexadecimal digit of `d`, below sixteen.
pub open spec fn upper_hex_digit(d: nat) -> char {
    if d < 10 {
        (48 + d) as char
    } else {
        (55 + d) as char
    }
}

/// `b` in two upper-case hexadecimal digits, as `format!("{:02X}", b)`
/// writes it.
pub open spec fn hex_byte(b: u8) -> Seq<char> {
    seq![upper_hex_digit((b / 16) as nat), upper_hex_digit((b % 16) as nat)]
}

fn upper_hex_digit_exec(d: u8) -> (c: char)
    requires
        d < 16,
    ensures
        c == upper_hex_digit(d as nat),
{
    if d < 10 {
        (48 + d) as char
    } else {
        (55 + d) as char
    }
}

/// Appends the two upper-case hexadecimal digits of `b` to `out`.
pub fn push_hex_byte(out: &mut Vec<char>, b: u8)
    ensures
        final(out)@ == old(out)@ + hex_byte(b),
{
    out.push(upper_hex_digit_exec(b / 16));
    out.push(upper_hex_digit_exec(b % 16));
    assert(out@ =~= old(out)@ + hex_byte(b));
}

/// The value of an upper- or lower-case hexadecimal digit, if `c` is one.
pub open spec fn hex_digit_value(c: char) -> Option<nat> {
    if '0' <= c <= '9' {
        Some((c as nat - 48) as nat)
    } else if 'A' <= c <= 'F' {
        Some((c as nat - 55) as nat)
    } else if 'a' <= c <= 'f' {
        Some((c as nat - 87) as nat)
    } else {
        None
    }
}

pub fn hex_digit_value_exec(c: char) -> (r: Option<u8>)
    ensures
        match hex_digit_value(c) {
            Some(v) => r matches Some(x) && x == v,
            None => r is None,
        },
{
    if '0' <= c && c <= '9' {
        Some(((c as u32) - 48) as u8)
    } else if 'A' <= c && c <= 'F' {
        Some(((c as u32) - 55) as u8)
    } else if 'a' <= c && c <= 'f' {
        Some(((c as u32) - 87) as u8)
    } else {
        None
    }
}

//---------------------------------------------------------------------------//

/// The pieces of `s` between the occurrences of `sep`, as `str::split`
/// gives them: one more piece than there are separators, some maybe empty.
pub open spec fn split_on(s: Seq<char>, sep: char) -> Seq<Seq<char>>
    decreases s.len(),
{
    if s.len() == 0 {
        seq![Seq::<char>::empty()]
    } else {
        let rest = split_on(s.drop_last(), sep);
        if s.last() == sep {
            rest.push(Seq::<char>::empty())
        } else {
            rest.update(rest.len() - 1, rest.last().push(s.last()))
        }
    }
}

/// There is always at least one piece.
pub proof fn lemma_split_on_nonempty(s: Seq<char>, sep: char)
    ensures
        split_on(s, sep).len() >= 1,
    decreases s.len(),
{
    if s.len() > 0 {
        lemma_split_on_nonempty(s.drop_last(), sep);
    }
}

/// The pieces of `cs` between the occurrences of `sep`.
pub fn split_chars(cs: &Vec<char>, sep: char) -> (pieces: Vec<Vec<char>>)
    ensures
        pieces@.map_values(|p: Vec<char>| p@) == split_on(cs@, sep),
{
    let mut pieces: Vec<Vec<char>> = Vec::new();
    let mut current: Vec<char> = Vec::new();
    for i in 0..cs.len()
        invariant
            pieces@.map_values(|p: Vec<char>| p@).push(current@) == split_on(cs@.subrange(0, i as int), sep),
    {
        let c = cs[i];
        proof {
            assert(cs@.subrange(0, i + 1).drop_last() =~= cs@.subrange(0, i as int));
            lemma_split_on_nonempty(cs@.subrange(0, i as int), sep);
        }
        let ghost before = pieces@.map_values(|p: Vec<char>| p@).push(current@);
        if c == sep {
            let done = current;
            pieces.push(done);
            current = Vec::new();
            proof {
                assert(pieces@.map_values(|p: Vec<char>| p@).push(current@) =~= before.push(Seq::<char>::empty()));
            }
        } else {
            current.push(c);
            proof {
                assert(pieces@.map_values(|p: Vec<char>| p@).push(current@) =~= before.update(before.len() - 1, before.last().push(c)));
            }
        }
    }
    pieces.push(current);
    proof {
        assert(cs@.subrange(0, cs@.len() as int) =~= cs@);
    }
    pieces
}

//---------------------------------------------------------------------------//
// Reading back what was written.

/// The decimal digits of `n` are digits, and read back as `n`.
pub proof fn lemma_decimal_digits(n: nat)
    ensures
        decimal(n).len() > 0,
        all_digits(decimal(n)),
        digits_value(decimal(n)) == n,
    decreases n,
{
    reveal_with_fuel(digits_in, 2);
    if n < 10 {
        assert(decimal(n) == seq![digit_char(n)]);
        assert(seq![digit_char(n)].drop_last() =~= Seq::<char>::empty());
        assert(digit_char(n) as int == 48 + n);
        assert(digits_value(decimal(n)) == digits_value(Seq::<char>::empty()) * 10 + ((digit_char(n) as int - 48) as nat));
    } else {
        assert(n / 10 < n);
        lemma_decimal_digits(n / 10);
        let d = decimal(n);
        assert(d == digits_in(n / 10, 10).push(digit_char(n % 10)));
        assert(d.drop_last() =~= decimal(n / 10));
        assert forall|i: int| 0 <= i < d.len() implies is_digit(#[trigger] d[i]) by {
            if i < d.len() - 1 {
                assert(d[i] == decimal(n / 10)[i]);
            }
        }
        assert(digit_char(n % 10) as int == 48 + n % 10);
        assert(d.last() == digit_char(n % 10));
        assert(digits_value(d) == digits_value(decimal(n / 10)) * 10 + (n % 10));
        assert(n == (n / 10) * 10 + n % 10);
    }
}

/// Reading the decimal writing of `n` with `parse` gives `n` back, when it
/// fits.
pub proof fn lemma_parse_decimal(n: nat, max: nat)
    requires
        n <= max,
    ensures
        parse_unsigned(decimal(n), max) == Some(n),
{
    lemma_decimal_digits(n);
    assert(is_digit(decimal(n)[0]));
}

/// Reading the signed decimal writing of `n` with `parse` gives `n` back,
/// when it is in range.
pub proof fn lemma_parse_signed_decimal(n: int, min: int, max: int)
    requires
        min <= n <= max,
        min <= 0,
    ensures
        parse_signed(signed_decimal(n), min, max) == Some(n),
{
    if n < 0 {
        let m = (-n) as nat;
        lemma_decimal_digits(m);
        let s = signed_decimal(n);
        assert(s[0] == '-');
        assert(s.drop_first() =~= decimal(m));
    } else {
        lemma_parse_decimal(n as nat, max as nat);
        lemma_decimal_digits(n as nat);
        assert(is_digit(decimal(n as nat)[0]));
    }
}

/// A text without `sep` is one piece.
pub proof fn lemma_split_on_whole(s: Seq<char>, sep: char)
    requires
        !s.contains(sep),
    ensures
        split_on(s, sep) == seq![s],
    decreases s.len(),
{
    if s.len() > 0 {
        assert(!s.drop_last().contains(sep)) by {
            if s.drop_last().contains(sep) {
                let i = choose|i: int| 0 <= i < s.drop_last().len() && s.drop_last()[i] == sep;
                assert(s[i] == sep);
            }
        }
        lemma_split_on_whole(s.drop_last(), sep);
        assert(s.last() != sep) by {
            assert(s[s.len() - 1] == s.last());
        }
        assert(s.drop_last().push(s.last()) =~= s);
        assert(seq![s.drop_last()].update(0, s.drop_last().push(s.last())) =~= seq![s]);
    } else {
        assert(s =~= Seq::<char>::empty());
    }
}

/// Splitting around a separator splits each side.
pub proof fn lemma_split_on_join(a: Seq<char>, b: Seq<char>, sep: char)
    ensures
        split_on(a + seq![sep] + b, sep) == split_on(a, sep) + split_on(b, sep),
    decreases b.len(),
{
    lemma_split_on_nonempty(a, sep);
    if b.len() == 0 {
        assert(a + seq![sep] + b =~= (a + seq![sep]));
        assert((a + seq![sep]).drop_last() =~= a);
        assert(split_on(b, sep) == seq![Seq::<char>::empty()]);
        assert(split_on(a, sep).push(Seq::<char>::empty()) =~= split_on(a, sep) + seq![Seq::<char>::empty()]);
    } else {
        let t = b.drop_last();
        let c = b.last();
        lemma_split_on_join(a, t, sep);
        lemma_split_on_nonempty(t, sep);
        let whole = a + seq![sep] + b;
        assert(whole.drop_last() =~= a + seq![sep] + t);
        assert(whole.last() == c);
        let left = split_on(a, sep);
        let right = split_on(t, sep);
        if c == sep {
            assert((left + right).push(Seq::<char>::empty()) =~= left + right.push(Seq::<char>::empty()));
        } else {
            let joined = left + right;
            assert(joined.update(joined.len() - 1, joined.last().push(c)) =~= left + right.update(right.len() - 1, right.last().push(c)));
        }
    }
}

/// No decimal digit is a separator that is not a digit.
pub proof fn lemma_decimal_lacks(n: nat, sep: char)
    requires
        !is_digit(sep),
    ensures
        !decimal(n).contains(sep),
{
    lemma_decimal_digits(n);
    if decimal(n).contains(sep) {
        let i = choose|i: int| 0 <= i < decimal(n).len() && decimal(n)[i] == sep;
        assert(is_digit(decimal(n)[i]));
    }
}

/// The signed decimal writing holds no separator that is neither a digit
/// nor a minus sign.
pub proof fn lemma_signed_decimal_lacks(n: int, sep: char)
    requires
        !is_digit(sep),
        sep != '-',
    ensures
        !signed_decimal(n).contains(sep),
{
    if n < 0 {
        lemma_decimal_lacks((-n) as nat, sep);
        let s = signed_decimal(n);
        if s.contains(sep) {
            let i = choose|i: int| 0 <= i < s.len() && s[i] == sep;
            if i > 0 {
                assert(s[i] == decimal((-n) as nat)[i - 1]);
            }
        }
    } else {
        lemma_decimal_lacks(n as nat, sep);
    }
}

} // verus!
