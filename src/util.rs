//! Text and number helpers shared by the rest of the library.
use vstd::prelude::*;

verus! {

/// The ASCII digit for a value below ten.
pub open spec fn digit_char(d: nat) -> char {
    if d == 0 { '0' }
    else if d == 1 { '1' }
    else if d == 2 { '2' }
    else if d == 3 { '3' }
    else if d == 4 { '4' }
    else if d == 5 { '5' }
    else if d == 6 { '6' }
    else if d == 7 { '7' }
    else if d == 8 { '8' }
    else { '9' }
}

/// The decimal spelling of `n`, without leading zeros.
pub open spec fn decimal(n: nat) -> Seq<char>
    decreases n,
{
    if n < 10 {
        seq![digit_char(n)]
    } else {
        decimal(n / 10).push(digit_char(n % 10))
    }
}

/// The value of a character that is an ASCII digit.
pub open spec fn digit_value(c: char) -> nat {
    (c as u32 - '0' as u32) as nat
}

pub open spec fn is_digit(c: char) -> bool {
    '0' <= c && c <= '9'
}

/// Relies on `Iterator::collect` over `str::chars`: the characters of `s`, in order.
#[verifier::external_body]
pub(crate) fn chars_of(s: &str) -> (r: Vec<char>)
    ensures
        r@ == s@,
{
    s.chars().collect()
}

/// Relies on `String::from_iter` over chars: a string made of exactly these characters.
#[verifier::external_body]
pub(crate) fn string_of(v: &Vec<char>) -> (r: String)
    ensures
        r@ == v@,
{
    v.iter().collect()
}

fn digit_of(d: u64) -> (c: char)
    requires
        d < 10,
    ensures
        c == digit_char(d as nat),
{
    if d == 0 { '0' }
    else if d == 1 { '1' }
    else if d == 2 { '2' }
    else if d == 3 { '3' }
    else if d == 4 { '4' }
    else if d == 5 { '5' }
    else if d == 6 { '6' }
    else if d == 7 { '7' }
    else if d == 8 { '8' }
    else { '9' }
}

/// Appends the decimal spelling of `n`.
pub(crate) fn push_decimal(v: &mut Vec<char>, n: u64)
    ensures
        final(v)@ == old(v)@ + decimal(n as nat),
    decreases n,
{
    if n >= 10 {
        push_decimal(v, n / 10);
    }
    v.push(digit_of(n % 10));
    proof {
        if n >= 10 {
            assert(old(v)@ + decimal(n as nat) =~= old(v)@ + decimal((n / 10) as nat) + seq![digit_char((n % 10) as nat)]);
        }
    }
}

/// Whether two texts hold the same characters.
pub fn same_text(a: &str, b: &str) -> (r: bool)
    ensures
        r == (a@ == b@),
{
    let x = chars_of(a);
    let y = chars_of(b);
    if x.len() != y.len() {
        return false;
    }
    let mut i: usize = 0;
    while i < x.len()
        invariant
            i <= x@.len(),
            x@.len() == y@.len(),
            x@ == a@,
            y@ == b@,
            forall|j: int| 0 <= j < i ==> x@[j] == y@[j],
        decreases x@.len() - i,
    {
        if x[i] != y[i] {
            return false;
        }
        i = i + 1;
    }
    proof {
        assert(x@ =~= y@);
    }
    true
}

/// An owned copy of a string slice.
pub fn owned(s: &str) -> (r: String)
    ensures
        r@ == s@,
{
    let v = chars_of(s);
    string_of(&v)
}

/// The decimal spelling of `n` as a string.
pub fn decimal_string(n: u64) -> (r: String)
    ensures
        r@ == decimal(n as nat),
{
    let mut v: Vec<char> = Vec::new();
    push_decimal(&mut v, n);
    proof {
        assert(v@ =~= decimal(n as nat));
    }
    string_of(&v)
}


/// How a duration given in milliseconds is written: `500ms`, `1s`, `1m 5s`,
/// `1h 1m 5s`.
pub open spec fn duration_text(ms: nat) -> Seq<char> {
    if ms < 1000 {
        decimal(ms) + seq!['m', 's']
    } else {
        let s = ms / 1000;
        let m = s / 60;
        let h = m / 60;
        if h > 0 {
            decimal(h) + seq!['h', ' '] + decimal(m % 60) + seq!['m', ' '] + decimal(s % 60) + seq!['s']
        } else if m > 0 {
            decimal(m) + seq!['m', ' '] + decimal(s % 60) + seq!['s']
        } else {
            decimal(s) + seq!['s']
        }
    }
}

pub fn format_duration(duration_ms: u64) -> (r: String)
    ensures
        r@ == duration_text(duration_ms as nat),
{
    let mut v: Vec<char> = Vec::new();
    if duration_ms < 1000 {
        push_decimal(&mut v, duration_ms);
        v.push('m');
        v.push('s');
    } else {
        let seconds = duration_ms / 1000;
        let minutes = seconds / 60;
        let hours = minutes / 60;
        if hours > 0 {
            push_decimal(&mut v, hours);
            v.push('h');
            v.push(' ');
            push_decimal(&mut v, minutes % 60);
            v.push('m');
            v.push(' ');
            push_decimal(&mut v, seconds % 60);
            v.push('s');
        } else if minutes > 0 {
            push_decimal(&mut v, minutes);
            v.push('m');
            v.push(' ');
            push_decimal(&mut v, seconds % 60);
            v.push('s');
        } else {
            push_decimal(&mut v, seconds);
            v.push('s');
        }
    }
    proof {
        assert(v@ =~= duration_text(duration_ms as nat));
    }
    string_of(&v)
}

/// The divisor of the unit that a byte count of at least 1024 is shown in:
/// KB, MB, GB, or TB for anything larger.
pub open spec fn unit_index(n: nat) -> nat {
    if n >= 0x100_0000_0000 { 4 }
    else if n >= 0x4000_0000 { 3 }
    else if n >= 0x10_0000 { 2 }
    else { 1 }
}

pub open spec fn unit_divisor(k: nat) -> nat {
    if k == 4 { 0x100_0000_0000 }
    else if k == 3 { 0x4000_0000 }
    else if k == 2 { 0x10_0000 }
    else { 0x400 }
}

pub open spec fn unit_name(k: nat) -> Seq<char> {
    if k == 4 { seq!['T', 'B'] }
    else if k == 3 { seq!['G', 'B'] }
    else if k == 2 { seq!['M', 'B'] }
    else { seq!['K', 'B'] }
}

/// `n / d` in tenths, rounded to the nearest tenth, ties to an even tenth.
pub open spec fn rounded_tenths(n: nat, d: nat) -> nat
    recommends
        d > 0,
{
    let q = n / d;
    let r = n % d;
    let t = (r * 10) / d;
    let rem = (r * 10) % d;
    let up = 2 * rem > d || (2 * rem == d && t % 2 == 1);
    q * 10 + t + (if up { 1nat } else { 0nat })
}

/// How a byte count is written: below 1024 as `512 B`, else with one
/// decimal in the largest unit up to TB that it reaches (`1.5 KB`).
pub open spec fn bytes_text(n: nat) -> Seq<char> {
    if n < 1024 {
        decimal(n) + seq![' ', 'B']
    } else {
        let k = unit_index(n);
        let tenths = rounded_tenths(n, unit_divisor(k));
        decimal(tenths / 10) + seq!['.'] + seq![digit_char(tenths % 10)] + seq![' '] + unit_name(k)
    }
}

pub fn format_bytes(bytes: u64) -> (r: String)
    ensures
        r@ == bytes_text(bytes as nat),
{
    let mut v: Vec<char> = Vec::new();
    if bytes < 1024 {
        push_decimal(&mut v, bytes);
        v.push(' ');
        v.push('B');
        proof {
            assert(v@ =~= bytes_text(bytes as nat));
        }
        return string_of(&v);
    }
    let (d, k): (u64, u64) = if bytes >= 0x100_0000_0000 {
        (0x100_0000_0000, 4)
    } else if bytes >= 0x4000_0000 {
        (0x4000_0000, 3)
    } else if bytes >= 0x10_0000 {
        (0x10_0000, 2)
    } else {
        (0x400, 1)
    };
    assert(k as nat == unit_index(bytes as nat) && d as nat == unit_divisor(k as nat));
    let q = bytes / d;
    let r = bytes % d;
    let t = (r * 10) / d;
    let rem = (r * 10) % d;
    let up = 2 * rem > d || (2 * rem == d && t % 2 == 1);
    proof {
        vstd::arithmetic::div_mod::lemma_div_is_ordered_by_denominator(bytes as int, 1024, d as int);
    }
    let mut whole = q;
    let mut tenth = t;
    if up {
        if t == 9 {
            whole = q + 1;
            tenth = 0;
        } else {
            tenth = t + 1;
        }
    }
    proof {
        let tt = rounded_tenths(bytes as nat, d as nat);
        assert(t < 10) by (nonlinear_arith)
            requires (r as int) < (d as int), (t as int) == (r as int * 10) / (d as int), (d as int) > 0;
        assert(tt == q * 10 + t + (if up { 1nat } else { 0nat }));
        assert(tt / 10 == whole as nat && tt % 10 == tenth as nat);
    }
    push_decimal(&mut v, whole);
    v.push('.');
    v.push(digit_of(tenth));
    v.push(' ');
    if k == 4 {
        v.push('T');
    } else if k == 3 {
        v.push('G');
    } else if k == 2 {
        v.push('M');
    } else {
        v.push('K');
    }
    v.push('B');
    proof {
        assert(v@ =~= bytes_text(bytes as nat));
    }
    string_of(&v)
}


/// Whether `char::is_alphanumeric` holds of a character (Unicode letters and numbers).
pub uninterp spec fn alphanumeric(c: char) -> bool;

/// Relies on `char::is_alphanumeric`, whose answer depends on the character alone.
#[verifier::external_body]
fn is_alphanumeric(c: char) -> (r: bool)
    ensures
        r == alphanumeric(c),
{
    c.is_alphanumeric()
}

/// A character kept in a file name; any other becomes `_`.
pub open spec fn kept_in_filename(c: char) -> bool {
    alphanumeric(c) || c == '-' || c == '_' || c == '.'
}

pub open spec fn sanitized(s: Seq<char>) -> Seq<char> {
    s.map_values(|c: char| if kept_in_filename(c) { c } else { '_' })
}

pub fn sanitize_filename(filename: &str) -> (r: String)
    ensures
        r@ == sanitized(filename@),
{
    let cs = chars_of(filename);
    let mut out: Vec<char> = Vec::new();
    let mut i: usize = 0;
    while i < cs.len()
        invariant
            i <= cs@.len(),
            cs@ == filename@,
            out@ == sanitized(cs@.subrange(0, i as int)),
        decreases cs@.len() - i,
    {
        let c = cs[i];
        let keep = is_alphanumeric(c) || c == '-' || c == '_' || c == '.';
        if keep {
            out.push(c);
        } else {
            out.push('_');
        }
        i = i + 1;
        proof {
            assert(sanitized(cs@.subrange(0, i as int)) =~= sanitized(cs@.subrange(0, i - 1)).push(
                if kept_in_filename(c) { c } else { '_' }));
        }
    }
    proof {
        assert(cs@.subrange(0, cs@.len() as int) =~= cs@);
    }
    string_of(&out)
}

/// Three decimal digits, with leading zeros.
pub open spec fn three_digits(n: nat) -> Seq<char> {
    seq![digit_char(n / 100 % 10), digit_char(n / 10 % 10), digit_char(n % 10)]
}

/// A session label: nine digits in three groups, `123-456-789`.
pub open spec fn session_label(n: nat) -> Seq<char> {
    three_digits(n / 1_000_000) + seq!['-'] + three_digits(n / 1000 % 1000) + seq!['-'] + three_digits(n % 1000)
}

fn push_three(v: &mut Vec<char>, n: u64)
    requires
        n < 1000,
    ensures
        final(v)@ == old(v)@ + three_digits(n as nat),
{
    v.push(digit_of(n / 100 % 10));
    v.push(digit_of(n / 10 % 10));
    v.push(digit_of(n % 10));
    proof {
        assert(v@ =~= old(v)@ + three_digits(n as nat));
    }
}

/// The label of a nine-digit number.
pub fn format_session_label(n: u32) -> (r: String)
    requires
        n <= 999_999_999,
    ensures
        r@ == session_label(n as nat),
        r@.len() == 11,
{
    let mut v: Vec<char> = Vec::new();
    push_three(&mut v, (n / 1_000_000) as u64);
    v.push('-');
    push_three(&mut v, (n / 1000 % 1000) as u64);
    v.push('-');
    push_three(&mut v, (n % 1000) as u64);
    proof {
        assert(v@ =~= session_label(n as nat));
    }
    string_of(&v)
}

/// A random session label of nine digits, the first of them not zero.
pub fn generate_session_id() -> (r: String)
    ensures
        r@.len() == 11,
        r@[3] == '-' && r@[7] == '-',
        exists|n: nat| 100_000_000 <= n <= 999_999_999 && r@ == session_label(n),
{
    let n = crate::ids::draw_in_range(100_000_000, 1_000_000_000);
    format_session_label(n)
}

/// Relies on `SystemTime::now` and `duration_since(UNIX_EPOCH)`: whole seconds
/// since the Unix epoch, or zero if the clock stands before it.
#[verifier::external_body]
pub fn get_current_timestamp() -> (r: u64) {
    std::time::SystemTime::now()
        .duration_since(std::time::UNIX_EPOCH)
        .unwrap_or_default()
        .as_secs()
}

/// Relies on `SystemTime::now` and `duration_since(UNIX_EPOCH)`: milliseconds
/// since the Unix epoch, or zero if the clock stands before it.
#[verifier::external_body]
pub fn get_current_timestamp_ms() -> (r: u64) {
    std::time::SystemTime::now()
        .duration_since(std::time::UNIX_EPOCH)
        .unwrap_or_default()
        .as_millis() as u64
}

} // verus!
