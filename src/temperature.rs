//! CPU temperature: decimal readings of thermal sensor files and of the
//! `sensors` tool's raw report, tried in a fixed order.

use vstd::prelude::*;
use vstd::string::*;
use crate::text::{digit_value, is_digit, starts_with};

verus! {

pub open spec fn is_space(c: char) -> bool {
    c == ' ' || c == '\t' || c == '\n' || c == '\r' || c == '\x0b' || c == '\x0c'
}

pub open spec fn trim_start(s: Seq<char>) -> Seq<char>
    decreases s.len(),
{
    if s.len() > 0 && is_space(s[0]) {
        trim_start(s.subrange(1, s.len() as int))
    } else {
        s
    }
}

pub open spec fn trim_end(s: Seq<char>) -> Seq<char>
    decreases s.len(),
{
    if s.len() > 0 && is_space(s.last()) {
        trim_end(s.drop_last())
    } else {
        s
    }
}

/// `s` without surrounding ASCII whitespace.
pub open spec fn trim(s: Seq<char>) -> Seq<char> {
    trim_end(trim_start(s))
}

pub open spec fn pow10(n: nat) -> nat
    decreases n,
{
    if n == 0 {
        1
    } else {
        10 * pow10((n - 1) as nat)
    }
}

/// Reads the leading digits of `s` after `acc`: their value and what follows.
pub open spec fn scan_digits(s: Seq<char>, acc: nat) -> (nat, Seq<char>)
    decreases s.len(),
{
    if s.len() > 0 && is_digit(s[0]) {
        scan_digits(s.subrange(1, s.len() as int), acc * 10 + digit_value(s[0]))
    } else {
        (acc, s)
    }
}

/// Reads the leading digits of `s`, keeping the first `keep` of them after
/// `acc`: their value, how many more could have been kept, and what follows.
pub open spec fn scan_fraction(s: Seq<char>, acc: nat, keep: nat) -> (nat, nat, Seq<char>)
    decreases s.len(),
{
    if s.len() > 0 && is_digit(s[0]) {
        if keep > 0 {
            scan_fraction(s.subrange(1, s.len() as int), acc * 10 + digit_value(s[0]), (keep - 1) as nat)
        } else {
            scan_fraction(s.subrange(1, s.len() as int), acc, 0)
        }
    } else {
        (acc, keep, s)
    }
}

/// An unsigned decimal number (digits, optionally a point and more digits,
/// at least one digit in all) times `10^scale`, digits beyond the scale cut off.
pub open spec fn unsigned_decimal(s: Seq<char>, scale: nat) -> Option<nat> {
    let (iv, r1) = scan_digits(s, 0);
    let int_len = s.len() - r1.len();
    if r1.len() == 0 {
        if int_len > 0 {
            Some(iv * pow10(scale))
        } else {
            None
        }
    } else if r1[0] == '.' {
        let f = r1.subrange(1, r1.len() as int);
        let (fv, left, r2) = scan_fraction(f, 0, scale);
        let frac_len = f.len() - r2.len();
        if r2.len() == 0 && int_len + frac_len > 0 {
            Some(iv * pow10(scale) + fv * pow10(left))
        } else {
            None
        }
    } else {
        None
    }
}

/// A decimal number written in `text`, with surrounding whitespace and an
/// optional sign, times `10^scale` and cut toward zero; `None` when the text
/// is no such number or its magnitude exceeds the signed 64-bit range.
pub open spec fn scaled_decimal(text: Seq<char>, scale: nat) -> Option<i64> {
    let t = trim(text);
    let neg = t.len() > 0 && t[0] == '-';
    let body = if t.len() > 0 && (t[0] == '-' || t[0] == '+') {
        t.subrange(1, t.len() as int)
    } else {
        t
    };
    match unsigned_decimal(body, scale) {
        Some(v) => if v <= i64::MAX {
            Some(
                if neg {
                    -v
                } else {
                    v as int
                } as i64,
            )
        } else {
            None
        },
        None => None,
    }
}

proof fn lemma_pow10_bounds(n: nat)
    ensures
        1 <= pow10(n),
        n <= 6 ==> pow10(n) <= 1000000,
    decreases n,
{
    reveal_with_fuel(pow10, 7);
    if n > 0 {
        lemma_pow10_bounds((n - 1) as nat);
    }
}

proof fn lemma_scan_digits_grows(s: Seq<char>, acc: nat)
    ensures
        scan_digits(s, acc).0 >= acc,
    decreases s.len(),
{
    if s.len() > 0 && is_digit(s[0]) {
        lemma_scan_digits_grows(s.subrange(1, s.len() as int), acc * 10 + digit_value(s[0]));
    }
}

proof fn lemma_unsigned_decimal_at_least(s: Seq<char>, scale: nat)
    ensures
        unsigned_decimal(s, scale) matches Some(v) ==> v >= scan_digits(s, 0).0,
{
    lemma_pow10_bounds(scale);
    let iv = scan_digits(s, 0).0;
    let p = pow10(scale);
    assert(iv * p >= iv) by (nonlinear_arith)
        requires
            p >= 1,
    ;
}

fn pow10_exec(n: u64) -> (r: u64)
    requires
        n <= 6,
    ensures
        r == pow10(n as nat),
        1 <= r <= 1000000,
    decreases n,
{
    proof {
        lemma_pow10_bounds(n as nat);
    }
    if n == 0 {
        1
    } else {
        10 * pow10_exec(n - 1)
    }
}

fn is_space_char(c: char) -> (r: bool)
    ensures
        r == is_space(c),
{
    c == ' ' || c == '\t' || c == '\n' || c == '\r' || c == '\x0b' || c == '\x0c'
}

/// Bounds of `text` without its surrounding whitespace.
fn trim_bounds(text: &str) -> (r: (usize, usize))
    ensures
        r.0 <= r.1 <= text@.len(),
        trim(text@) == text@.subrange(r.0 as int, r.1 as int),
{
    let n = text.unicode_len();
    let ghost s = text@;
    let mut a: usize = 0;
    assert(s.subrange(0, n as int) =~= s);
    while a < n && is_space_char(text.get_char(a))
        invariant
            a <= n,
            n == s.len(),
            s == text@,
            trim_start(s) == trim_start(s.subrange(a as int, n as int)),
        decreases n - a,
    {
        assert(s.subrange(a as int, n as int)[0] == s[a as int]);
        assert(s.subrange(a as int, n as int).subrange(1, (n - a) as int) =~= s.subrange(a as int + 1, n as int));
        a = a + 1;
    }
    proof {
        if a < n {
            assert(s.subrange(a as int, n as int)[0] == s[a as int]);
        }
        assert(trim_start(s) == s.subrange(a as int, n as int));
    }
    let mut b: usize = n;
    while b > a && is_space_char(text.get_char(b - 1))
        invariant
            a <= b <= n,
            n == s.len(),
            s == text@,
            trim_end(s.subrange(a as int, n as int)) == trim_end(s.subrange(a as int, b as int)),
        decreases b,
    {
        assert(s.subrange(a as int, b as int).last() == s[b - 1]);
        assert(s.subrange(a as int, b as int).drop_last() =~= s.subrange(a as int, b - 1));
        b = b - 1;
    }
    proof {
        if b > a {
            assert(s.subrange(a as int, b as int).last() == s[b - 1]);
        }
    }
    (a, b)
}

/// Reads the digits of `t` from `start`: their value and where they end, or
/// `None` when the value exceeds the signed 64-bit range.
fn scan_whole(t: &str, start: usize) -> (r: Option<(u64, usize)>)
    requires
        start <= t@.len(),
    ensures
        match r {
            Some((v, i)) => {
                &&& start <= i <= t@.len()
                &&& v <= i64::MAX
                &&& scan_digits(t@.subrange(start as int, t@.len() as int), 0) == (
                    v as nat,
                    t@.subrange(i as int, t@.len() as int),
                )
            },
            None => scan_digits(t@.subrange(start as int, t@.len() as int), 0).0 > i64::MAX,
        },
{
    let m = t.unicode_len();
    let ghost tt = t@;
    let ghost body = tt.subrange(start as int, m as int);
    let mut i: usize = start;
    let mut acc: u64 = 0;
    while i < m && is_digit_exec(t.get_char(i))
        invariant
            start <= i <= m,
            m == tt.len(),
            tt == t@,
            body == tt.subrange(start as int, m as int),
            scan_digits(body, 0) == scan_digits(tt.subrange(i as int, m as int), acc as nat),
            acc <= i64::MAX,
        decreases m - i,
    {
        let c = t.get_char(i);
        let ghost rest = tt.subrange(i as int, m as int);
        assert(rest[0] == c);
        assert(rest.subrange(1, rest.len() as int) =~= tt.subrange(i as int + 1, m as int));
        let d: u64 = (c as u32 - '0' as u32) as u64;
        if acc > (9223372036854775807u64 - d) / 10 {
            proof {
                let big: int = 9223372036854775807;
                assert(acc * 10 + d > big) by (nonlinear_arith)
                    requires
                        acc > (big - d) / 10,
                        0 <= d <= 9,
                ;
                lemma_scan_digits_grows(tt.subrange(i as int + 1, m as int), (acc * 10 + d) as nat);
            }
            return None;
        }
        acc = acc * 10 + d;
        i = i + 1;
    }
    proof {
        if i < m {
            assert(tt.subrange(i as int, m as int)[0] == tt[i as int]);
        }
    }
    Some((acc, i))
}

/// Reads the digits of `t` from `from`, keeping the first `scale` of them:
/// their value, how many more could have been kept, and where they end.
fn scan_fraction_digits(t: &str, from: usize, scale: u64) -> (r: (u64, u64, usize))
    requires
        from <= t@.len(),
        scale <= 6,
    ensures
        from <= r.2 <= t@.len(),
        r.1 <= scale,
        r.0 < pow10((scale - r.1) as nat),
        scan_fraction(t@.subrange(from as int, t@.len() as int), 0, scale as nat) == (
            r.0 as nat,
            r.1 as nat,
            t@.subrange(r.2 as int, t@.len() as int),
        ),
{
    let m = t.unicode_len();
    let ghost tt = t@;
    let ghost f = tt.subrange(from as int, m as int);
    let mut j: usize = from;
    let mut facc: u64 = 0;
    let mut keep: u64 = scale;
    proof {
        lemma_pow10_bounds(0);
    }
    while j < m && is_digit_exec(t.get_char(j))
        invariant
            from <= j <= m,
            m == tt.len(),
            tt == t@,
            f == tt.subrange(from as int, m as int),
            keep <= scale <= 6,
            facc < pow10((scale - keep) as nat),
            scan_fraction(f, 0, scale as nat) == scan_fraction(tt.subrange(j as int, m as int), facc as nat, keep as nat),
        decreases m - j,
    {
        let c = t.get_char(j);
        let ghost rest = tt.subrange(j as int, m as int);
        assert(rest[0] == c);
        assert(rest.subrange(1, rest.len() as int) =~= tt.subrange(j as int + 1, m as int));
        if keep > 0 {
            proof {
                lemma_pow10_bounds((scale - keep + 1) as nat);
                assert(pow10((scale - keep + 1) as nat) == 10 * pow10((scale - keep) as nat));
            }
            facc = facc * 10 + (c as u32 - '0' as u32) as u64;
            keep = keep - 1;
        }
        j = j + 1;
    }
    proof {
        if j < m {
            assert(tt.subrange(j as int, m as int)[0] == tt[j as int]);
        }
    }
    (facc, keep, j)
}

/// Reads the decimal number that `text` writes, times `10^scale` (see
/// `scaled_decimal`).
pub fn parse_scaled_decimal(text: &str, scale: u64) -> (r: Option<i64>)
    requires
        scale <= 6,
    ensures
        r == scaled_decimal(text@, scale as nat),
{
    let (a, b) = trim_bounds(text);
    let t = text.substring_char(a, b);
    let m = b - a;
    let ghost tt = t@;
    let neg = m > 0 && t.get_char(0) == '-';
    let start: usize = if m > 0 && (t.get_char(0) == '-' || t.get_char(0) == '+') { 1 } else { 0 };
    let ghost body = tt.subrange(start as int, m as int);
    proof {
        if start == 0 {
            assert(body =~= tt);
        }
    }
    let (acc, i) = match scan_whole(t, start) {
        Some(x) => x,
        None => {
            proof {
                lemma_unsigned_decimal_at_least(body, scale as nat);
            }
            return None;
        },
    };
    let p: u64 = pow10_exec(scale);
    assert(acc as u128 * p as u128 <= 9223372036854775807u128 * 1000000u128) by (nonlinear_arith)
        requires
            acc <= 9223372036854775807u64,
            p <= 1000000,
    ;
    let whole: u128 = acc as u128 * p as u128;
    let value: u128 = if i == m {
        if i == start {
            return None;
        }
        whole
    } else if t.get_char(i) == '.' {
        proof {
            assert(tt.subrange(i as int, m as int)[0] == tt[i as int]);
            assert(tt.subrange(i as int, m as int).subrange(1, (m - i) as int) =~= tt.subrange(i as int + 1, m as int));
        }
        let (facc, keep, j) = scan_fraction_digits(t, i + 1, scale);
        if j < m {
            return None;
        }
        if i == start && j == i + 1 {
            return None;
        }
        proof {
            lemma_pow10_bounds((scale - keep) as nat);
            lemma_pow10_bounds(keep as nat);
        }
        let kp: u64 = pow10_exec(keep);
        assert(facc as u128 * kp as u128 <= 1000000u128 * 1000000u128) by (nonlinear_arith)
            requires
                facc <= 1000000,
                kp <= 1000000,
        ;
        whole + facc as u128 * kp as u128
    } else {
        proof {
            assert(tt.subrange(i as int, m as int)[0] == tt[i as int]);
        }
        return None;
    };
    if value > 9223372036854775807u128 {
        return None;
    }
    let v: i64 = value as i64;
    if neg {
        Some(-v)
    } else {
        Some(v)
    }
}

/// Whether `p` occurs in `s`.
pub open spec fn contains_text(s: Seq<char>, p: Seq<char>) -> bool {
    exists|i: int| 0 <= i && i + p.len() <= s.len() && #[trigger] s.subrange(i, i + p.len()) == p
}

/// Position of the first `c` in `s`.
pub open spec fn first_index_of(s: Seq<char>, c: char) -> Option<nat>
    decreases s.len(),
{
    if s.len() == 0 {
        None
    } else if s[0] == c {
        Some(0)
    } else {
        match first_index_of(s.subrange(1, s.len() as int), c) {
            Some(k) => Some(k + 1),
            None => None,
        }
    }
}

/// The second colon-separated field of `s`, if `s` has a colon.
pub open spec fn second_field(s: Seq<char>) -> Option<Seq<char>> {
    match first_index_of(s, ':') {
        None => None,
        Some(p) => {
            let rest = s.subrange(p as int + 1, s.len() as int);
            match first_index_of(rest, ':') {
                Some(q) => Some(rest.subrange(0, q as int)),
                None => Some(rest),
            }
        },
    }
}

/// The temperature on one line of the `sensors -u` report, in millionths of
/// a degree: the line names the first temperature input, and its second
/// field is a decimal number of degrees.
pub open spec fn sensor_line_value(line: Seq<char>) -> Option<i64> {
    if contains_text(line, "temp1_input:"@) {
        match second_field(line) {
            Some(f) => scaled_decimal(f, 6),
            None => None,
        }
    } else {
        None
    }
}

/// The first line of the report that gives a temperature.
pub open spec fn first_sensor_value(lines: Seq<String>) -> Option<i64>
    decreases lines.len(),
{
    if lines.len() == 0 {
        None
    } else {
        match sensor_line_value(lines[0]@) {
            Some(v) => Some(v),
            None => first_sensor_value(lines.subrange(1, lines.len() as int)),
        }
    }
}

/// The first thermal file, in order, whose text reads as millidegrees; the
/// result is in millionths of a degree.
pub open spec fn first_zone_value(zones: Seq<Option<String>>) -> Option<i64>
    decreases zones.len(),
{
    if zones.len() == 0 {
        None
    } else {
        let rest = first_zone_value(zones.subrange(1, zones.len() as int));
        match zones[0] {
            Some(t) => match scaled_decimal(t@, 3) {
                Some(v) => Some(v),
                None => rest,
            },
            None => rest,
        }
    }
}

fn find_char(s: &str, c: char) -> (r: Option<usize>)
    ensures
        match r {
            Some(k) => first_index_of(s@, c) == Some(k as nat) && k < s@.len(),
            None => first_index_of(s@, c) is None,
        },
{
    let n = s.unicode_len();
    let mut i: usize = 0;
    assert(s@.subrange(0, n as int) =~= s@);
    while i < n
        invariant
            i <= n,
            n == s@.len(),
            first_index_of(s@, c) == match first_index_of(s@.subrange(i as int, n as int), c) {
                Some(k) => Some((k + i) as nat),
                None => None,
            },
        decreases n - i,
    {
        let ghost rest = s@.subrange(i as int, n as int);
        assert(rest[0] == s@[i as int]);
        if s.get_char(i) == c {
            return Some(i);
        }
        assert(rest.subrange(1, rest.len() as int) =~= s@.subrange(i as int + 1, n as int));
        i = i + 1;
    }
    None
}

fn contains_str(s: &str, p: &str) -> (r: bool)
    ensures
        r == contains_text(s@, p@),
{
    let n = s.unicode_len();
    let m = p.unicode_len();
    if m > n {
        return false;
    }
    if m == 0 {
        assert(s@.subrange(0, 0 + p@.len() as int) =~= p@);
        return true;
    }
    let mut i: usize = 0;
    while i <= n - m
        invariant
            n == s@.len(),
            m == p@.len(),
            1 <= m <= n,
            i <= n - m + 1,
            forall|j: int| 0 <= j < i ==> #[trigger] s@.subrange(j, j + m) != p@,
        decreases n - m + 1 - i,
    {
        let tail = s.substring_char(i, n);
        if starts_with(tail, p) {
            assert(tail@.subrange(0, m as int) =~= s@.subrange(i as int, i + m));
            assert(s@.subrange(i as int, i + p@.len() as int) == p@);
            return true;
        }
        assert(tail@.subrange(0, m as int) =~= s@.subrange(i as int, i + m));
        i = i + 1;
    }
    assert forall|j: int| 0 <= j && j + p@.len() <= s@.len() implies #[trigger] s@.subrange(j, j + p@.len()) != p@ by {
        assert(j < i);
    }
    false
}

/// The temperature on one line of the `sensors -u` report (see `sensor_line_value`).
pub fn parse_sensor_line(line: &str) -> (r: Option<i64>)
    ensures
        r == sensor_line_value(line@),
{
    if !contains_str(line, "temp1_input:") {
        return None;
    }
    let n = line.unicode_len();
    match find_char(line, ':') {
        None => None,
        Some(p) => {
            let rest = line.substring_char(p + 1, n);
            let field = match find_char(rest, ':') {
                Some(q) => rest.substring_char(0, q),
                None => rest,
            };
            parse_scaled_decimal(field, 6)
        },
    }
}

/// The first temperature that the lines of a `sensors -u` report give.
pub fn sensor_report_temperature(lines: &Vec<String>) -> (r: Option<i64>)
    ensures
        r == first_sensor_value(lines@),
{
    let mut i: usize = 0;
    assert(lines@.subrange(0, lines@.len() as int) =~= lines@);
    while i < lines.len()
        invariant
            i <= lines.len(),
            first_sensor_value(lines@) == first_sensor_value(lines@.subrange(i as int, lines@.len() as int)),
        decreases lines.len() - i,
    {
        let ghost rest = lines@.subrange(i as int, lines@.len() as int);
        assert(rest[0] == lines@[i as int]);
        assert(rest.subrange(1, rest.len() as int) =~= lines@.subrange(i as int + 1, lines@.len() as int));
        match parse_sensor_line(lines[i].as_str()) {
            Some(v) => {
                return Some(v);
            },
            None => {},
        }
        i = i + 1;
    }
    None
}

/// The first thermal file text, in order, that reads as millidegrees.
pub fn first_zone_temperature(zones: &Vec<Option<String>>) -> (r: Option<i64>)
    ensures
        r == first_zone_value(zones@),
{
    let mut i: usize = 0;
    assert(zones@.subrange(0, zones@.len() as int) =~= zones@);
    while i < zones.len()
        invariant
            i <= zones.len(),
            first_zone_value(zones@) == first_zone_value(zones@.subrange(i as int, zones@.len() as int)),
        decreases zones.len() - i,
    {
        let ghost rest = zones@.subrange(i as int, zones@.len() as int);
        assert(rest[0] == zones@[i as int]);
        assert(rest.subrange(1, rest.len() as int) =~= zones@.subrange(i as int + 1, zones@.len() as int));
        match &zones[i] {
            Some(t) => match parse_scaled_decimal(t.as_str(), 3) {
                Some(v) => {
                    return Some(v);
                },
                None => {},
            },
            None => {},
        }
        i = i + 1;
    }
    None
}

/// CPU temperature in millionths of a degree: the first readable thermal
/// file, else the `sensors` report where one was taken, else none.
pub fn get_cpu_temperature(zones: &Vec<Option<String>>, sensors_report: Option<&Vec<String>>) -> (r: Option<i64>)
    ensures
        r == match first_zone_value(zones@) {
            Some(v) => Some(v),
            None => match sensors_report {
                Some(lines) => first_sensor_value(lines@),
                None => None,
            },
        },
{
    match first_zone_temperature(zones) {
        Some(v) => Some(v),
        None => match sensors_report {
            Some(lines) => sensor_report_temperature(lines),
            None => None,
        },
    }
}

fn is_digit_exec(c: char) -> (r: bool)
    ensures
        r == is_digit(c),
{
    '0' <= c && c <= '9'
}

} // verus!
