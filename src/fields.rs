use vstd::prelude::*;

verus! {

/// Money is held in ten-thousandths of the currency unit.
pub const MONEY_SCALE: i128 = 10000;

/// No money field is this large or larger in absolute value, in
/// ten-thousandths (10^14 currency units).
pub const MONEY_BOUND: i128 = 1_000_000_000_000_000_000;

pub open spec fn is_digit(c: char) -> bool {
    '0' <= c && c <= '9'
}

pub open spec fn digit_val(c: char) -> int {
    c as int - '0' as int
}

pub open spec fn all_digits(s: Seq<char>) -> bool {
    forall|i: int| 0 <= i < s.len() ==> is_digit(#[trigger] s[i])
}

/// The number written by a string of decimal digits.
pub open spec fn digits_value(s: Seq<char>) -> int
    decreases s.len(),
{
    if s.len() == 0 {
        0
    } else {
        digits_value(s.drop_last()) * 10 + digit_val(s.last())
    }
}

pub open spec fn pow10(k: nat) -> int
    decreases k,
{
    if k == 0 { 1 } else { 10 * pow10((k - 1) as nat) }
}

/// Position of the first `c` in `s`, or `s.len()` when there is none.
pub open spec fn find_char(s: Seq<char>, c: char) -> int
    decreases s.len(),
{
    if s.len() == 0 {
        0
    } else if s[0] == c {
        0
    } else {
        1 + find_char(s.drop_first(), c)
    }
}

/// A fraction's digits in ten-thousandths: the first four digits, rounded
/// half up at the fifth.
pub open spec fn frac_units(frac: Seq<char>) -> int {
    let k: int = if frac.len() < 4 { frac.len() as int } else { 4 };
    digits_value(frac.take(k)) * pow10((4 - k) as nat) + (if frac.len() > 4 && digit_val(frac[4]) >= 5 { 1int } else { 0 })
}

/// A money field: an optional `+` or `-`, digits, and optionally `.` and
/// more digits, with at least one digit in all. Its value in
/// ten-thousandths, rounded half up; `None` when malformed or when its size
/// reaches `MONEY_BOUND`.
pub open spec fn money_value(s: Seq<char>) -> Option<int> {
    let signed = s.len() > 0 && (s[0] == '-' || s[0] == '+');
    let neg = s.len() > 0 && s[0] == '-';
    let body = if signed { s.drop_first() } else { s };
    let dot = find_char(body, '.');
    let int_part = body.take(dot);
    let frac = if dot < body.len() { body.skip(dot + 1) } else { Seq::empty() };
    if all_digits(int_part) && all_digits(frac) && int_part.len() + frac.len() >= 1 {
        let m = digits_value(int_part) * MONEY_SCALE + frac_units(frac);
        if m < MONEY_BOUND { Some(if neg { -m } else { m }) } else { None }
    } else {
        None
    }
}

pub open spec fn is_leap(y: int) -> bool {
    (y % 4 == 0 && y % 100 != 0) || y % 400 == 0
}

pub open spec fn days_in_month(y: int, m: int) -> int {
    if m == 2 {
        if is_leap(y) { 29 } else { 28 }
    } else if m == 4 || m == 6 || m == 9 || m == 11 {
        30
    } else {
        31
    }
}

/// Days of the year before the first of month `m`.
pub open spec fn days_before_month(y: int, m: int) -> int {
    let base: int = if m == 1 { 0 }
    else if m == 2 { 31 }
    else if m == 3 { 59 }
    else if m == 4 { 90 }
    else if m == 5 { 120 }
    else if m == 6 { 151 }
    else if m == 7 { 181 }
    else if m == 8 { 212 }
    else if m == 9 { 243 }
    else if m == 10 { 273 }
    else if m == 11 { 304 }
    else { 334 };
    if m > 2 && is_leap(y) { base + 1 } else { base }
}

/// Whether year, month and day name a date of the proleptic Gregorian
/// calendar.
pub open spec fn is_date(y: int, m: int, d: int) -> bool {
    1 <= m <= 12 && 1 <= d <= days_in_month(y, m)
}

/// The day number of a date in the proleptic Gregorian calendar:
/// 0001-01-01 is day 1, 0000-12-31 day 0.
pub open spec fn ce_day(y: int, m: int, d: int) -> int {
    365 * (y - 1) + (y - 1) / 4 - (y - 1) / 100 + (y - 1) / 400 + days_before_month(y, m) + d
}

/// Relies on chrono's `NaiveDate::from_ymd_opt`, which gives no date for a
/// month or day outside the calendar (years 0 to 9999 are all in its range),
/// and on `Datelike::num_days_from_ce`, which counts days so that
/// 0001-01-01 is day 1.
#[verifier::external_body]
fn calendar_day(y: i32, m: u32, d: u32) -> (r: Option<i32>)
    requires
        0 <= y <= 9999,
    ensures
        r is Some <==> is_date(y as int, m as int, d as int),
        r matches Some(v) ==> v as int == ce_day(y as int, m as int, d as int),
{
    match chrono::NaiveDate::from_ymd_opt(y, m, d) {
        Some(date) => Some(chrono::Datelike::num_days_from_ce(&date)),
        None => None,
    }
}

/// A date field: `YYYY-MM-DD`, alone or followed by a space and a time. Its
/// day number, or `None` when it is not a calendar date.
pub open spec fn date_value(s: Seq<char>) -> Option<int> {
    if s.len() >= 10 && (s.len() == 10 || s[10] == ' ') && s[4] == '-' && s[7] == '-'
        && all_digits(s.take(4)) && all_digits(s.subrange(5, 7)) && all_digits(s.subrange(8, 10)) {
        let y = digits_value(s.take(4));
        let m = digits_value(s.subrange(5, 7));
        let d = digits_value(s.subrange(8, 10));
        if is_date(y, m, d) { Some(ce_day(y, m, d)) } else { None }
    } else {
        None
    }
}

/// The characters of a string.
pub fn chars_of(s: &str) -> (r: Vec<char>)
    ensures
        r@ == s@,
{
    let n = s.unicode_len();
    let mut out: Vec<char> = Vec::new();
    let mut i: usize = 0;
    while i < n
        invariant
            n == s@.len(),
            i <= n,
            out@ == s@.take(i as int),
        decreases n - i,
    {
        out.push(s.get_char(i));
        assert(s@.take(i + 1) =~= s@.take(i as int).push(s@[i as int]));
        i = i + 1;
    }
    assert(s@.take(n as int) =~= s@);
    out
}

proof fn lemma_pow10_values()
    ensures
        pow10(4) == 10000,
        pow10(14) == 100_000_000_000_000,
        pow10(18) == 1_000_000_000_000_000_000,
{
    reveal_with_fuel(pow10, 19);
}

proof fn lemma_pow10_add(a: nat, b: nat)
    ensures
        pow10(a + b) == pow10(a) * pow10(b),
    decreases a,
{
    if a > 0 {
        lemma_pow10_add((a - 1) as nat, b);
        assert(pow10(a + b) == 10 * pow10((a - 1 + b) as nat));
        assert(10 * (pow10((a - 1) as nat) * pow10(b)) == (10 * pow10((a - 1) as nat)) * pow10(b)) by (nonlinear_arith);
    }
}

pub proof fn lemma_digits_prefix_le(s: Seq<char>, k: int)
    requires
        all_digits(s),
        0 <= k <= s.len(),
    ensures
        0 <= digits_value(s.take(k)) <= digits_value(s),
    decreases s.len(),
{
    if k == s.len() {
        assert(s.take(k) =~= s);
        if s.len() > 0 {
            assert(all_digits(s.drop_last()));
            lemma_digits_prefix_le(s.drop_last(), s.len() - 1);
        }
    } else {
        assert(all_digits(s.drop_last()));
        assert(s.drop_last().take(k) =~= s.take(k));
        lemma_digits_prefix_le(s.drop_last(), k);
        lemma_digits_prefix_le(s.drop_last(), s.len() - 1);
        assert(s.drop_last().take(s.len() - 1) =~= s.drop_last());
    }
}

proof fn lemma_digits_bound(s: Seq<char>)
    requires
        all_digits(s),
    ensures
        0 <= digits_value(s) < pow10(s.len()),
    decreases s.len(),
{
    if s.len() > 0 {
        assert(all_digits(s.drop_last()));
        lemma_digits_bound(s.drop_last());
    }
}

proof fn lemma_pow10_mono(a: nat, b: nat)
    requires
        a <= b,
    ensures
        pow10(a) <= pow10(b),
        pow10(a) >= 1,
    decreases b,
{
    if b > a {
        lemma_pow10_mono(a, (b - 1) as nat);
    } else if a > 0 {
        lemma_pow10_mono((a - 1) as nat, (a - 1) as nat);
    }
}

/// The value of the digits `s[from..to]`.
fn digits_in(s: &Vec<char>, from: usize, to: usize) -> (r: u64)
    requires
        from <= to <= s.len(),
        to - from <= 18,
        all_digits(s@.subrange(from as int, to as int)),
    ensures
        r == digits_value(s@.subrange(from as int, to as int)),
{
    let mut v: u64 = 0;
    let mut i: usize = from;
    while i < to
        invariant
            from <= i <= to <= s.len(),
            to - from <= 18,
            all_digits(s@.subrange(from as int, to as int)),
            v == digits_value(s@.subrange(from as int, i as int)),
            v < pow10((i - from) as nat),
        decreases to - i,
    {
        let ghost sub = s@.subrange(from as int, i + 1);
        assert(sub.drop_last() =~= s@.subrange(from as int, i as int));
        assert(is_digit(s@[i as int])) by {
            assert(s@.subrange(from as int, to as int)[i - from] == s@[i as int]);
        }
        proof {
            lemma_pow10_mono((i + 1 - from) as nat, 18);
            lemma_pow10_values();
        }
        let d = (s[i] as u32 - '0' as u32) as u64;
        v = v * 10 + d;
        i = i + 1;
    }
    v
}

fn all_digits_in(s: &Vec<char>, from: usize, to: usize) -> (r: bool)
    requires
        from <= to <= s.len(),
    ensures
        r == all_digits(s@.subrange(from as int, to as int)),
{
    let mut i: usize = from;
    while i < to
        invariant
            from <= i <= to <= s.len(),
            all_digits(s@.subrange(from as int, i as int)),
        decreases to - i,
    {
        if !('0' <= s[i] && s[i] <= '9') {
            assert(s@.subrange(from as int, to as int)[i - from] == s@[i as int]);
            return false;
        }
        assert forall|k: int| 0 <= k < i + 1 - from implies is_digit(
            #[trigger] s@.subrange(from as int, i + 1)[k],
        ) by {
            if k < i - from {
                assert(s@.subrange(from as int, i + 1)[k] == s@.subrange(from as int, i as int)[k]);
            }
        }
        i = i + 1;
    }
    true
}

proof fn lemma_find_char(s: Seq<char>, c: char, i: int)
    requires
        0 <= i <= s.len(),
        forall|k: int| 0 <= k < i ==> s[k] != c,
        i == s.len() || s[i] == c,
    ensures
        find_char(s, c) == i,
    decreases s.len(),
{
    if s.len() > 0 && i > 0 {
        lemma_find_char(s.drop_first(), c, i - 1);
    }
}

pub proof fn lemma_frac_units_nonneg(fr: Seq<char>)
    requires
        all_digits(fr),
    ensures
        0 <= frac_units(fr),
{
    let k: int = if fr.len() < 4 { fr.len() as int } else { 4 };
    assert(all_digits(fr.take(k)));
    lemma_digits_bound(fr.take(k));
    lemma_pow10_mono(0, (4 - k) as nat);
    assert(digits_value(fr.take(k)) * pow10((4 - k) as nat) >= 0) by (nonlinear_arith)
        requires digits_value(fr.take(k)) >= 0, pow10((4 - k) as nat) >= 1;
}

/// The value of the digits `s[from..to]` while it stays below 10^14;
/// `None` when a character there is no digit or the value reaches 10^14.
fn whole_units(s: &Vec<char>, from: usize, to: usize) -> (r: Option<i128>)
    requires
        from <= to <= s.len(),
    ensures
        r matches Some(v) ==> all_digits(s@.subrange(from as int, to as int)) && v == digits_value(s@.subrange(from as int, to as int))
            && 0 <= v < 100_000_000_000_000,
        r is None ==> !all_digits(s@.subrange(from as int, to as int)) || digits_value(s@.subrange(from as int, to as int)) >= 100_000_000_000_000,
{
    let ghost ip = s@.subrange(from as int, to as int);
    let limit: i128 = 100_000_000_000_000;
    let mut whole: i128 = 0;
    let mut i: usize = from;
    while i < to
        invariant
            from <= i <= to <= s.len(),
            ip == s@.subrange(from as int, to as int),
            limit == 100_000_000_000_000,
            all_digits(s@.subrange(from as int, i as int)),
            whole == digits_value(s@.subrange(from as int, i as int)),
            0 <= whole < limit,
        decreases to - i,
    {
        if !('0' <= s[i] && s[i] <= '9') {
            proof {
                assert(ip[i - from] == s@[i as int]);
                assert(!is_digit(ip[i - from]));
            }
            return None;
        }
        let ghost sub = s@.subrange(from as int, i + 1);
        proof {
            assert(sub.drop_last() =~= s@.subrange(from as int, i as int));
            assert(all_digits(sub)) by {
                assert forall|k: int| 0 <= k < sub.len() implies is_digit(#[trigger] sub[k]) by {
                    if k < sub.len() - 1 {
                        assert(sub[k] == s@.subrange(from as int, i as int)[k]);
                    }
                }
            }
        }
        whole = whole * 10 + (s[i] as u32 - '0' as u32) as i128;
        if whole >= limit {
            proof {
                assert(ip.take(i + 1 - from) =~= sub);
                if all_digits(ip) {
                    lemma_digits_prefix_le(ip, i + 1 - from);
                }
            }
            return None;
        }
        i = i + 1;
    }
    assert(s@.subrange(from as int, i as int) == ip);
    Some(whole)
}

/// The fraction digits `s[from..to]` in ten-thousandths (see
/// `frac_units`); `None` when a character there is no digit.
#[verifier::rlimit(50)]
fn frac_in_units(s: &Vec<char>, from: usize, to: usize) -> (r: Option<i128>)
    requires
        from <= to <= s.len(),
    ensures
        r matches Some(f) ==> all_digits(s@.subrange(from as int, to as int)) && f == frac_units(s@.subrange(from as int, to as int))
            && 0 <= f <= 10000,
        r is None ==> !all_digits(s@.subrange(from as int, to as int)),
{
    let ghost fr = s@.subrange(from as int, to as int);
    if !all_digits_in(s, from, to) {
        return None;
    }
    let len = to - from;
    let k: usize = if len < 4 { len } else { 4 };
    let mut frac: i128 = 0;
    proof {
        assert(s@.subrange(from as int, from + k) =~= fr.take(k as int));
        assert(all_digits(fr.take(k as int))) by {
            assert forall|j: int| 0 <= j < k implies is_digit(#[trigger] fr.take(k as int)[j]) by {
                assert(fr.take(k as int)[j] == fr[j]);
            }
        }
    }
    if k > 0 {
        frac = digits_in(s, from, from + k) as i128;
    } else {
        assert(fr.take(0) =~= Seq::<char>::empty());
    }
    let mut scale: i128 = 1;
    let mut j: usize = k;
    while j < 4
        invariant
            k <= j <= 4,
            scale == pow10((j - k) as nat),
        decreases 4 - j,
    {
        proof {
            lemma_pow10_mono((j - k) as nat, 4);
            lemma_pow10_values();
        }
        scale = scale * 10;
        j = j + 1;
    }
    proof {
        lemma_digits_bound(fr.take(k as int));
        lemma_pow10_mono(k as nat, 4);
        lemma_pow10_values();
        lemma_pow10_add(k as nat, (4 - k) as nat);
        assert(frac * scale <= 10000 - scale) by (nonlinear_arith)
            requires
                0 <= frac < pow10(k as nat),
                scale == pow10((4 - k) as nat),
                pow10(k as nat) * pow10((4 - k) as nat) == 10000,
        {
        }
        lemma_pow10_mono(0, (4 - k) as nat);
        reveal_with_fuel(pow10, 1);
        assert(0 <= frac * scale) by (nonlinear_arith)
            requires 0 <= frac, scale >= 1;
    }
    let up: i128 = if len > 4 && s[from + 4] >= '5' { 1 } else { 0 };
    proof {
        if len > 4 {
            assert(fr[4] == s@[from + 4]);
        }
    }
    Some(frac * scale + up)
}

/// Parses a money field (see `money_value`).
pub fn parse_money(text: &str) -> (r: Option<i128>)
    ensures
        r matches Some(v) ==> money_value(text@) == Some(v as int),
        r is None ==> money_value(text@) is None,
        r matches Some(v) ==> -MONEY_BOUND < v < MONEY_BOUND,
{
    let s = chars_of(text);
    let n = s.len();
    let signed = n > 0 && (s[0] == '-' || s[0] == '+');
    let neg = n > 0 && s[0] == '-';
    let start: usize = if signed { 1 } else { 0 };
    let ghost body = if signed { s@.drop_first() } else { s@ };
    assert(body =~= s@.subrange(start as int, n as int));
    let mut dot: usize = start;
    while dot < n && s[dot] != '.'
        invariant
            start <= dot <= n,
            n == s.len(),
            forall|k: int| start <= k < dot ==> s@[k] != '.',
        decreases n - dot,
    {
        dot = dot + 1;
    }
    proof {
        lemma_find_char(body, '.', dot - start);
        assert(body.take(dot - start) =~= s@.subrange(start as int, dot as int));
    }
    let ghost ip = s@.subrange(start as int, dot as int);
    let whole = match whole_units(&s, start, dot) {
        Some(w) => w,
        None => {
            proof {
                let fr = if dot < n { body.skip(dot - start + 1) } else { Seq::<char>::empty() };
                assert(ip =~= body.take(dot - start));
                if all_digits(fr) {
                    lemma_frac_units_nonneg(fr);
                }
            }
            return None;
        },
    };
    let ghost fr = if dot < n { body.skip(dot - start + 1) } else { Seq::<char>::empty() };
    let from = if dot < n { dot + 1 } else { n };
    proof {
        assert(fr =~= s@.subrange(from as int, n as int));
        assert(ip =~= body.take(dot - start));
    }
    let frac = match frac_in_units(&s, from, n) {
        Some(f) => f,
        None => return None,
    };
    if (dot - start) + (n - from) < 1 {
        return None;
    }
    let m: i128 = whole * MONEY_SCALE + frac;
    if m >= MONEY_BOUND {
        return None;
    }
    if neg {
        Some(-m)
    } else {
        Some(m)
    }
}

/// Parses a date field into its day number; `None` when it is malformed or
/// not a calendar date.
pub fn parse_date(text: &str) -> (r: Option<i32>)
    ensures
        r matches Some(v) ==> date_value(text@) == Some(v as int),
        r is None ==> date_value(text@) is None,
{
    let s = chars_of(text);
    let n = s.len();
    if n < 10 || (n > 10 && s[10] != ' ') || s[4] != '-' || s[7] != '-' {
        return None;
    }
    if !all_digits_in(&s, 0, 4) || !all_digits_in(&s, 5, 7) || !all_digits_in(&s, 8, 10) {
        assert(s@.take(4) =~= s@.subrange(0, 4));
        return None;
    }
    assert(s@.take(4) =~= s@.subrange(0, 4));
    let y = digits_in(&s, 0, 4) as i32;
    let m = digits_in(&s, 5, 7) as u32;
    let d = digits_in(&s, 8, 10) as u32;
    proof {
        lemma_digits_bound(s@.subrange(0, 4));
        lemma_digits_bound(s@.subrange(5, 7));
        lemma_digits_bound(s@.subrange(8, 10));
        reveal_with_fuel(pow10, 5);
    }
    calendar_day(y, m, d)
}

} // verus!
