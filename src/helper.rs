use vstd::prelude::*;
use crate::fields::{all_digits, chars_of, digits_value, find_char, is_digit, lemma_digits_prefix_le};
use crate::text::{lower_of, push_str, text_eq, text_of, to_lower};

verus! {

/// The currency a payment platform settles in, with its display label.
#[derive(Debug)]
pub enum PaymentSystem {
    UZS(String),
    USD(String),
    EUR(String),
    RUB(String),
    NULL,
}

/// A platform's currency and label, by its lowercase name; `None` for a
/// platform not known.
pub open spec fn platform_of(n: Seq<char>) -> Option<(int, Seq<char>)> {
    if n == "humo"@ || n == "uzcard"@ { Some((0, "Национальная валюта"@)) }
    else if n == "pulz"@ { Some((0, "Кошелек UZS"@)) }
    else if n == "наличный"@ { Some((0, "Наличный платеж"@)) }
    else if n == "ecomm kapital24 usd"@ { Some((1, "$"@)) }
    else if n == "ecomm kapital24 eur"@ { Some((2, "€"@)) }
    else if n == "mir pay"@ { Some((3, "₽"@)) }
    else { None }
}

impl PaymentSystem {
    /// Currency (0 UZS, 1 USD, 2 EUR, 3 RUB) and label; `None` for `NULL`.
    pub open spec fn view(&self) -> Option<(int, Seq<char>)> {
        match self {
            PaymentSystem::UZS(s) => Some((0, s@)),
            PaymentSystem::USD(s) => Some((1, s@)),
            PaymentSystem::EUR(s) => Some((2, s@)),
            PaymentSystem::RUB(s) => Some((3, s@)),
            PaymentSystem::NULL => None,
        }
    }

    /// The currency of a platform, by its name in any case.
    pub fn new(payment_platform_name: String) -> (r: PaymentSystem)
        ensures
            r.view() == platform_of(lower_of(payment_platform_name@)),
    {
        let lowered = to_lower(payment_platform_name.as_str());
        let n = lowered.as_str();
        if text_eq(n, "humo") || text_eq(n, "uzcard") {
            PaymentSystem::UZS(text_of("Национальная валюта"))
        } else if text_eq(n, "pulz") {
            PaymentSystem::UZS(text_of("Кошелек UZS"))
        } else if text_eq(n, "наличный") {
            PaymentSystem::UZS(text_of("Наличный платеж"))
        } else if text_eq(n, "ecomm kapital24 usd") {
            PaymentSystem::USD(text_of("$"))
        } else if text_eq(n, "ecomm kapital24 eur") {
            PaymentSystem::EUR(text_of("€"))
        } else if text_eq(n, "mir pay") {
            PaymentSystem::RUB(text_of("₽"))
        } else {
            PaymentSystem::NULL
        }
    }
}

/// The file kind stored in the database under a numeric type.
pub open spec fn kind_name(tp: i8) -> Seq<char> {
    if tp == 1 { "pay"@ }
    else if tp == 4 { "pay_f"@ }
    else if tp == 2 { "c2card"@ }
    else if tp == 5 { "c2ccomanyname"@ }
    else if tp == 6 { "c2cplum"@ }
    else if tp == 7 { "c2ckapitalbank"@ }
    else if tp == 8 { "c2cpayme"@ }
    else if tp == 3 { "terminal"@ }
    else if tp == 9 { "c2cuzcard"@ }
    else { "null"@ }
}

/// The file kind for a numeric file type.
pub fn type_report_that_generated(tp: i8) -> (r: String)
    ensures
        r@ == kind_name(tp),
{
    let name = match tp {
        1 => "pay",
        4 => "pay_f",
        2 => "c2card",
        5 => "c2ccomanyname",
        6 => "c2cplum",
        7 => "c2ckapitalbank",
        8 => "c2cpayme",
        3 => "terminal",
        9 => "c2cuzcard",
        _ => "null",
    };
    text_of(name)
}

/// A decimal integer as Rust's integer parsing reads it: an optional `+` or
/// `-`, then one or more digits, its value within `i64` (the range of `isize`
/// on 64-bit targets).
pub open spec fn int_value(s: Seq<char>) -> Option<int> {
    let signed = s.len() > 0 && (s[0] == '-' || s[0] == '+');
    let neg = s.len() > 0 && s[0] == '-';
    let body = if signed { s.drop_first() } else { s };
    if body.len() >= 1 && all_digits(body) {
        let v = if neg { -digits_value(body) } else { digits_value(body) };
        if i64::MIN <= v <= i64::MAX { Some(v) } else { None }
    } else {
        None
    }
}

/// Parses a decimal integer; `None` when malformed or out of range.
pub fn parse_int(text: &str) -> (r: Option<i64>)
    ensures
        r matches Some(v) ==> int_value(text@) == Some(v as int),
        r is None ==> int_value(text@) is None,
{
    let c = chars_of(text);
    let n = c.len();
    let signed = n > 0 && (c[0] == '-' || c[0] == '+');
    let neg = n > 0 && c[0] == '-';
    let start: usize = if signed { 1 } else { 0 };
    let ghost body = if signed { text@.drop_first() } else { text@ };
    assert(body =~= c@.subrange(start as int, n as int));
    if n - start < 1 {
        return None;
    }
    let limit: i128 = 0x8000_0000_0000_0000;
    let mut v: i128 = 0;
    let mut i: usize = start;
    while i < n
        invariant
            start <= i <= n,
            n == c.len(),
            c@ == text@,
            body == c@.subrange(start as int, n as int),
            signed == (text@.len() > 0 && (text@[0] == '-' || text@[0] == '+')),
            neg == (text@.len() > 0 && text@[0] == '-'),
            body == (if signed { text@.drop_first() } else { text@ }),
            limit == 0x8000_0000_0000_0000,
            all_digits(c@.subrange(start as int, i as int)),
            v == digits_value(c@.subrange(start as int, i as int)),
            0 <= v <= limit,
        decreases n - i,
    {
        if !('0' <= c[i] && c[i] <= '9') {
            proof {
                assert(body[i - start] == c@[i as int]);
                assert(!is_digit(body[i - start]));
            }
            return None;
        }
        let ghost sub = c@.subrange(start as int, i + 1);
        proof {
            assert(sub.drop_last() =~= c@.subrange(start as int, i as int));
            assert(all_digits(sub)) by {
                assert forall|k: int| 0 <= k < sub.len() implies is_digit(#[trigger] sub[k]) by {
                    if k < sub.len() - 1 {
                        assert(sub[k] == c@.subrange(start as int, i as int)[k]);
                    }
                }
            }
        }
        v = v * 10 + (c[i] as u32 - '0' as u32) as i128;
        if v > limit {
            proof {
                assert(body.take(i + 1 - start) =~= sub);
                if all_digits(body) {
                    lemma_digits_prefix_le(body, i + 1 - start);
                }
            }
            return None;
        }
        i = i + 1;
    }
    assert(c@.subrange(start as int, n as int) == body);
    if neg {
        Some((-v) as i64)
    } else if v < limit {
        Some(v as i64)
    } else {
        None
    }
}

/// Whether the user may generate from files owned by the given ids: the
/// user's id must parse, not be -1, and equal every owner's id.
pub fn compare_user_id(user_id: &Option<String>, id_of_file_owner: &Vec<isize>) -> (r: bool)
    ensures
        r == (user_id matches Some(u) && int_value(u@) matches Some(v) && v != -1
            && forall|k: int| 0 <= k < id_of_file_owner.len() ==> #[trigger] id_of_file_owner@[k] as int == v),
{
    let id = match user_id {
        Some(u) => match parse_int(u.as_str()) {
            Some(v) => v,
            None => return false,
        },
        None => return false,
    };
    if id == -1 {
        return false;
    }
    let mut i: usize = 0;
    while i < id_of_file_owner.len()
        invariant
            i <= id_of_file_owner.len(),
            user_id matches Some(u) && int_value(u@) == Some(id as int),
            id != -1,
            forall|k: int| 0 <= k < i ==> #[trigger] id_of_file_owner@[k] as int == id as int,
        decreases id_of_file_owner.len() - i,
    {
        if id_of_file_owner[i] as i64 != id {
            assert(!(id_of_file_owner@[i as int] as int == id as int));
            return false;
        }
        i = i + 1;
    }
    true
}

/// The artifact file in a directory: `<dir>/<name>.xlsx`.
pub fn create_file(path_to_dir: String, file_name: &str) -> (r: String)
    ensures
        r@ == path_to_dir@ + "/"@ + file_name@ + ".xlsx"@,
{
    let mut p = path_to_dir;
    push_str(&mut p, "/");
    push_str(&mut p, file_name);
    push_str(&mut p, ".xlsx");
    p
}

/// Where a report's artifact lives: `<root>/<owner>/<fingerprint>.xlsx`.
pub fn artifact_path(reports_root: &str, owner_id: &str, fingerprint: &str) -> (r: String)
    ensures
        r@ == reports_root@ + "/"@ + owner_id@ + "/"@ + fingerprint@ + ".xlsx"@,
{
    let mut dir = text_of(reports_root);
    push_str(&mut dir, "/");
    push_str(&mut dir, owner_id);
    create_file(dir, fingerprint)
}

/// The part of a field before its first space.
pub open spec fn before_space(s: Seq<char>) -> Seq<char> {
    s.take(find_char(s, ' '))
}

proof fn lemma_find_char_bound(s: Seq<char>, c: char)
    ensures
        0 <= find_char(s, c) <= s.len(),
        find_char(s, c) < s.len() ==> s[find_char(s, c)] == c,
        forall|k: int| 0 <= k < find_char(s, c) ==> s[k] != c,
    decreases s.len(),
{
    if s.len() > 0 && s[0] != c {
        lemma_find_char_bound(s.drop_first(), c);
        assert forall|k: int| 0 <= k < find_char(s, c) implies s[k] != c by {
            if k > 0 {
                assert(s[k] == s.drop_first()[k - 1]);
            }
        }
    }
}

fn date_part(s: &str) -> (r: String)
    ensures
        r@ == before_space(s@),
{
    let c = chars_of(s);
    let mut i: usize = 0;
    while i < c.len() && c[i] != ' '
        invariant
            i <= c.len(),
            c@ == s@,
            forall|k: int| 0 <= k < i ==> c@[k] != ' ',
        decreases c.len() - i,
    {
        i = i + 1;
    }
    proof {
        lemma_find_char_bound(s@, ' ');
        let f = find_char(s@, ' ');
        if f < i {
            assert(s@[f] == ' ');
        } else if i < f {
            assert(s@[i as int] == ' ');
        }
    }
    text_of(s.substring_char(0, i))
}

/// The dates (the part before any time) of the first row of the first
/// chunk and of the last row of the last chunk.
pub fn get_date_from_to(chunks: &Vec<Vec<Vec<String>>>, date_index: usize) -> (r: (String, String))
    requires
        chunks.len() > 0,
        chunks@[0].len() > 0,
        chunks@.last().len() > 0,
        date_index < chunks@[0]@[0].len(),
        date_index < chunks@.last()@.last().len(),
    ensures
        r.0@ == before_space(chunks@[0]@[0]@[date_index as int]@),
        r.1@ == before_space(chunks@.last()@.last()@[date_index as int]@),
{
    let first = &chunks[0][0][date_index];
    let last_chunk = &chunks[chunks.len() - 1];
    let last = &last_chunk[last_chunk.len() - 1][date_index];
    (date_part(first.as_str()), date_part(last.as_str()))
}

pub open spec fn month_name(m: int) -> Seq<char> {
    if m == 1 { "Январь"@ }
    else if m == 2 { "Февраль"@ }
    else if m == 3 { "Март"@ }
    else if m == 4 { "Апрель"@ }
    else if m == 5 { "Май"@ }
    else if m == 6 { "Июнь"@ }
    else if m == 7 { "Июль"@ }
    else if m == 8 { "Август"@ }
    else if m == 9 { "Сентябрь"@ }
    else if m == 10 { "Октябрь"@ }
    else if m == 11 { "Ноябрь"@ }
    else { "Декабрь"@ }
}

fn month_text(m: i64) -> (r: &'static str)
    requires
        1 <= m <= 12,
    ensures
        r@ == month_name(m as int),
{
    if m == 1 { "Январь" }
    else if m == 2 { "Февраль" }
    else if m == 3 { "Март" }
    else if m == 4 { "Апрель" }
    else if m == 5 { "Май" }
    else if m == 6 { "Июнь" }
    else if m == 7 { "Июль" }
    else if m == 8 { "Август" }
    else if m == 9 { "Сентябрь" }
    else if m == 10 { "Октябрь" }
    else if m == 11 { "Ноябрь" }
    else { "Декабрь" }
}

/// A short date `[day, month, yy]` written out: "05 Март 2023г". Empty when
/// the month is not a number from 1 to 12.
pub fn build_date_ymd(formatted: &Vec<String>) -> (r: String)
    requires
        formatted.len() >= 3,
    ensures
        (int_value(formatted@[1]@) matches Some(m) && 1 <= m <= 12) ==> r@ == formatted@[0]@ + " "@
            + month_name(int_value(formatted@[1]@)->Some_0) + " "@ + "20"@ + formatted@[2]@ + "г"@,
        !(int_value(formatted@[1]@) matches Some(m) && 1 <= m <= 12) ==> r@ == Seq::<char>::empty(),
{
    match parse_int(formatted[1].as_str()) {
        Some(m) => {
            if 1 <= m && m <= 12 {
                let mut date = formatted[0].clone();
                push_str(&mut date, " ");
                push_str(&mut date, month_text(m));
                push_str(&mut date, " ");
                push_str(&mut date, "20");
                push_str(&mut date, formatted[2].as_str());
                push_str(&mut date, "г");
                date
            } else {
                String::new()
            }
        },
        None => String::new(),
    }
}

/// Files the rows still collected as a last, shorter chunk.
pub fn is_empty_chunk(chunks: &mut Vec<Vec<Vec<String>>>, chunk: &mut Vec<Vec<String>>)
    ensures
        old(chunk).len() == 0 ==> final(chunks)@ == old(chunks)@,
        old(chunk).len() > 0 ==> final(chunks)@.len() == old(chunks)@.len() + 1
            && final(chunks)@.drop_last() == old(chunks)@
            && final(chunks)@.last()@ == old(chunk)@,
        final(chunk).len() == 0,
{
    if chunk.len() > 0 {
        let ghost all = chunk@;
        let mut moved: Vec<Vec<String>> = Vec::new();
        while chunk.len() > 0
            invariant
                moved@ + chunk@ == all,
            decreases chunk.len(),
        {
            let ghost before = chunk@;
            let row = chunk.remove(0);
            proof {
                assert(before =~= seq![row] + chunk@);
            }
            moved.push(row);
            proof {
                assert(moved@ + chunk@ =~= all);
            }
        }
        assert(moved@ =~= all);
        chunks.push(moved);
        assert(chunks@.drop_last() =~= old(chunks)@);
    }
}

} // verus!
