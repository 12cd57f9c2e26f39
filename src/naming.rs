use chrono::{Datelike, Offset, Timelike};
use vstd::prelude::*;
use vstd::string::StringExecFns;

verus! {

/// Exclusive bound of the random suffix: six hexadecimal digits.
pub const SUFFIX_SPACE: u32 = 0x1000000;

/// A local date and time, as the clock reads it, with its offset from UTC.
pub struct Timestamp {
    pub year: i32,
    pub month: u32,
    pub day: u32,
    pub hour: u32,
    pub minute: u32,
    pub second: u32,
    pub offset_seconds: i32,
}

impl Timestamp {
    pub open spec fn wf(&self) -> bool {
        &&& 1 <= self.month <= 12
        &&& 1 <= self.day <= 31
        &&& self.hour < 24
        &&& self.minute < 60
        &&& self.second < 60
        &&& -86400 < self.offset_seconds < 86400
    }
}

pub open spec fn digit_char(d: nat) -> char {
    if d == 0 { '0' } else if d == 1 { '1' } else if d == 2 { '2' } else if d == 3 { '3' }
    else if d == 4 { '4' } else if d == 5 { '5' } else if d == 6 { '6' } else if d == 7 { '7' }
    else if d == 8 { '8' } else if d == 9 { '9' } else if d == 10 { 'a' } else if d == 11 { 'b' }
    else if d == 12 { 'c' } else if d == 13 { 'd' } else if d == 14 { 'e' } else { 'f' }
}

/// The last `width` digits of `v` in base `base`, most significant first,
/// with leading zeros.
pub open spec fn fixed_digits(v: nat, base: nat, width: nat) -> Seq<char>
    decreases width,
{
    if width == 0 || base == 0 {
        Seq::empty()
    } else {
        fixed_digits(v / base, base, (width - 1) as nat).push(digit_char(v % base))
    }
}

/// How many decimal digits `v` has.
pub open spec fn decimal_width(v: nat) -> nat
    decreases v,
{
    if v < 10 { 1 } else { 1 + decimal_width(v / 10) }
}

pub open spec fn sign_char(v: int) -> char {
    if v < 0 { '-' } else { '+' }
}

pub open spec fn abs(v: int) -> nat {
    if v < 0 { (-v) as nat } else { v as nat }
}

/// A year as four digits; outside 0..=9999 signed, with at least four digits.
pub open spec fn year_text(y: int) -> Seq<char> {
    if 0 <= y <= 9999 {
        fixed_digits(y as nat, 10, 4)
    } else {
        let w = if decimal_width(abs(y)) < 4 { 4 } else { decimal_width(abs(y)) };
        seq![sign_char(y)] + fixed_digits(abs(y), 10, w)
    }
}

/// An offset from UTC as a sign, two digits of hours and two of minutes,
/// rounded to the nearest minute.
pub open spec fn offset_text(off: int) -> Seq<char> {
    let minutes = (abs(off) + 30) / 60;
    seq![sign_char(off)] + fixed_digits(minutes / 60, 10, 2) + fixed_digits(minutes % 60, 10, 2)
}

/// `YYYYmmdd-HHMMSS-zzzz` of a timestamp.
pub open spec fn timestamp_text(t: Timestamp) -> Seq<char> {
    year_text(t.year as int) + fixed_digits(t.month as nat, 10, 2) + fixed_digits(t.day as nat, 10, 2)
        + seq!['-'] + fixed_digits(t.hour as nat, 10, 2) + fixed_digits(t.minute as nat, 10, 2)
        + fixed_digits(t.second as nat, 10, 2) + seq!['-'] + offset_text(t.offset_seconds as int)
}

/// The six lowercase hexadecimal digits that end a project name.
pub open spec fn suffix_text(random: u32) -> Seq<char> {
    fixed_digits((random % SUFFIX_SPACE) as nat, 16, 6)
}

/// `YYYYmmdd-HHMMSS-zzzz-RECIPE-hhhhhh`, the last part in hexadecimal.
pub open spec fn project_name_text(t: Timestamp, recipe: Seq<char>, random: u32) -> Seq<char> {
    timestamp_text(t) + seq!['-'] + recipe + seq!['-'] + suffix_text(random)
}

fn digit(d: u64) -> (c: char)
    requires
        d < 16,
    ensures
        c == digit_char(d as nat),
{
    if d == 0 { '0' } else if d == 1 { '1' } else if d == 2 { '2' } else if d == 3 { '3' }
    else if d == 4 { '4' } else if d == 5 { '5' } else if d == 6 { '6' } else if d == 7 { '7' }
    else if d == 8 { '8' } else if d == 9 { '9' } else if d == 10 { 'a' } else if d == 11 { 'b' }
    else if d == 12 { 'c' } else if d == 13 { 'd' } else if d == 14 { 'e' } else { 'f' }
}

fn push_fixed_digits(out: &mut Vec<char>, v: u64, base: u64, width: usize)
    requires
        2 <= base <= 16,
    ensures
        final(out)@ == old(out)@ + fixed_digits(v as nat, base as nat, width as nat),
    decreases width,
{
    if width == 0 {
        assert(old(out)@ + fixed_digits(v as nat, base as nat, 0) =~= old(out)@);
    } else {
        push_fixed_digits(out, v / base, base, width - 1);
        out.push(digit(v % base));
        assert(final(out)@ =~= old(out)@ + fixed_digits(v as nat, base as nat, width as nat));
    }
}

fn decimal_width_of(v: u64) -> (r: usize)
    requires
        v <= 0x100000000,
    ensures
        r == decimal_width(v as nat),
    decreases v,
{
    if v < 10 {
        1
    } else {
        let w = decimal_width_of(v / 10);
        proof {
            lemma_decimal_width_le_self((v / 10) as nat);
        }
        1 + w
    }
}

proof fn lemma_decimal_width_le_self(v: nat)
    ensures
        decimal_width(v) <= v + 1,
    decreases v,
{
    if v >= 10 {
        lemma_decimal_width_le_self(v / 10);
    }
}

fn push_sign(out: &mut Vec<char>, negative: bool)
    ensures
        final(out)@ == old(out)@.push(if negative { '-' } else { '+' }),
{
    if negative {
        out.push('-');
    } else {
        out.push('+');
    }
}

fn push_timestamp(out: &mut Vec<char>, t: &Timestamp)
    ensures
        final(out)@ == old(out)@ + timestamp_text(*t),
{
    let year = t.year as i64;
    if 0 <= year && year <= 9999 {
        push_fixed_digits(out, year as u64, 10, 4);
    } else {
        let a: u64 = if year < 0 { (-year) as u64 } else { year as u64 };
        push_sign(out, year < 0);
        let dw = decimal_width_of(a);
        let w: usize = if dw < 4 { 4 } else { dw };
        push_fixed_digits(out, a, 10, w);
    }
    push_fixed_digits(out, t.month as u64, 10, 2);
    push_fixed_digits(out, t.day as u64, 10, 2);
    out.push('-');
    push_fixed_digits(out, t.hour as u64, 10, 2);
    push_fixed_digits(out, t.minute as u64, 10, 2);
    push_fixed_digits(out, t.second as u64, 10, 2);
    out.push('-');
    let off = t.offset_seconds as i64;
    let a: u64 = if off < 0 { (-off) as u64 } else { off as u64 };
    push_sign(out, off < 0);
    let minutes = (a + 30) / 60;
    push_fixed_digits(out, minutes / 60, 10, 2);
    push_fixed_digits(out, minutes % 60, 10, 2);
    assert(final(out)@ =~= old(out)@ + timestamp_text(*t));
}

/// Relies on std's `FromIterator<char>` for String: the characters in order.
#[verifier::external_body]
fn chars_to_string(v: Vec<char>) -> (r: String)
    ensures
        r@ == v@,
{
    v.into_iter().collect()
}

/// The project name for a recipe, made of the time, the recipe's name and a
/// random suffix.
pub fn project_name(t: &Timestamp, recipe_name: &str, random: u32) -> (r: String)
    ensures
        r@ == project_name_text(*t, recipe_name@, random),
{
    let mut head: Vec<char> = Vec::new();
    push_timestamp(&mut head, t);
    head.push('-');
    let mut tail: Vec<char> = Vec::new();
    tail.push('-');
    push_fixed_digits(&mut tail, (random % SUFFIX_SPACE) as u64, 16, 6);
    let mut name = chars_to_string(head);
    name.append(recipe_name);
    let tail = chars_to_string(tail);
    name.append(tail.as_str());
    assert(name@ =~= project_name_text(*t, recipe_name@, random));
    name
}

spec fn pow16(n: nat) -> nat
    decreases n,
{
    if n == 0 { 1 } else { 16 * pow16((n - 1) as nat) }
}

proof fn lemma_fixed_digits_len(v: nat, base: nat, width: nat)
    requires
        base >= 2,
    ensures
        fixed_digits(v, base, width).len() == width,
    decreases width,
{
    if width > 0 {
        lemma_fixed_digits_len(v / base, base, (width - 1) as nat);
    }
}

/// Hexadecimal digits of a fixed width tell apart the numbers that fit in them.
proof fn lemma_hex_digits_injective(v1: nat, v2: nat, width: nat)
    requires
        v1 < pow16(width),
        v2 < pow16(width),
        fixed_digits(v1, 16, width) == fixed_digits(v2, 16, width),
    ensures
        v1 == v2,
    decreases width,
{
    if width > 0 {
        let w1 = (width - 1) as nat;
        let d1 = fixed_digits(v1, 16, width);
        let d2 = fixed_digits(v2, 16, width);
        assert(d1.last() == digit_char(v1 % 16));
        assert(d2.last() == digit_char(v2 % 16));
        assert(d1.drop_last() == fixed_digits(v1 / 16, 16, w1));
        assert(d2.drop_last() == fixed_digits(v2 / 16, 16, w1));
        assert(v1 / 16 < pow16(w1)) by (nonlinear_arith)
            requires v1 < 16 * pow16(w1);
        assert(v2 / 16 < pow16(w1)) by (nonlinear_arith)
            requires v2 < 16 * pow16(w1);
        lemma_hex_digits_injective(v1 / 16, v2 / 16, w1);
    } else {
        assert(pow16(0) == 1);
    }
}

/// Two project names made at the same time for the same recipe differ
/// whenever their random draws differ in the suffix's range; how likely a
/// repeat is depends on the random source alone.
pub proof fn lemma_distinct_suffixes_give_distinct_names(
    t: Timestamp,
    recipe: Seq<char>,
    r1: u32,
    r2: u32,
)
    requires
        r1 % SUFFIX_SPACE != r2 % SUFFIX_SPACE,
    ensures
        project_name_text(t, recipe, r1) != project_name_text(t, recipe, r2),
{
    let head = timestamp_text(t) + seq!['-'] + recipe + seq!['-'];
    let s1 = suffix_text(r1);
    let s2 = suffix_text(r2);
    lemma_fixed_digits_len((r1 % SUFFIX_SPACE) as nat, 16, 6);
    lemma_fixed_digits_len((r2 % SUFFIX_SPACE) as nat, 16, 6);
    assert(project_name_text(t, recipe, r1) == head + s1);
    assert(project_name_text(t, recipe, r2) == head + s2);
    if head + s1 == head + s2 {
        assert((head + s1).subrange(head.len() as int, head.len() as int + 6) == s1);
        assert((head + s2).subrange(head.len() as int, head.len() as int + 6) == s2);
        assert(pow16(6) == 0x1000000) by {
            reveal_with_fuel(pow16, 7);
        }
        lemma_hex_digits_injective((r1 % SUFFIX_SPACE) as nat, (r2 % SUFFIX_SPACE) as nat, 6);
    }
}

/// Relies on chrono::Local::now and its Datelike, Timelike and Offset
/// accessors: month in 1..=12, day in 1..=31, hour below 24, minute and second
/// below 60, and an offset strictly within a day.
#[verifier::external_body]
fn local_now() -> (r: Timestamp)
    ensures
        r.wf(),
{
    let now = chrono::Local::now();
    Timestamp {
        year: now.year(),
        month: now.month(),
        day: now.day(),
        hour: now.hour(),
        minute: now.minute(),
        second: now.second(),
        offset_seconds: now.offset().fix().local_minus_utc(),
    }
}

/// Relies on rand::random: any value of the type may come back.
pub assume_specification<T>[ rand::random::<T> ]() -> T
    where
        rand::distributions::Standard: rand::distributions::Distribution<T>,
;

/// A fresh name for a project made from `recipe_name`: the local time now,
/// the recipe's name and a random suffix.
pub fn generate_project_name(recipe_name: &str) -> (r: String)
    ensures
        exists|t: Timestamp, random: u32|
            t.wf() && r@ == project_name_text(t, recipe_name@, random),
{
    let now = local_now();
    let random = rand::random::<u32>();
    project_name(&now, recipe_name, random)
}

} // verus!
