//! Times, sizes and commands as they are written and read.

use vstd::prelude::*;

use crate::database::words_of;
use crate::decimal::{number_of, padded_digit, padded_digits, parse_number, Decimal, Number};
use crate::download::{AudioQuality, DownloadRequest, DownloadSource, TrackSelection};
use crate::player::rounded;
use crate::text::{
    all_digits, ascii_lower_of, chars_of, decimal, decimal_text, digit_of, digits_value, ends_with, first_of, is_digit,
    is_white, is_whitespace, lemma_decimal_reads_back, lemma_first_of, padded_decimal, parse_u64, parse_unsigned,
    parse_unsigned_of, same_text, skip_chars, split_once, split_once_of, starts_with, string_of, take_chars,
    to_ascii_lower, trim, trim_of, zero_padded,
};
use crate::time::Duration;

verus! {

// Times.

/// Minutes and seconds.
pub open spec fn time_text(seconds: nat) -> Seq<char> {
    decimal(seconds / 60) + ":"@ + zero_padded(decimal(seconds % 60), 2)
}

pub open spec fn whole_seconds(nanos: nat) -> nat {
    if nanos / 1_000_000_000 <= u64::MAX {
        nanos / 1_000_000_000
    } else {
        u64::MAX as nat
    }
}

/// A span in minutes and seconds.
pub fn format_time(duration: Duration) -> (r: String)
    ensures
        r@ == time_text(whole_seconds(duration@)),
{
    let seconds: u64 = duration.as_secs();
    let mut out: String = decimal_text(seconds / 60);
    out.append(":");
    out.append(padded_decimal(seconds % 60, 2).as_str());
    out
}

/// A span in hours and minutes.
pub fn format_library_duration(duration_ms: u64) -> (r: String)
    ensures
        r@ == decimal((duration_ms / 60_000 / 60) as nat) + "h "@ + zero_padded(
            decimal((duration_ms / 60_000 % 60) as nat),
            2,
        ) + "m"@,
{
    let minutes: u64 = duration_ms / 60_000;
    let mut out: String = decimal_text(minutes / 60);
    out.append("h ");
    out.append(padded_decimal(minutes % 60, 2).as_str());
    out.append("m");
    out
}

// Sizes.

pub const KIB: u64 = 1024;

pub const MIB: u64 = 1024 * 1024;

pub const GIB: u64 = 1024 * 1024 * 1024;

/// The unit of the last of 53 significant bits of a size.
pub open spec fn size_unit(bytes: nat) -> nat
    decreases bytes,
{
    if bytes < 0x20_0000_0000_0000 {
        1
    } else {
        2 * size_unit(bytes / 2)
    }
}

/// A size kept with 53 significant bits.
pub open spec fn kept_size(bytes: nat) -> nat {
    rounded(bytes, size_unit(bytes)) * size_unit(bytes)
}

/// The tenths of a unit in a size, to the nearest; one half goes to the even one.
pub open spec fn tenths_of(bytes: nat, unit: nat) -> nat {
    rounded(10 * kept_size(bytes), unit)
}

pub open spec fn size_text(bytes: nat) -> Seq<char> {
    let size = kept_size(bytes);
    if size >= GIB {
        tenths_text(tenths_of(bytes, GIB as nat)) + " GiB"@
    } else if size >= MIB {
        tenths_text(tenths_of(bytes, MIB as nat)) + " MiB"@
    } else if size >= KIB {
        tenths_text(tenths_of(bytes, KIB as nat)) + " KiB"@
    } else {
        decimal(bytes) + " B"@
    }
}

pub open spec fn tenths_text(tenths: nat) -> Seq<char> {
    decimal(tenths / 10) + "."@ + decimal(tenths % 10)
}

fn round_even(numerator: u128, denominator: u128) -> (r: u128)
    requires
        0 < denominator <= 0x1_0000_0000,
        numerator <= 0x1_0000_0000_0000_0000_0000,
    ensures
        r == rounded(numerator as nat, denominator as nat),
        r <= numerator / denominator + 1,
        denominator * r <= numerator + denominator,
{
    let q: u128 = numerator / denominator;
    let rest: u128 = numerator % denominator;
    proof {
        assert(q <= numerator) by (nonlinear_arith)
            requires
                q == numerator / denominator,
                denominator > 0,
        ;
        assert(denominator * q + rest == numerator) by (nonlinear_arith)
            requires
                q == numerator / denominator,
                rest == numerator % denominator,
                denominator > 0,
        ;
        assert(denominator * (q + 1) == denominator * q + denominator) by (nonlinear_arith);
    }
    if 2 * rest > denominator || (2 * rest == denominator && q % 2 == 1) {
        q + 1
    } else {
        q
    }
}

/// A size kept with 53 significant bits.
fn keep_size(bytes: u64) -> (r: u128)
    ensures
        r == kept_size(bytes as nat),
        r <= 0x1_0000_0000_0000_1000,
        bytes < 0x20_0000_0000_0000 ==> r == bytes,
{
    let mut unit: u128 = 1;
    let mut shrunk: u64 = bytes;
    while shrunk >= 0x20_0000_0000_0000
        invariant
            size_unit(bytes as nat) == unit * size_unit(shrunk as nat),
            1 <= unit,
            unit * shrunk <= bytes,
            shrunk < 0x20_0000_0000_0000 ==> unit <= 0x1000,
            shrunk >= 0x20_0000_0000_0000 ==> unit <= 0x800,
            bytes < 0x20_0000_0000_0000 ==> unit == 1,
        decreases shrunk,
    {
        proof {
            let half = shrunk / 2;
            assert(unit * (2 * size_unit(half as nat)) == (2 * unit) * size_unit(half as nat)) by (nonlinear_arith);
            assert((2 * unit) * half <= unit * shrunk) by (nonlinear_arith)
                requires
                    2 * half <= shrunk,
                    unit >= 0,
            ;
            assert(unit * 0x20_0000_0000_0000 <= unit * shrunk) by (nonlinear_arith)
                requires
                    shrunk >= 0x20_0000_0000_0000,
                    unit >= 0,
            ;
            assert(unit * 0x20_0000_0000_0000 <= u64::MAX);
            assert(unit <= 0x7ff);
            if half >= 0x20_0000_0000_0000 {
                assert((2 * unit) * 0x20_0000_0000_0000 <= (2 * unit) * half) by (nonlinear_arith)
                    requires
                        half >= 0x20_0000_0000_0000,
                        unit >= 0,
                ;
            }
        }
        unit = 2 * unit;
        shrunk = shrunk / 2;
    }
    let count: u128 = round_even(bytes as u128, unit);
    proof {
        let last = size_unit(shrunk as nat);
        assert(unit * last == unit) by (nonlinear_arith)
            requires
                last == 1,
        ;
        assert(size_unit(bytes as nat) == unit);
        assert(unit * count == count * unit) by (nonlinear_arith);
        if bytes < 0x20_0000_0000_0000 {
            assert((bytes as int) / 1 == bytes && (bytes as int) % 1 == 0);
            assert(rounded(bytes as nat, 1) == bytes);
        }
    }
    count * unit
}

fn write_tenths(size: u128, unit: u128, name: &str) -> (r: String)
    requires
        0 < unit <= 0x1_0000_0000,
        size <= 0x1_0000_0000_0000_1000,
        size >= unit,
        unit >= 1024,
    ensures
        r@ == tenths_text(rounded(10 * size as nat, unit as nat)) + name@,
{
    let tenths: u128 = round_even(10 * size, unit);
    proof {
        assert((10 * size) / (unit as int) <= (10 * size) / 1024) by (nonlinear_arith)
            requires
                unit >= 1024,
        ;
    }
    let tenths: u64 = tenths as u64;
    let mut out: String = decimal_text(tenths / 10);
    out.append(".");
    out.append(decimal_text(tenths % 10).as_str());
    out.append(name);
    out
}

/// A size in the largest unit that it reaches, with one decimal.
pub fn format_bytes(bytes: u64) -> (r: String)
    ensures
        r@ == size_text(bytes as nat),
{
    let size: u128 = keep_size(bytes);
    if size >= GIB as u128 {
        write_tenths(size, GIB as u128, " GiB")
    } else if size >= MIB as u128 {
        write_tenths(size, MIB as u128, " MiB")
    } else if size >= KIB as u128 {
        write_tenths(size, KIB as u128, " KiB")
    } else {
        decimal_text(bytes).concat(" B")
    }
}

/// A size as it is put into the input, in the largest unit that divides it.
pub open spec fn size_input(bytes: nat) -> Seq<char> {
    if bytes % (GIB as nat) == 0 {
        decimal(bytes / (GIB as nat)) + "GiB"@
    } else if bytes % (MIB as nat) == 0 {
        decimal(bytes / (MIB as nat)) + "MiB"@
    } else {
        decimal(bytes)
    }
}

pub fn format_cache_size_input(bytes: u64) -> (r: String)
    ensures
        r@ == size_input(bytes as nat),
{
    if bytes % GIB == 0 {
        decimal_text(bytes / GIB).concat("GiB")
    } else if bytes % MIB == 0 {
        decimal_text(bytes / MIB).concat("MiB")
    } else {
        decimal_text(bytes)
    }
}

/// The whole part of a scaled fraction that is given by its digits.
pub open spec fn scaled_fraction(digits: Seq<char>, scale: nat) -> nat
    decreases digits.len(),
{
    if digits.len() == 0 {
        0
    } else {
        (digit_of(digits[0]) * scale + scaled_fraction(digits.drop_first(), scale)) / 10
    }
}

/// The digits behind the point.
pub open spec fn fraction_digits(digits: Seq<char>, point: int) -> Seq<char> {
    if point >= digits.len() {
        Seq::empty()
    } else if point >= 0 {
        digits.skip(point)
    } else {
        Seq::new((-point) as nat, |i: int| '0') + digits
    }
}

/// The whole part of a scaled number.
pub open spec fn scaled_number(digits: Seq<char>, point: int, scale: nat) -> nat {
    digits_value(padded_digits(digits, if point >= 0 { point as nat } else { 0 })) * scale + scaled_fraction(
        fraction_digits(digits, point),
        scale,
    )
}

/// The units of sizes, longer names first.
pub open spec fn size_units() -> Seq<(Seq<char>, nat)> {
    seq![
        ("gib"@, 0x4000_0000nat),
        ("gb"@, 0x4000_0000nat),
        ("g"@, 0x4000_0000nat),
        ("mib"@, 0x10_0000nat),
        ("mb"@, 0x10_0000nat),
        ("m"@, 0x10_0000nat),
        ("kib"@, 0x400nat),
        ("kb"@, 0x400nat),
        ("k"@, 0x400nat),
        ("b"@, 1nat),
    ]
}

/// A size without the first of the units from `i` on that it ends with, and
/// what the unit stands for.
pub open spec fn split_unit(s: Seq<char>, i: int) -> (Seq<char>, nat)
    decreases 10 - i,
{
    if i < 0 || i >= 10 {
        (s, 1)
    } else if size_units()[i].0.is_suffix_of(s) {
        (trim_of(s.take(s.len() - size_units()[i].0.len())), size_units()[i].1)
    } else {
        split_unit(s, i + 1)
    }
}

pub open spec fn size_missing() -> Seq<char> {
    "请输入缓存上限，例如 512M、4G 或 8GiB"@
}

pub open spec fn size_malformed() -> Seq<char> {
    "缓存大小格式无效，例如 512M、4G 或 8GiB"@
}

pub open spec fn size_out_of_range() -> Seq<char> {
    "缓存大小必须大于 0 且不能溢出"@
}

/// The size that a text stands for, to the nearest byte: a number and a unit.
/// It has to be at least one byte and at most two to the power of 64.
pub open spec fn size_of_text(value: Seq<char>) -> Result<nat, Seq<char>> {
    let normalized = ascii_lower_of(trim_of(value));
    let (number, unit) = split_unit(normalized, 0);
    if normalized.len() == 0 {
        Err(size_missing())
    } else {
        match number_of(number) {
            None => Err(size_malformed()),
            Some(Number::NotFinite) => Err(size_out_of_range()),
            Some(Number::Finite { negative, digits, point }) => {
                let doubled = scaled_number(digits, point, 2 * unit);
                if negative || doubled < 2 || doubled > 0x2_0000_0000_0000_0000 {
                    Err(size_out_of_range())
                } else if (doubled + 1) / 2 > u64::MAX {
                    Ok(u64::MAX as nat)
                } else {
                    Ok((doubled + 1) / 2)
                }
            },
        }
    }
}

/// The whole part of a scaled number, as far as it is not too large to count.
fn scale_number(digits: &[char], point: i128, scale: u128) -> (r: Option<u128>)
    requires
        all_digits(digits@),
        -1_000_000 <= point <= usize::MAX + 1_000_000,
        1 <= scale <= 0x8000_0000,
    ensures
        match r {
            Some(n) => n == scaled_number(digits@, point as int, scale as nat),
            None => scaled_number(digits@, point as int, scale as nat) > 0x2_0000_0000_0000_0000,
        },
{
    let length: i128 = digits.len() as i128;
    let whole_count: i128 = if point >= 0 {
        point
    } else {
        0
    };
    let mut whole: u128 = 0;
    let mut i: i128 = 0;
    let ghost all = padded_digits(digits@, whole_count as nat);
    while i < whole_count
        invariant
            0 <= i <= whole_count,
            whole_count <= usize::MAX + 1_000_000,
            whole_count == if point >= 0 { point as int } else { 0 },
            length == digits@.len(),
            length <= usize::MAX,
            all_digits(digits@),
            all == padded_digits(digits@, whole_count as nat),
            1 <= scale <= 0x8000_0000,
            whole <= 0x2_0000_0000_0000_0000,
            whole == digits_value(all.take(i as int)),
        decreases whole_count - i,
    {
        let d: char = if i < length {
            digits[i as usize]
        } else {
            '0'
        };
        proof {
            assert(all[i as int] == padded_digit(digits@, i as int));
            assert(is_digit(d));
            assert(all.take(i + 1).drop_last() =~= all.take(i as int));
            assert(all.take(i + 1).last() == d);
            crate::text::lemma_digits_value_prefix(all, i + 1);
        }
        whole = whole * 10 + (d as u128 - '0' as u128);
        if whole > 0x2_0000_0000_0000_0000 {
            proof {
                let n = digits_value(all);
                let fraction = scaled_fraction(fraction_digits(digits@, point as int), scale as nat);
                assert(n * scale >= n) by (nonlinear_arith)
                    requires
                        scale >= 1,
                        n >= 0,
                ;
            }
            return None;
        }
        i += 1;
    }
    proof {
        assert(all.take(i as int) =~= all);
    }
    let ghost rest = fraction_digits(digits@, point as int);
    let zeros: i128 = if point < 0 {
        -point
    } else {
        0
    };
    let first: i128 = if point < 0 {
        0
    } else if point < length {
        point
    } else {
        length
    };
    let mut carry: u128 = 0;
    let mut k: i128 = length;
    proof {
        assert(rest.len() == zeros + (length - first));
        assert(rest.skip(rest.len() as int) =~= Seq::<char>::empty());
    }
    while k > first
        invariant
            0 <= first <= k <= length,
            length == digits@.len(),
            length <= usize::MAX,
            zeros >= 0,
            all_digits(digits@),
            1 <= scale <= 0x8000_0000,
            rest.len() == zeros + (length - first),
            forall|j: int| 0 <= j < zeros ==> rest[j] == '0',
            forall|j: int| zeros <= j < rest.len() ==> rest[j] == #[trigger] digits@[j - zeros + first],
            carry == scaled_fraction(rest.skip(zeros + (k - first)), scale as nat),
            carry <= scale,
        decreases k - first,
    {
        let d: char = digits[(k - 1) as usize];
        let n: u128 = d as u128 - '0' as u128;
        proof {
            assert(is_digit(digits@[k - 1]));
            let at = zeros + (k - 1 - first);
            assert(rest[at] == digits@[at - zeros + first]);
            assert(rest.skip(at)[0] == d);
            assert(rest.skip(at).drop_first() =~= rest.skip(at + 1));
            assert(n * scale <= 9 * scale) by (nonlinear_arith)
                requires
                    n <= 9,
                    scale >= 0,
            ;
        }
        carry = (n * scale + carry) / 10;
        k -= 1;
    }
    let mut z: i128 = zeros;
    while z > 0
        invariant
            0 <= z <= zeros,
            zeros <= rest.len(),
            forall|j: int| 0 <= j < zeros ==> rest[j] == '0',
            carry == scaled_fraction(rest.skip(z as int), scale as nat),
            carry <= scale,
        decreases z,
    {
        proof {
            assert(rest.skip(z - 1)[0] == '0');
            assert(rest.skip(z - 1).drop_first() =~= rest.skip(z as int));
            assert(digit_of('0') * (scale as nat) == 0) by (nonlinear_arith)
                requires
                    digit_of('0') == 0,
            ;
        }
        carry = carry / 10;
        z -= 1;
    }
    proof {
        assert(rest.skip(0) =~= rest);
        assert(whole * scale <= 0x2_0000_0000_0000_0000 * 0x8000_0000) by (nonlinear_arith)
            requires
                whole <= 0x2_0000_0000_0000_0000,
                scale <= 0x8000_0000,
        ;
    }
    Some(whole * scale + carry)
}

/// Tries one unit of sizes.
fn try_unit(s: &[char], name: &str, scale: u64) -> (r: Option<(String, u64)>)
    ensures
        match r {
            Some((number, unit)) => name@.is_suffix_of(s@) && number@ == trim_of(s@.take(s@.len() - name@.len()))
                && unit == scale,
            None => !name@.is_suffix_of(s@),
        },
{
    let suffix = chars_of(name);
    if ends_with(s, suffix.as_slice()) {
        Some((string_of(trim(take_chars(s, s.len() - suffix.len()))), scale))
    } else {
        None
    }
}

/// Splits a size into its number and its unit.
fn take_unit(s: &[char]) -> (r: (String, u64))
    ensures
        (r.0@, r.1 as nat) == split_unit(s@, 0),
        1 <= r.1 <= 0x4000_0000,
{
    proof {
        reveal_with_fuel(split_unit, 12);
    }
    if let Some(found) = try_unit(s, "gib", 0x4000_0000) {
        return found;
    }
    if let Some(found) = try_unit(s, "gb", 0x4000_0000) {
        return found;
    }
    if let Some(found) = try_unit(s, "g", 0x4000_0000) {
        return found;
    }
    if let Some(found) = try_unit(s, "mib", 0x10_0000) {
        return found;
    }
    if let Some(found) = try_unit(s, "mb", 0x10_0000) {
        return found;
    }
    if let Some(found) = try_unit(s, "m", 0x10_0000) {
        return found;
    }
    if let Some(found) = try_unit(s, "kib", 0x400) {
        return found;
    }
    if let Some(found) = try_unit(s, "kb", 0x400) {
        return found;
    }
    if let Some(found) = try_unit(s, "k", 0x400) {
        return found;
    }
    if let Some(found) = try_unit(s, "b", 1) {
        return found;
    }
    (string_of(s), 1)
}

/// Reads a size.
pub fn parse_cache_size(value: &str) -> (r: Result<u64, &'static str>)
    ensures
        match r {
            Ok(n) => size_of_text(value@) == Ok::<nat, Seq<char>>(n as nat),
            Err(message) => size_of_text(value@) == Err::<nat, Seq<char>>(message@),
        },
{
    let chars = chars_of(value);
    let lower = to_ascii_lower(trim(chars.as_slice()));
    if lower.len() == 0 {
        return Err("请输入缓存上限，例如 512M、4G 或 8GiB");
    }
    let (number, unit) = take_unit(lower.as_slice());
    match parse_number(chars_of(number.as_str()).as_slice()) {
        None => Err("缓存大小格式无效，例如 512M、4G 或 8GiB"),
        Some(Decimal::NotFinite) => Err("缓存大小必须大于 0 且不能溢出"),
        Some(Decimal::Finite { negative, digits, point }) => {
            match scale_number(digits.as_slice(), point, 2 * unit as u128) {
                None => Err("缓存大小必须大于 0 且不能溢出"),
                Some(doubled) => {
                    if negative || doubled < 2 || doubled > 0x2_0000_0000_0000_0000 {
                        Err("缓存大小必须大于 0 且不能溢出")
                    } else if (doubled + 1) / 2 > u64::MAX as u128 {
                        Ok(u64::MAX)
                    } else {
                        Ok(((doubled + 1) / 2) as u64)
                    }
                },
            }
        },
    }
}

// Laws of sizes.

proof fn lemma_number_of_decimal(n: nat)
    ensures
        number_of(decimal(n)) == Some(
            Number::Finite { negative: false, digits: decimal(n), point: decimal(n).len() as int },
        ),
{
    let s = decimal(n);
    lemma_decimal_reads_back(n);
    assert(is_digit(s[0]));
    assert forall|c: char| !is_digit(c) implies #[trigger] first_of(s, c) == s.len() by {
        lemma_first_of(s, c);
        let i = first_of(s, c);
        if i < s.len() {
            assert(is_digit(s[i]));
        }
    }
    assert(first_of(s, 'e') == s.len() && first_of(s, 'E') == s.len() && first_of(s, '.') == s.len());
    assert(s.take(s.len() as int) =~= s);
    assert(s + Seq::<char>::empty() =~= s);
    reveal_strlit("inf");
    reveal_strlit("infinity");
    reveal_strlit("nan");
    assert(ascii_lower_of(s)[0] == s[0]);
}

proof fn lemma_size_of_number(text: Seq<char>, number: nat, unit: nat)
    requires
        text.len() > 0,
        !is_white(text[0]),
        !is_white(text.last()),
        split_unit(ascii_lower_of(text), 0) == (decimal(number), unit),
        number * unit <= u64::MAX,
    ensures
        size_of_text(text) == if number * unit == 0 {
            Err::<nat, Seq<char>>(size_out_of_range())
        } else {
            Ok(number * unit)
        },
{
    let digits = decimal(number);
    let point = digits.len() as int;
    lemma_number_of_decimal(number);
    lemma_decimal_reads_back(number);
    assert(trim_of(text) == text);
    assert(padded_digits(digits, digits.len()) =~= digits);
    assert(fraction_digits(digits, point) =~= Seq::empty());
    assert(number * (2 * unit) == 2 * (number * unit)) by (nonlinear_arith);
    assert(scaled_number(digits, point, 2 * unit) == 2 * (number * unit));
}

proof fn lemma_unit_names(i: int)
    requires
        0 <= i < 10,
    ensures
        size_units()[i].0.len() > 0,
        !is_digit(size_units()[i].0.last()),
{
    reveal_strlit("gib");
    reveal_strlit("gb");
    reveal_strlit("g");
    reveal_strlit("mib");
    reveal_strlit("mb");
    reveal_strlit("m");
    reveal_strlit("kib");
    reveal_strlit("kb");
    reveal_strlit("k");
    reveal_strlit("b");
}

proof fn lemma_no_unit(s: Seq<char>, i: int)
    requires
        0 <= i,
        s.len() > 0,
        is_digit(s.last()),
    ensures
        split_unit(s, i) == (s, 1nat),
    decreases 10 - i,
{
    if i < 10 {
        let name = size_units()[i].0;
        lemma_unit_names(i);
        if name.is_suffix_of(s) {
            assert(s.subrange(s.len() - name.len(), s.len() as int).last() == s.last());
        }
        lemma_no_unit(s, i + 1);
    }
}

proof fn lemma_large_units(s: Seq<char>, digits: Seq<char>)
    requires
        trim_of(digits) == digits,
    ensures
        s == digits + "gib"@ ==> split_unit(s, 0) == (digits, GIB as nat),
        s == digits + "mib"@ ==> split_unit(s, 0) == (digits, MIB as nat),
{
    let n = s.len() as int;
    reveal_strlit("gib");
    reveal_strlit("gb");
    reveal_strlit("g");
    reveal_strlit("mib");
    if s == digits + "gib"@ {
        assert(s.subrange(n - 3, n) =~= "gib"@);
        assert(s.take(n - 3) =~= digits);
        assert(size_units()[0].0 == "gib"@);
    }
    if s == digits + "mib"@ {
        assert(s.subrange(n - 3, n) =~= "mib"@);
        assert(s.take(n - 3) =~= digits);
        assert(s.subrange(n - 3, n)[0] != "gib"@[0]);
        assert(s.subrange(n - 2, n)[0] != "gb"@[0]);
        assert(s.subrange(n - 1, n)[0] != "g"@[0]);
        assert(size_units()[0].0 == "gib"@ && size_units()[1].0 == "gb"@ && size_units()[2].0 == "g"@);
        assert(size_units()[3].0 == "mib"@);
        assert(split_unit(s, 0) == split_unit(s, 1));
        assert(split_unit(s, 1) == split_unit(s, 2));
        assert(split_unit(s, 2) == split_unit(s, 3));
    }
}

/// A size that is offered for editing reads back as the same number of bytes,
/// but for nothing at all, which is no size.
pub proof fn lemma_size_input_reads_back(bytes: u64)
    ensures
        size_of_text(size_input(bytes as nat)) == if bytes == 0 {
            Err::<nat, Seq<char>>(size_out_of_range())
        } else {
            Ok(bytes as nat)
        },
{
    let b = bytes as nat;
    let text = size_input(b);
    let (number, unit) = if b % (GIB as nat) == 0 {
        (b / (GIB as nat), GIB as nat)
    } else if b % (MIB as nat) == 0 {
        (b / (MIB as nat), MIB as nat)
    } else {
        (b, 1nat)
    };
    let digits = decimal(number);
    let lower = ascii_lower_of(text);
    lemma_decimal_reads_back(number);
    assert(is_digit(digits[0]) && is_digit(digits[digits.len() - 1]));
    assert(trim_of(digits) == digits);
    assert forall|i: int| 0 <= i < digits.len() implies lower[i] == digits[i] by {
        assert(is_digit(digits[i]));
    }
    assert(text[0] == digits[0]);
    assert(number * unit == b) by {
        if unit == GIB as nat {
            assert((b / 0x4000_0000) * 0x4000_0000 == b);
        } else if unit == MIB as nat {
            assert((b / 0x10_0000) * 0x10_0000 == b);
        }
    }
    if unit == 1 {
        assert(lower =~= digits);
        lemma_no_unit(lower, 0);
    } else {
        reveal_strlit("GiB");
        reveal_strlit("MiB");
        reveal_strlit("gib");
        reveal_strlit("mib");
        if unit == GIB as nat {
            assert(lower =~= digits + "gib"@);
        } else {
            assert(lower =~= digits + "mib"@);
        }
        lemma_large_units(lower, digits);
    }
    lemma_size_of_number(text, number, unit);
}

/// Scaling digit by digit is exact: it gives the whole part of the product.
pub proof fn lemma_scaled_fraction(digits: Seq<char>, scale: nat)
    ensures
        scaled_fraction(digits, scale) == (digits_value(digits) * scale) / ten_to(digits.len()),
    decreases digits.len(),
{
    let n = digits.len();
    if n == 0 {
        assert(0 * scale == 0) by (nonlinear_arith);
    } else {
        let t = digits.drop_first();
        lemma_scaled_fraction(t, scale);
        lemma_digits_first(digits);
        let d = digit_of(digits[0]) * scale;
        let p = ten_to((n - 1) as nat);
        let v = digits_value(t) * scale;
        lemma_ten_positive((n - 1) as nat);
        assert(digits_value(digits) * scale == d * p + v) by (nonlinear_arith)
            requires
                digits_value(digits) == digit_of(digits[0]) * p + digits_value(t),
                d == digit_of(digits[0]) * scale,
                v == digits_value(t) * scale,
        ;
        assert((d + v / p) / 10 == (d * p + v) / (10 * p)) by {
            let a: int = (d * p + v) as int;
            vstd::arithmetic::div_mod::lemma_div_denominator(a, p as int, 10);
            assert(a / (p as int) == d + v / p) by {
                vstd::arithmetic::div_mod::lemma_hoist_over_denominator(v as int, d as int, p);
                assert(d * p == p * d) by (nonlinear_arith);
            }
            assert((p as int) * 10 == 10 * (p as int));
        }
    }
}

pub open spec fn ten_to(n: nat) -> nat
    decreases n,
{
    if n == 0 {
        1
    } else {
        10 * ten_to((n - 1) as nat)
    }
}

proof fn lemma_ten_positive(n: nat)
    ensures
        ten_to(n) > 0,
    decreases n,
{
    if n > 0 {
        lemma_ten_positive((n - 1) as nat);
    }
}

proof fn lemma_digits_first(digits: Seq<char>)
    requires
        digits.len() > 0,
    ensures
        digits_value(digits) == digit_of(digits[0]) * ten_to((digits.len() - 1) as nat) + digits_value(
            digits.drop_first(),
        ),
    decreases digits.len(),
{
    if digits.len() == 1 {
        assert(digits.drop_last() =~= seq![]);
        assert(digits.drop_first() =~= seq![]);
        assert(digits_value(seq![]) == 0);
        assert(digit_of(digits[0]) * 1 == digit_of(digits[0])) by (nonlinear_arith);
    } else {
        let t = digits.drop_last();
        lemma_digits_first(t);
        assert(digits.drop_first().drop_last() =~= t.drop_first());
        let p = ten_to((digits.len() - 2) as nat);
        assert(digit_of(digits[0]) * (10 * p) == 10 * (digit_of(digits[0]) * p)) by (nonlinear_arith);
    }
}

// Commands.

/// What is said of a command that cannot be understood.
pub open spec fn download_usage() -> Seq<char> {
    "用法：track|album|playlist ID [起始-结束]"@
}

/// The one-based range of positions that a text stands for.
pub open spec fn range_of_text(s: Seq<char>) -> Result<(nat, nat), Seq<char>> {
    match split_once_of(s, '-') {
        None => Err("范围格式应为 起始-结束"@),
        Some((a, b)) => match (
            parse_unsigned_of(a, usize::MAX as nat),
            parse_unsigned_of(b, usize::MAX as nat),
        ) {
            (Some(start), Some(end)) => if start == 0 || end < start {
                Err("范围无效"@)
            } else {
                Ok((start, end))
            },
            _ => Err("范围无效"@),
        },
    }
}

/// What a command asks to download: a source, and a range of its tracks.
pub open spec fn download_of_words(words: Seq<Seq<char>>) -> Result<(DownloadSource, Option<(nat, nat)>), Seq<char>> {
    if words.len() < 2 {
        Err(download_usage())
    } else {
        match parse_unsigned_of(words[1], u64::MAX as nat) {
            None => Err("网易云 ID 无效"@),
            Some(id) => {
                let source = if words[0] == "track"@ || words[0] == "t"@ {
                    Some(DownloadSource::Track(id as u64))
                } else if words[0] == "album"@ || words[0] == "al"@ {
                    Some(DownloadSource::Album(id as u64))
                } else if words[0] == "playlist"@ || words[0] == "pl"@ {
                    Some(DownloadSource::Playlist(id as u64))
                } else {
                    None
                };
                match source {
                    None => Err(download_usage()),
                    Some(source) => if words.len() >= 3 {
                        match range_of_text(words[2]) {
                            Ok(range) => Ok((source, Some(range))),
                            Err(message) => Err(message),
                        }
                    } else {
                        Ok((source, None))
                    },
                }
            },
        }
    }
}

/// Whether a request is what a command asks for, in the usual quality and
/// without touching what is there.
pub open spec fn is_request(request: DownloadRequest, source: DownloadSource, range: Option<(nat, nat)>) -> bool {
    &&& request.source == source
    &&& request.quality == AudioQuality::Lossless
    &&& !request.overwrite
    &&& match range {
        Some((start, end)) => request.selection is Positions && request.selection->Positions_0@.start == start
            && request.selection->Positions_0@.end == end && !request.selection->Positions_0@.exhausted,
        None => request.selection is All,
    }
}

/// The words of a text.
pub fn split_words(s: &[char]) -> (r: Vec<&[char]>)
    ensures
        crate::text::slices(r@) == words_of(s@),
{
    let mut out: Vec<&[char]> = Vec::new();
    let mut i: usize = 0;
    proof {
        assert(crate::text::slices(out@) =~= words_of(s@.take(0)));
    }
    while i < s.len()
        invariant
            i <= s@.len(),
            crate::text::slices(out@) == words_of(s@.take(i as int)),
            i > 0 && i < s@.len() ==> is_white(s@[i - 1]) || is_white(s@[i as int]),
        decreases s@.len() - i,
    {
        if is_whitespace(s[i]) {
            proof {
                assert(s@.take(i + 1).drop_last() =~= s@.take(i as int));
            }
            i += 1;
        } else {
            let start: usize = i;
            while i < s.len() && !is_whitespace(s[i])
                invariant
                    start <= i <= s@.len(),
                    forall|k: int| start <= k < i ==> !is_white(s@[k]),
                decreases s@.len() - i,
            {
                i += 1;
            }
            let word = vstd::slice::slice_subrange(s, start, i);
            proof {
                crate::database::lemma_words_step(s@, start as int, i as int);
            }
            let ghost held = out@;
            out.push(word);
            proof {
                assert(crate::text::slices(out@) =~= crate::text::slices(held).push(word@));
            }
        }
    }
    proof {
        assert(s@.take(i as int) =~= s@);
    }
    out
}

/// Reads a command to download something.
pub fn parse_download(command: &str) -> (r: Result<DownloadRequest, &'static str>)
    ensures
        match (r, download_of_words(words_of(command@))) {
            (Ok(request), Ok((source, range))) => is_request(request, source, range),
            (Err(message), Err(expected)) => message@ == expected,
            _ => false,
        },
{
    let chars = chars_of(command);
    let words = split_words(chars.as_slice());
    proof {
        assert(crate::text::slices(words@).len() == words@.len());
        if words@.len() >= 2 {
            assert(crate::text::slices(words@)[0] == words@[0]@);
            assert(crate::text::slices(words@)[1] == words@[1]@);
        }
        if words@.len() >= 3 {
            assert(crate::text::slices(words@)[2] == words@[2]@);
        }
    }
    if words.len() < 2 {
        return Err("用法：track|album|playlist ID [起始-结束]");
    }
    let id: u64 = match parse_u64(words[1]) {
        Some(id) => id,
        None => {
            return Err("网易云 ID 无效");
        },
    };
    let name = string_of(words[0]);
    let n = name.as_str();
    let source: DownloadSource = if same_text(n, "track") || same_text(n, "t") {
        DownloadSource::Track(id)
    } else if same_text(n, "album") || same_text(n, "al") {
        DownloadSource::Album(id)
    } else if same_text(n, "playlist") || same_text(n, "pl") {
        DownloadSource::Playlist(id)
    } else {
        return Err("用法：track|album|playlist ID [起始-结束]");
    };
    let selection: TrackSelection = if words.len() >= 3 {
        match split_once(words[2], '-') {
            None => {
                return Err("范围格式应为 起始-结束");
            },
            Some((a, b)) => {
                let start: usize = match parse_unsigned(a, usize::MAX as u64) {
                    Some(n) => n as usize,
                    None => {
                        return Err("范围无效");
                    },
                };
                let end: usize = match parse_unsigned(b, usize::MAX as u64) {
                    Some(n) => n as usize,
                    None => {
                        return Err("范围无效");
                    },
                };
                if start == 0 || end < start {
                    return Err("范围无效");
                }
                TrackSelection::Positions(std::ops::RangeInclusive::new(start, end))
            },
        }
    } else {
        TrackSelection::All
    };
    Ok(DownloadRequest { source, selection, quality: AudioQuality::Lossless, overwrite: false })
}

// Paths that are typed.

/// A path without the backslashes that protect the characters behind them.
pub open spec fn unescaped(s: Seq<char>) -> Seq<char>
    decreases s.len(),
{
    if s.len() == 0 {
        s
    } else if s[0] == '\\' && s.len() > 1 {
        seq![s[1]] + unescaped(s.skip(2))
    } else {
        seq![s[0]] + unescaped(s.drop_first())
    }
}

/// A path without the backslashes that protect the characters behind them.
pub fn unescape_shell_path(value: &str) -> (r: String)
    ensures
        r@ == unescaped(value@),
{
    let chars = chars_of(value);
    let mut out: String = String::new();
    let mut i: usize = 0;
    proof {
        assert(chars@.skip(0) =~= chars@);
        assert(out@ + unescaped(chars@) =~= unescaped(chars@));
    }
    while i < chars.len()
        invariant
            i <= chars@.len(),
            out@ + unescaped(chars@.skip(i as int)) == unescaped(chars@),
        decreases chars@.len() - i,
    {
        let ghost held = out@;
        let ghost rest = chars@.skip(i as int);
        if chars[i] == '\\' && i < chars.len() - 1 {
            out.push(chars[i + 1]);
            proof {
                assert(rest.skip(2) =~= chars@.skip(i + 2));
                assert(held + (seq![rest[1]] + unescaped(chars@.skip(i + 2))) =~= out@ + unescaped(
                    chars@.skip(i + 2),
                ));
            }
            i += 2;
        } else {
            out.push(chars[i]);
            proof {
                assert(rest.drop_first() =~= chars@.skip(i + 1));
                assert(held + (seq![rest[0]] + unescaped(chars@.skip(i + 1))) =~= out@ + unescaped(
                    chars@.skip(i + 1),
                ));
            }
            i += 1;
        }
    }
    proof {
        assert(out@ + Seq::<char>::empty() =~= out@);
    }
    out
}

/// The text without the quotation marks around it.
pub open spec fn strip_quotes_start(s: Seq<char>) -> Seq<char>
    decreases s.len(),
{
    if s.len() > 0 && (s[0] == '"' || s[0] == '\'') {
        strip_quotes_start(s.drop_first())
    } else {
        s
    }
}

pub open spec fn strip_quotes_end(s: Seq<char>) -> Seq<char>
    decreases s.len(),
{
    if s.len() > 0 && (s.last() == '"' || s.last() == '\'') {
        strip_quotes_end(s.drop_last())
    } else {
        s
    }
}

/// A path that was typed, without the white space and the quotation marks around it.
pub open spec fn bare_path(input: Seq<char>) -> Seq<char> {
    strip_quotes_end(strip_quotes_start(trim_of(input)))
}

/// A path with the home directory in place of a tilde at its start.
pub open spec fn expanded_path(value: Seq<char>, home: Option<Seq<char>>) -> Seq<char> {
    let path = unescaped(value);
    match home {
        Some(directory) => if path == "~"@ {
            directory
        } else if "~/"@.is_prefix_of(path) {
            crate::path::join_of(directory, path.skip(2))
        } else {
            path
        },
        None => path,
    }
}

/// A path with the home directory in place of a tilde at its start.
pub fn expand_user_path(value: &str, home: Option<&str>) -> (r: String)
    ensures
        r@ == expanded_path(value@, crate::lyrics::str_option(home)),
{
    let path = unescape_shell_path(value);
    match home {
        Some(directory) => {
            if same_text(path.as_str(), "~") {
                return directory.to_owned();
            }
            let chars = chars_of(path.as_str());
            let prefix = chars_of("~/");
            proof {
                reveal_strlit("~/");
            }
            if starts_with(chars.as_slice(), prefix.as_slice()) {
                let rest = string_of(skip_chars(chars.as_slice(), 2));
                return crate::path::join(directory, rest.as_str());
            }
            path
        },
        None => path,
    }
}

/// The path that was typed to import from; nothing where none was.
pub fn import_target(input: &str, home: Option<&str>) -> (r: Option<String>)
    ensures
        match r {
            Some(path) => bare_path(input@).len() > 0 && path@ == expanded_path(
                bare_path(input@),
                crate::lyrics::str_option(home),
            ),
            None => bare_path(input@).len() == 0,
        },
{
    let chars = chars_of(input);
    let t = trim(chars.as_slice());
    let mut start: usize = 0;
    proof {
        assert(t@.skip(0) =~= t@);
    }
    while start < t.len() && (t[start] == '"' || t[start] == '\'')
        invariant
            start <= t@.len(),
            strip_quotes_start(t@) == strip_quotes_start(t@.skip(start as int)),
        decreases t@.len() - start,
    {
        proof {
            assert(t@.skip(start as int).drop_first() =~= t@.skip(start + 1));
        }
        start += 1;
    }
    let s = skip_chars(t, start);
    let mut end: usize = s.len();
    proof {
        assert(s@.take(end as int) =~= s@);
    }
    while end > 0 && (s[end - 1] == '"' || s[end - 1] == '\'')
        invariant
            end <= s@.len(),
            strip_quotes_end(s@) == strip_quotes_end(s@.take(end as int)),
        decreases end,
    {
        proof {
            assert(s@.take(end as int).drop_last() =~= s@.take(end - 1));
        }
        end -= 1;
    }
    let bare = take_chars(s, end);
    if bare.len() == 0 {
        return None;
    }
    Some(expand_user_path(string_of(bare).as_str(), home))
}

// The code that is scanned.

pub open spec fn longest(lines: Seq<Seq<char>>) -> nat
    decreases lines.len(),
{
    if lines.len() == 0 {
        0
    } else {
        let before = longest(lines.drop_last());
        if lines.last().len() > before {
            lines.last().len()
        } else {
            before
        }
    }
}

pub open spec fn in_u16(n: nat) -> u16 {
    if n <= u16::MAX {
        n as u16
    } else {
        u16::MAX
    }
}

/// The width and the height of a code in characters.
pub fn qr_dimensions(qr: &str) -> (r: (u16, u16))
    ensures
        r.0 == in_u16(longest(crate::text::lines_of(qr@))),
        r.1 == in_u16(crate::text::lines_of(qr@).len()),
{
    let chars = chars_of(qr);
    let rows = crate::text::lines(chars.as_slice());
    let ghost all = crate::text::slices(rows@);
    let mut width: usize = 0;
    let mut i: usize = 0;
    proof {
        assert(all.take(0) =~= seq![]);
    }
    while i < rows.len()
        invariant
            i <= rows@.len(),
            all == crate::text::slices(rows@),
            width == longest(all.take(i as int)),
        decreases rows@.len() - i,
    {
        proof {
            assert(all.take(i + 1).drop_last() =~= all.take(i as int));
            assert(all.take(i + 1).last() == rows@[i as int]@);
        }
        let length: usize = rows[i].len();
        if length > width {
            width = length;
        }
        i += 1;
    }
    proof {
        assert(all.take(i as int) =~= all);
        assert(all.len() == rows@.len());
    }
    let height: usize = rows.len();
    (
        if width <= u16::MAX as usize { width as u16 } else { u16::MAX },
        if height <= u16::MAX as usize { height as u16 } else { u16::MAX },
    )
}

// What the texts mean.

/// A time is shown in whole minutes and two digits of seconds.
pub proof fn lemma_time_shown(minutes: nat, seconds: nat)
    requires
        seconds < 60,
    ensures
        seconds >= 10 ==> time_text(60 * minutes + seconds) == decimal(minutes) + ":"@ + decimal(seconds),
        seconds < 10 ==> time_text(60 * minutes + seconds) == decimal(minutes) + ":0"@ + decimal(seconds),
{
    reveal_strlit(":");
    reveal_strlit(":0");
    let total = 60 * minutes + seconds;
    assert(total / 60 == minutes && total % 60 == seconds);
    reveal_with_fuel(decimal, 2);
    if seconds >= 10 {
        assert(decimal(seconds).len() == 2);
    } else {
        assert(decimal(seconds).len() == 1);
        assert(time_text(total) =~= decimal(minutes) + ":0"@ + decimal(seconds));
    }
}

/// The playing time of a library is shown in whole hours and two digits of
/// minutes; what is left of the last minute does not count.
pub proof fn lemma_library_duration_shown(hours: nat, minutes: nat, rest: nat, duration_ms: u64, r: String)
    requires
        minutes < 60,
        rest < 60_000,
        duration_ms == (60 * hours + minutes) * 60_000 + rest,
        call_ensures(format_library_duration, (duration_ms,), r),
    ensures
        minutes >= 10 ==> r@ == decimal(hours) + "h "@ + decimal(minutes) + "m"@,
        minutes < 10 ==> r@ == decimal(hours) + "h 0"@ + decimal(minutes) + "m"@,
{
    reveal_strlit("h ");
    reveal_strlit("h 0");
    assert(duration_ms / 60_000 == 60 * hours + minutes);
    assert(duration_ms / 60_000 / 60 == hours && duration_ms / 60_000 % 60 == minutes);
    reveal_with_fuel(decimal, 2);
    if minutes >= 10 {
        assert(decimal(minutes).len() == 2);
    } else {
        assert(decimal(minutes).len() == 1);
        assert(r@ =~= decimal(hours) + "h 0"@ + decimal(minutes) + "m"@);
    }
}

/// A size below 2^53 is shown in the largest binary unit that it reaches, to
/// the nearest tenth; below one KiB in bytes.
pub proof fn lemma_sizes_shown(bytes: nat, tenths: nat)
    requires
        bytes < 0x20_0000_0000_0000,
    ensures
        bytes < 1024 ==> size_text(bytes) == decimal(bytes) + " B"@,
        1024 <= bytes < 1024 * 1024 ==> exists|t: nat|
            size_text(bytes) == #[trigger] tenths_text(t) + " KiB"@ && 10 * bytes - 512 <= 1024 * t <= 10 * bytes + 512,
        1024 * 1024 <= bytes < 1024 * 1024 * 1024 ==> exists|t: nat|
            size_text(bytes) == #[trigger] tenths_text(t) + " MiB"@ && 10 * bytes - 512 * 1024 <= 1024 * 1024 * t <= 10
                * bytes + 512 * 1024,
        1024 * 1024 * 1024 <= bytes ==> exists|t: nat|
            size_text(bytes) == #[trigger] tenths_text(t) + " GiB"@ && 10 * bytes - 512 * 1024 * 1024 <= 1024 * 1024
                * 1024 * t <= 10 * bytes + 512 * 1024 * 1024,
        tenths_text(tenths) == decimal(tenths / 10) + "."@ + decimal(tenths % 10),
{
    assert(size_unit(bytes) == 1);
    assert(rounded(bytes, 1) == bytes);
    assert(kept_size(bytes) == bytes) by (nonlinear_arith)
        requires
            kept_size(bytes) == rounded(bytes, 1) * 1,
            rounded(bytes, 1) == bytes,
    ;
    let size = 10 * bytes;
    if bytes >= GIB {
        crate::player::lemma_rounded(size, GIB as nat);
        let t = tenths_of(bytes, GIB as nat);
        assert(size_text(bytes) == tenths_text(t) + " GiB"@);
    } else if bytes >= MIB {
        crate::player::lemma_rounded(size, MIB as nat);
        let t = tenths_of(bytes, MIB as nat);
        assert(size_text(bytes) == tenths_text(t) + " MiB"@);
    } else if bytes >= KIB {
        crate::player::lemma_rounded(size, KIB as nat);
        let t = tenths_of(bytes, KIB as nat);
        assert(size_text(bytes) == tenths_text(t) + " KiB"@);
    }
}

/// A number that was written in decimal is read as that number.
proof fn lemma_number_read(n: nat, max: nat)
    requires
        n <= max,
    ensures
        parse_unsigned_of(decimal(n), max) == Some(n),
{
    lemma_decimal_reads_back(n);
    assert(is_digit(decimal(n)[0]));
}

/// A range is read as its two ends: the first is at least one, and the second
/// no less than the first.
pub proof fn lemma_range_read(start: usize, end: usize)
    ensures
        1 <= start <= end ==> range_of_text(decimal(start as nat) + "-"@ + decimal(end as nat)) == Ok::<
            (nat, nat),
            Seq<char>,
        >((start as nat, end as nat)),
        start == 0 || end < start ==> range_of_text(decimal(start as nat) + "-"@ + decimal(end as nat)) is Err,
        range_of_text(decimal(start as nat)) is Err,
{
    reveal_strlit("-");
    let a = decimal(start as nat);
    let b = decimal(end as nat);
    let s = a + "-"@ + b;
    lemma_decimal_reads_back(start as nat);
    lemma_decimal_reads_back(end as nat);
    assert forall|i: int| 0 <= i < a.len() implies s[i] != '-' && a[i] != '-' by {
        assert(is_digit(a[i]));
    }
    crate::text::lemma_first_of_is(s, '-', a.len() as int);
    crate::text::lemma_first_of_is(a, '-', a.len() as int);
    assert(s.take(a.len() as int) =~= a);
    assert(s.skip(a.len() as int + 1) =~= b);
    lemma_number_read(start as nat, usize::MAX as nat);
    lemma_number_read(end as nat, usize::MAX as nat);
}

/// A command names what is to be downloaded, in full or in short, and its
/// number; a third word is the range of the tracks, and what follows is not
/// read.
pub proof fn lemma_download_read(id: u64, words: Seq<Seq<char>>)
    requires
        words.len() >= 2,
        words[1] == decimal(id as nat),
    ensures
        words.len() == 2 && (words[0] == "track"@ || words[0] == "t"@) ==> download_of_words(words) == Ok::<
            (DownloadSource, Option<(nat, nat)>),
            Seq<char>,
        >((DownloadSource::Track(id), None)),
        words.len() == 2 && (words[0] == "album"@ || words[0] == "al"@) ==> download_of_words(words) == Ok::<
            (DownloadSource, Option<(nat, nat)>),
            Seq<char>,
        >((DownloadSource::Album(id), None)),
        words.len() == 2 && (words[0] == "playlist"@ || words[0] == "pl"@) ==> download_of_words(words) == Ok::<
            (DownloadSource, Option<(nat, nat)>),
            Seq<char>,
        >((DownloadSource::Playlist(id), None)),
        words.len() > 2 && download_of_words(words.take(2)) is Ok ==> match range_of_text(words[2]) {
            Ok(range) => download_of_words(words) == Ok::<(DownloadSource, Option<(nat, nat)>), Seq<char>>(
                (download_of_words(words.take(2))->Ok_0.0, Some(range)),
            ),
            Err(message) => download_of_words(words) == Err::<(DownloadSource, Option<(nat, nat)>), Seq<char>>(message),
        },
        download_of_words(words.take(1)) is Err,
        download_of_words(words) is Ok ==> words[0] == "track"@ || words[0] == "t"@ || words[0] == "album"@ || words[0]
            == "al"@ || words[0] == "playlist"@ || words[0] == "pl"@,
{
    lemma_number_read(id as nat, u64::MAX as nat);
    reveal_strlit("track");
    reveal_strlit("t");
    reveal_strlit("album");
    reveal_strlit("al");
    reveal_strlit("playlist");
    reveal_strlit("pl");
    assert("album"@[0] == 'a' && "al"@[0] == 'a' && "playlist"@[0] == 'p' && "pl"@[0] == 'p' && "track"@[0] == 't' && "t"@[0]
        == 't');
    assert(words.take(2)[0] == words[0] && words.take(2)[1] == words[1]);
}

/// A text with a backslash before each character.
pub open spec fn all_escaped(s: Seq<char>) -> Seq<char>
    decreases s.len(),
{
    if s.len() == 0 {
        s
    } else {
        seq!['\\', s[0]] + all_escaped(s.drop_first())
    }
}

/// A backslash makes the next character stand for itself; a text without one
/// is read as it is.
pub proof fn lemma_escapes(s: Seq<char>)
    ensures
        unescaped(all_escaped(s)) == s,
        !s.contains('\\') ==> unescaped(s) == s,
    decreases s.len(),
{
    if s.len() > 0 {
        let rest = s.drop_first();
        lemma_escapes(rest);
        let written = all_escaped(s);
        assert(written[0] == '\\' && written[1] == s[0]);
        assert(written.skip(2) =~= all_escaped(rest));
        assert(seq![s[0]] + rest =~= s);
        if !s.contains('\\') {
            assert(s.contains(s[0]));
            assert forall|c: char| rest.contains(c) implies s.contains(c) by {
                let i = choose|i: int| 0 <= i < rest.len() && rest[i] == c;
                assert(s[i + 1] == c);
            }
        }
    }
}

/// A tilde alone is the home directory, and one before a slash stands for it;
/// everything else, and everything where no home is known, is left alone.
pub proof fn lemma_home_expanded(path: Seq<char>, home: Seq<char>)
    requires
        !path.contains('\\'),
    ensures
        expanded_path("~"@, Some(home)) == home,
        expanded_path("~/"@ + path, Some(home)) == crate::path::join_of(home, path),
        path.len() > 0 && path[0] != '~' ==> expanded_path(path, Some(home)) == path,
        expanded_path(path, None) == path,
{
    reveal_strlit("~");
    reveal_strlit("~/");
    let below = "~/"@ + path;
    assert forall|c: char| below.contains(c) implies c != '\\' by {
        let i = choose|i: int| 0 <= i < below.len() && below[i] == c;
        if i >= 2 {
            assert(path[i - 2] == c);
            assert(path.contains(c));
        }
    }
    lemma_escapes(path);
    lemma_escapes(below);
    lemma_escapes("~"@);
    assert(below.skip(2) =~= path);
    assert(below != "~"@) by {
        assert(below.len() >= 2);
    }
    assert(path.len() > 0 && path[0] != '~' ==> path != "~"@ && !"~/"@.is_prefix_of(path));
}

/// Quotation marks around a typed path go, and so does the white space around
/// them.
pub proof fn lemma_quotes_go(path: Seq<char>, mark: char)
    requires
        mark == '"' || mark == '\'',
        path.len() > 0 ==> path[0] != '"' && path[0] != '\'' && path.last() != '"' && path.last() != '\'',
    ensures
        bare_path(seq![mark] + path + seq![mark]) == path,
        bare_path(seq![' ', mark] + path + seq![mark, ' ']) == path,
{
    let quoted = seq![mark] + path + seq![mark];
    let spaced = seq![' ', mark] + path + seq![mark, ' '];
    reveal_with_fuel(crate::text::trim_start_of, 3);
    reveal_with_fuel(crate::text::trim_end_of, 3);
    assert(spaced.drop_first() =~= quoted + seq![' ']);
    assert((quoted + seq![' ']).drop_last() =~= quoted);
    assert(quoted[0] == mark && quoted.last() == mark);
    assert(trim_of(quoted) == quoted);
    assert(trim_of(spaced) == quoted);
    assert(quoted.drop_first() =~= path + seq![mark]);
    reveal_with_fuel(strip_quotes_start, 3);
    reveal_with_fuel(strip_quotes_end, 3);
    let rest = path + seq![mark];
    if path.len() > 0 {
        assert(rest[0] == path[0]);
        assert(rest.drop_last() =~= path);
    } else {
        assert(rest.drop_first() =~= path);
    }
}

} // verus!
