//! Formatting of byte counts, file-name cleaning and `.onion` detection.
use vstd::prelude::*;
use crate::text::{
    chars_of, decimal, decimal_string, digit, digit_char, ends_with, ends_with_str, push_char,
    push_str,
};
use crate::urls::{url_parse, UrlParts};

verus! {

/// `2^e`.
pub open spec fn two_pow(e: nat) -> nat
    decreases e,
{
    if e == 0 {
        1
    } else {
        2 * two_pow((e - 1) as nat)
    }
}

/// How many low bits of `b` an `f64` cannot hold: the number of halvings
/// that bring `b` below `2^53`.
pub open spec fn f64_shift(b: nat) -> nat
    decreases b,
{
    if b < 0x20_0000_0000_0000 {
        0
    } else {
        1 + f64_shift(b / 2)
    }
}

/// `n / d` rounded to the nearest integer, ties to the even one.
pub open spec fn round_half_even(n: nat, d: nat) -> nat {
    let q = n / d;
    let r = n % d;
    if 2 * r > d || (2 * r == d && q % 2 == 1) {
        q + 1
    } else {
        q
    }
}

/// The value of `b as f64`: `b` rounded to 53 significant bits, ties to even.
pub open spec fn nearest_f64(b: nat) -> nat {
    round_half_even(b, two_pow(f64_shift(b))) * two_pow(f64_shift(b))
}

/// `1024^k` for the five units.
pub open spec fn unit_scale(k: nat) -> nat {
    if k == 0 {
        1
    } else if k == 1 {
        1024
    } else if k == 2 {
        1048576
    } else if k == 3 {
        1073741824
    } else {
        1099511627776
    }
}

/// The largest unit (at most TB) whose scale does not exceed `v`.
pub open spec fn unit_index(v: nat) -> nat {
    if v >= 1099511627776 {
        4
    } else if v >= 1073741824 {
        3
    } else if v >= 1048576 {
        2
    } else if v >= 1024 {
        1
    } else {
        0
    }
}

pub open spec fn unit_name(k: nat) -> Seq<char> {
    if k == 0 {
        "B"@
    } else if k == 1 {
        "KB"@
    } else if k == 2 {
        "MB"@
    } else if k == 3 {
        "GB"@
    } else {
        "TB"@
    }
}

/// The text `format_bytes` gives for `bytes`: the value of `bytes as f64` in the
/// largest unit that keeps it at least 1, with one decimal rounded to nearest,
/// ties to even, then a space and the unit.
pub open spec fn format_bytes_spec(bytes: nat) -> Seq<char> {
    let v = nearest_f64(bytes);
    let k = unit_index(v);
    let t = round_half_even(10 * v, unit_scale(k));
    decimal(t / 10) + seq!['.', digit_char(t % 10), ' '] + unit_name(k)
}

/// `bytes as f64`, as an exact integer.
fn nearest_f64_value(bytes: u64) -> (v: u128)
    ensures
        v as nat == nearest_f64(bytes as nat),
        v <= 0x2_0000_0000_0000_0000,
{
    let mut q: u64 = bytes;
    let mut p: u64 = 1;
    let ghost mut s: nat = 0;
    while q >= 0x20_0000_0000_0000
        invariant
            p as nat == two_pow(s),
            p >= 1,
            q as nat == bytes as nat / (p as nat),
            f64_shift(bytes as nat) == s + f64_shift(q as nat),
            p <= 0x1000,
        decreases q,
    {
        proof {
            vstd::arithmetic::div_mod::lemma_fundamental_div_mod(bytes as int, p as int);
            assert(p < 0x800) by (nonlinear_arith)
                requires
                    q >= 0x20_0000_0000_0000,
                    q as int * p as int <= bytes,
                    bytes < 0x1_0000_0000_0000_0000,
                    p >= 1,
            ;
            vstd::arithmetic::div_mod::lemma_div_denominator(bytes as int, p as int, 2);
        }
        q = q / 2;
        p = p * 2;
        proof {
            s = s + 1;
        }
    }
    assert(f64_shift(bytes as nat) == s);
    let r = bytes % p;
    let rounded: u64 = if 2 * r > p || (2 * r == p && q % 2 == 1) {
        q + 1
    } else {
        q
    };
    assert(rounded <= 0x20_0000_0000_0000);
    assert(rounded as int * p as int <= 0x2_0000_0000_0000_0000) by (nonlinear_arith)
        requires
            rounded <= 0x20_0000_0000_0000,
            p <= 0x1000,
    ;
    (rounded as u128) * (p as u128)
}

/// Formats a byte count for people: `500` gives "500.0 B", `1536` gives "1.5 KB".
pub fn format_bytes(bytes: u64) -> (r: String)
    ensures
        r@ == format_bytes_spec(bytes as nat),
{
    let v = nearest_f64_value(bytes);
    let mut unit: usize = 0;
    let mut scale: u128 = 1;
    while unit < 4 && v >= scale * 1024
        invariant
            unit <= 4,
            scale as nat == unit_scale(unit as nat),
            unit > 0 ==> v >= scale,
        decreases 4 - unit,
    {
        scale = scale * 1024;
        unit = unit + 1;
    }
    assert(unit as nat == unit_index(v as nat));
    let n: u128 = 10 * v;
    let q = n / scale;
    let rem = n % scale;
    let t: u128 = if 2 * rem > scale || (2 * rem == scale && q % 2 == 1) {
        q + 1
    } else {
        q
    };
    let mut out = decimal_string(t / 10);
    push_char(&mut out, '.');
    push_char(&mut out, digit(t % 10));
    push_char(&mut out, ' ');
    let name = if unit == 0 {
        "B"
    } else if unit == 1 {
        "KB"
    } else if unit == 2 {
        "MB"
    } else if unit == 3 {
        "GB"
    } else {
        "TB"
    };
    push_str(&mut out, name);
    assert(out@ =~= format_bytes_spec(bytes as nat));
    out
}

/// Whether `char::is_alphanumeric` holds of `c` (Unicode `Alphabetic` or `Numeric`).
pub uninterp spec fn is_alphanumeric(c: char) -> bool;

/// Calls `char::is_alphanumeric`. Claimed: the result is `is_alphanumeric(c)`.
#[verifier::external_body]
fn call_is_alphanumeric(c: char) -> (b: bool)
    ensures
        b == is_alphanumeric(c),
{
    c.is_alphanumeric()
}

/// The characters that file names keep as they are.
pub open spec fn keeps_char(c: char) -> bool {
    is_alphanumeric(c) || c == '-' || c == '_' || c == '.'
}

pub open spec fn clean_char(c: char) -> char {
    if keeps_char(c) {
        c
    } else {
        '_'
    }
}

/// `name` with every character other than alphanumerics, `-`, `_` and `.` replaced by `_`.
pub open spec fn clean_filename_spec(name: Seq<char>) -> Seq<char> {
    name.map_values(|c: char| clean_char(c))
}

/// Cleans a file name for filesystem compatibility.
pub fn clean_filename(filename: &str) -> (r: String)
    ensures
        r@ == clean_filename_spec(filename@),
{
    let v = chars_of(filename);
    let mut out = String::new();
    let mut i: usize = 0;
    while i < v.len()
        invariant
            v@ == filename@,
            i <= v.len(),
            out@ == clean_filename_spec(filename@.take(i as int)),
        decreases v.len() - i,
    {
        let c = v[i];
        let keep = call_is_alphanumeric(c) || c == '-' || c == '_' || c == '.';
        push_char(&mut out, if keep { c } else { '_' });
        assert(filename@.take(i + 1) =~= filename@.take(i as int).push(c));
        i = i + 1;
    }
    assert(filename@.take(v.len() as int) =~= filename@);
    out
}

/// Cleaning is idempotent, keeps the length, and leaves only characters that
/// file names keep.
pub proof fn lemma_clean_filename(name: Seq<char>)
    ensures
        clean_filename_spec(clean_filename_spec(name)) == clean_filename_spec(name),
        clean_filename_spec(name).len() == name.len(),
        forall|i: int|
            0 <= i < name.len() ==> keeps_char(#[trigger] clean_filename_spec(name)[i]),
{
    assert(clean_filename_spec(clean_filename_spec(name)) =~= clean_filename_spec(name));
}

/// Cleaning keeps every character that `char::is_alphanumeric` accepts and
/// every `-`, `_` and `.` where it is, and puts `_` in place of any other.
pub proof fn lemma_clean_filename_chars(name: Seq<char>, i: int)
    requires
        0 <= i < name.len(),
    ensures
        clean_filename_spec(name).len() == name.len(),
        is_alphanumeric(name[i]) ==> clean_filename_spec(name)[i] == name[i],
        name[i] == '-' || name[i] == '_' || name[i] == '.' ==> clean_filename_spec(name)[i] == name[i],
        !is_alphanumeric(name[i]) && name[i] != '-' && name[i] != '_' && name[i] != '.'
            ==> clean_filename_spec(name)[i] == '_',
{
}

/// Whether `url` parses to a URL whose host ends with ".onion".
pub open spec fn is_onion_url_spec(url: Seq<char>) -> bool {
    match url_parse(url) {
        Ok(u) => match u.host {
            Some(h) => ends_with(h, ".onion"@),
            None => false,
        },
        Err(_) => false,
    }
}

/// Checks whether a URL is a valid .onion address.
pub fn is_onion_url(url: &str) -> (b: bool)
    ensures
        b == is_onion_url_spec(url@),
{
    match UrlParts::parse(url) {
        Ok(u) => match &u.host {
            Some(h) => ends_with_str(h.as_str(), ".onion"),
            None => false,
        },
        Err(_) => false,
    }
}

/// A whole number `m` (1 to 1023) of KB, MB, GB or TB is written as `m`
/// followed by ".0" and the unit.
pub proof fn lemma_format_whole_units(m: nat)
    requires
        1 <= m < 1024,
    ensures
        format_bytes_spec(m * 1024) == decimal(m) + ".0 KB"@,
        format_bytes_spec(m * 1048576) == decimal(m) + ".0 MB"@,
        format_bytes_spec(m * 1073741824) == decimal(m) + ".0 GB"@,
        format_bytes_spec(m * 1099511627776) == decimal(m) + ".0 TB"@,
{
    lemma_whole_unit(m, 1);
    lemma_whole_unit(m, 2);
    lemma_whole_unit(m, 3);
    lemma_whole_unit(m, 4);
    reveal_strlit(".0 KB");
    reveal_strlit(".0 MB");
    reveal_strlit(".0 GB");
    reveal_strlit(".0 TB");
    reveal_strlit("KB");
    reveal_strlit("MB");
    reveal_strlit("GB");
    reveal_strlit("TB");
    assert(digit_char(0) == '0');
    assert(decimal(m) + seq!['.', '0', ' '] + "KB"@ =~= decimal(m) + ".0 KB"@);
    assert(decimal(m) + seq!['.', '0', ' '] + "MB"@ =~= decimal(m) + ".0 MB"@);
    assert(decimal(m) + seq!['.', '0', ' '] + "GB"@ =~= decimal(m) + ".0 GB"@);
    assert(decimal(m) + seq!['.', '0', ' '] + "TB"@ =~= decimal(m) + ".0 TB"@);
}

proof fn lemma_whole_unit(m: nat, k: nat)
    requires
        1 <= m < 1024,
        1 <= k <= 4,
    ensures
        format_bytes_spec(m * unit_scale(k)) == decimal(m) + seq!['.', '0', ' '] + unit_name(k),
{
    let sc = unit_scale(k);
    let b = m * sc;
    assert(b < 0x20_0000_0000_0000 && b >= sc && b < sc * 1024) by (nonlinear_arith)
        requires
            1 <= m < 1024,
            1 <= sc <= 1099511627776,
            b == m * sc,
    ;
    assert(f64_shift(b) == 0);
    assert(two_pow(0) == 1);
    assert(round_half_even(b, 1) == b);
    assert(nearest_f64(b) == b);
    assert(unit_index(b) == k);
    let t = round_half_even(10 * b, sc);
    assert((10 * b) / sc == 10 * m && (10 * b) % sc == 0) by (nonlinear_arith)
        requires
            b == m * sc,
            sc >= 1,
    {
        vstd::arithmetic::div_mod::lemma_fundamental_div_mod_converse((10 * b) as int, sc as int, (10 * m) as int, 0);
    }
    assert(t == 10 * m);
    assert(t / 10 == m && t % 10 == 0);
}

/// A URL is a .onion URL exactly when it parses and its host ends with
/// ".onion"; one that does not parse, or has no host, is not.
pub proof fn lemma_onion_url(url: Seq<char>)
    ensures
        is_onion_url_spec(url) <==> (url_parse(url) matches Ok(u) && u.host matches Some(h) && h.len()
            >= 6 && h.subrange(h.len() - 6, h.len() as int) == ".onion"@),
{
    reveal_strlit(".onion");
}

/// A count below 1024 bytes is written exactly, with ".0 B".
pub proof fn lemma_format_small_bytes(bytes: nat)
    requires
        bytes < 1024,
    ensures
        format_bytes_spec(bytes) == decimal(bytes) + seq!['.', '0', ' '] + "B"@,
{
    assert(f64_shift(bytes) == 0);
    assert(two_pow(0) == 1);
    assert(nearest_f64(bytes) == bytes);
    assert(unit_index(bytes) == 0);
    assert(round_half_even(10 * bytes, 1) == 10 * bytes);
    assert((10 * bytes) / 10 == bytes);
    assert((10 * bytes) % 10 == 0);
    assert(digit_char(0) == '0');
}

} // verus!
