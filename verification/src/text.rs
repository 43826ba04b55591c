//! Character-level string helpers shared by the rest of the library.
use vstd::prelude::*;
use crate::errors::IntErrorKind;

verus! {

/// `String::push` from std: appends one character.
#[verifier::external_body]
pub(crate) fn push_char(s: &mut String, c: char)
    ensures
        final(s)@ == old(s)@.push(c),
{
    s.push(c);
}

/// Appends a string slice.
pub(crate) fn push_str(s: &mut String, t: &str)
    ensures
        final(s)@ == old(s)@ + t@,
{
    s.append(t);
}

/// An owned copy of a string slice.
pub(crate) fn owned(t: &str) -> (r: String)
    ensures
        r@ == t@,
{
    String::from_str(t)
}

/// The characters of a string slice, in order.
pub(crate) fn chars_of(s: &str) -> (v: Vec<char>)
    ensures
        v@ == s@,
{
    broadcast use vstd::string::group_string_axioms;

    let mut v: Vec<char> = Vec::new();
    for c in it: s.chars()
        invariant
            it.seq() == s@,
            v@ == s@.take(it.index()),
    {
        v.push(c);
    }
    v
}

/// The string made of `v[lo..hi]`.
pub(crate) fn string_from_range(v: &Vec<char>, lo: usize, hi: usize) -> (r: String)
    requires
        lo <= hi <= v.len(),
    ensures
        r@ == v@.subrange(lo as int, hi as int),
{
    let mut r = String::new();
    let mut i = lo;
    while i < hi
        invariant
            lo <= i <= hi <= v.len(),
            r@ == v@.subrange(lo as int, i as int),
        decreases hi - i,
    {
        push_char(&mut r, v[i]);
        i = i + 1;
    }
    r
}

/// The decimal digit character for `d` (`d < 10`).
pub open spec fn digit_char(d: nat) -> char {
    seq!['0', '1', '2', '3', '4', '5', '6', '7', '8', '9'][d as int]
}

/// The decimal representation of `n`, without sign or leading zeros.
pub open spec fn decimal(n: nat) -> Seq<char>
    decreases n,
{
    if n < 10 {
        seq![digit_char(n)]
    } else {
        decimal(n / 10).push(digit_char(n % 10))
    }
}

pub(crate) fn digit(d: u128) -> (c: char)
    requires
        d < 10,
    ensures
        c == digit_char(d as nat),
{
    if d == 0 {
        '0'
    } else if d == 1 {
        '1'
    } else if d == 2 {
        '2'
    } else if d == 3 {
        '3'
    } else if d == 4 {
        '4'
    } else if d == 5 {
        '5'
    } else if d == 6 {
        '6'
    } else if d == 7 {
        '7'
    } else if d == 8 {
        '8'
    } else {
        '9'
    }
}

/// Appends the decimal representation of `n`.
pub(crate) fn push_decimal(out: &mut String, n: u128)
    ensures
        final(out)@ == old(out)@ + decimal(n as nat),
    decreases n,
{
    if n >= 10 {
        push_decimal(out, n / 10);
    }
    push_char(out, digit(n % 10));
    assert(final(out)@ =~= old(out)@ + decimal(n as nat));
}

/// The decimal representation of `n` as a new string (what `n.to_string()` gives).
pub fn decimal_string(n: u128) -> (r: String)
    ensures
        r@ == decimal(n as nat),
{
    let mut r = String::new();
    push_decimal(&mut r, n);
    assert(r@ =~= decimal(n as nat));
    r
}

/// Unicode `White_Space`, the property that `char::is_whitespace` tests.
pub open spec fn is_space(c: char) -> bool {
    let x = c as u32;
    ||| 0x09 <= x <= 0x0D
    ||| x == 0x20
    ||| x == 0x85
    ||| x == 0xA0
    ||| x == 0x1680
    ||| 0x2000 <= x <= 0x200A
    ||| x == 0x2028
    ||| x == 0x2029
    ||| x == 0x202F
    ||| x == 0x205F
    ||| x == 0x3000
}

pub fn is_space_char(c: char) -> (b: bool)
    ensures
        b == is_space(c),
{
    let x = c as u32;
    (0x09 <= x && x <= 0x0D) || x == 0x20 || x == 0x85 || x == 0xA0 || x == 0x1680 || (0x2000
        <= x && x <= 0x200A) || x == 0x2028 || x == 0x2029 || x == 0x202F || x == 0x205F || x
        == 0x3000
}

/// `s` without its leading whitespace.
pub open spec fn trim_start(s: Seq<char>) -> Seq<char>
    decreases s.len(),
{
    if s.len() > 0 && is_space(s[0]) {
        trim_start(s.drop_first())
    } else {
        s
    }
}

/// `s` without its trailing whitespace.
pub open spec fn trim_end(s: Seq<char>) -> Seq<char>
    decreases s.len(),
{
    if s.len() > 0 && is_space(s.last()) {
        trim_end(s.drop_last())
    } else {
        s
    }
}

/// `s` without leading and trailing whitespace (what `str::trim` gives).
pub open spec fn trim(s: Seq<char>) -> Seq<char> {
    trim_end(trim_start(s))
}

/// Trims whitespace at both ends.
pub fn trim_string(s: &str) -> (r: String)
    ensures
        r@ == trim(s@),
{
    let v = chars_of(s);
    let n = v.len();
    let mut i: usize = 0;
    assert(v@.subrange(0, n as int) =~= v@);
    while i < n && is_space_char(v[i])
        invariant
            i <= n == v@.len(),
            v@ == s@,
            trim_start(s@) == trim_start(v@.subrange(i as int, n as int)),
        decreases n - i,
    {
        assert(v@.subrange(i as int, n as int).drop_first() =~= v@.subrange(i + 1, n as int));
        i = i + 1;
    }
    assert(trim_start(s@) == v@.subrange(i as int, n as int));
    let mut j: usize = n;
    while j > i && is_space_char(v[j - 1])
        invariant
            i <= j <= n == v@.len(),
            v@ == s@,
            trim(s@) == trim_end(v@.subrange(i as int, j as int)),
        decreases j,
    {
        assert(v@.subrange(i as int, j as int).drop_last() =~= v@.subrange(i as int, j - 1));
        j = j - 1;
    }
    string_from_range(&v, i, j)
}

/// Whether `needle` occurs in `hay` starting at `at`.
pub open spec fn occurs_at(hay: Seq<char>, needle: Seq<char>, at: int) -> bool {
    0 <= at && at + needle.len() <= hay.len() && hay.subrange(at, at + needle.len()) == needle
}

/// Whether `needle` occurs anywhere in `hay` (what `str::contains` tests).
pub open spec fn contains(hay: Seq<char>, needle: Seq<char>) -> bool {
    exists|at: int| occurs_at(hay, needle, at)
}

fn matches_at(hay: &Vec<char>, needle: &Vec<char>, at: usize) -> (b: bool)
    requires
        at + needle.len() <= hay.len(),
    ensures
        b == occurs_at(hay@, needle@, at as int),
{
    let mut k: usize = 0;
    while k < needle.len()
        invariant
            at + needle.len() <= hay.len(),
            k <= needle.len(),
            forall|m: int| 0 <= m < k ==> hay@[at + m] == needle@[m],
        decreases needle.len() - k,
    {
        if hay[at + k] != needle[k] {
            assert(hay@.subrange(at as int, at + needle.len())[k as int] != needle@[k as int]);
            return false;
        }
        k = k + 1;
    }
    assert(hay@.subrange(at as int, at + needle.len()) =~= needle@);
    true
}

/// Substring test.
pub fn contains_str(hay: &str, needle: &str) -> (b: bool)
    ensures
        b == contains(hay@, needle@),
{
    let h = chars_of(hay);
    let n = chars_of(needle);
    if n.len() > h.len() {
        return false;
    }
    let last = h.len() - n.len();
    let mut at: usize = 0;
    loop
        invariant
            h@ == hay@,
            n@ == needle@,
            last + n.len() == h.len(),
            at <= last,
            forall|a: int| 0 <= a < at ==> !occurs_at(hay@, needle@, a),
        decreases last - at,
    {
        if matches_at(&h, &n, at) {
            return true;
        }
        if at == last {
            return false;
        }
        at = at + 1;
    }
}

/// Whether `s` ends with `suffix`.
pub open spec fn ends_with(s: Seq<char>, suffix: Seq<char>) -> bool {
    suffix.len() <= s.len() && s.subrange(s.len() - suffix.len(), s.len() as int) == suffix
}

pub fn ends_with_str(s: &str, suffix: &str) -> (b: bool)
    ensures
        b == ends_with(s@, suffix@),
{
    let h = chars_of(s);
    let n = chars_of(suffix);
    if n.len() > h.len() {
        return false;
    }
    let r = matches_at(&h, &n, h.len() - n.len());
    r
}

/// Whether `s` contains the character `c`.
pub fn has_char(s: &str, c: char) -> (b: bool)
    ensures
        b == s@.contains(c),
{
    let v = chars_of(s);
    let mut i: usize = 0;
    while i < v.len()
        invariant
            v@ == s@,
            forall|k: int| 0 <= k < i ==> v@[k] != c,
        decreases v.len() - i,
    {
        if v[i] == c {
            return true;
        }
        i = i + 1;
    }
    false
}

/// Whether `s` begins with `prefix`.
pub fn starts_with_str(s: &str, prefix: &str) -> (b: bool)
    ensures
        b == occurs_at(s@, prefix@, 0),
{
    let h = chars_of(s);
    let n = chars_of(prefix);
    if n.len() > h.len() {
        return false;
    }
    matches_at(&h, &n, 0)
}

/// String equality by characters.
pub fn str_eq(a: &str, b: &str) -> (r: bool)
    ensures
        r == (a@ == b@),
{
    let x = chars_of(a);
    let y = chars_of(b);
    if x.len() != y.len() {
        return false;
    }
    let mut i: usize = 0;
    while i < x.len()
        invariant
            x@ == a@,
            y@ == b@,
            x.len() == y.len(),
            forall|k: int| 0 <= k < i ==> x@[k] == y@[k],
        decreases x.len() - i,
    {
        if x[i] != y[i] {
            return false;
        }
        i = i + 1;
    }
    assert(x@ =~= y@);
    true
}

/// Whether `c` is an ASCII decimal digit.
pub open spec fn is_digit(c: char) -> bool {
    '0' <= c <= '9'
}

pub open spec fn digit_value(c: char) -> nat {
    (c as u32 - '0' as u32) as nat
}

/// Reads the decimal digits of `s` from left to right: the first character
/// that is not a digit gives `InvalidDigit`, the first prefix whose value
/// exceeds `max` gives `PosOverflow`.
pub open spec fn parse_digits(s: Seq<char>, max: nat) -> Result<nat, IntErrorKind>
    decreases s.len(),
{
    if s.len() == 0 {
        Ok(0)
    } else {
        match parse_digits(s.drop_last(), max) {
            Err(e) => Err(e),
            Ok(v) => if !is_digit(s.last()) {
                Err(IntErrorKind::InvalidDigit)
            } else if 10 * v + digit_value(s.last()) > max {
                Err(IntErrorKind::PosOverflow)
            } else {
                Ok(10 * v + digit_value(s.last()))
            },
        }
    }
}

/// What `str::parse` gives for an unsigned integer type whose largest value is
/// `max`: an empty string is `Empty`, one leading `+` is allowed when digits
/// follow, then the digits are read.
pub open spec fn parse_unsigned(s: Seq<char>, max: nat) -> Result<nat, IntErrorKind> {
    if s.len() == 0 {
        Err(IntErrorKind::Empty)
    } else if s[0] == '+' || s[0] == '-' {
        if s.len() == 1 {
            Err(IntErrorKind::InvalidDigit)
        } else if s[0] == '+' {
            parse_digits(s.drop_first(), max)
        } else {
            parse_digits(s, max)
        }
    } else {
        parse_digits(s, max)
    }
}

fn parse_digits_exec(v: &Vec<char>, start: usize, max: u64) -> (r: Result<u64, IntErrorKind>)
    requires
        start <= v.len(),
    ensures
        match parse_digits(v@.skip(start as int), max as nat) {
            Ok(n) => r == Ok::<u64, IntErrorKind>(n as u64),
            Err(e) => r == Err::<u64, IntErrorKind>(e),
        },
{
    let ghost s = v@.skip(start as int);
    let mut value: u64 = 0;
    let mut i: usize = start;
    while i < v.len()
        invariant
            start <= i <= v.len(),
            s == v@.skip(start as int),
            parse_digits(s.take(i - start), max as nat) == Ok::<nat, IntErrorKind>(value as nat),
            value <= max,
        decreases v.len() - i,
    {
        let c = v[i];
        assert(s.take(i + 1 - start).drop_last() =~= s.take(i - start));
        assert(s.take(i + 1 - start).last() == c);
        if !('0' <= c && c <= '9') {
            proof {
                lemma_parse_digits_err_sticks(s, max as nat, (i + 1 - start) as nat);
            }
            assert(s.take(s.len() as int) =~= s);
            return Err(IntErrorKind::InvalidDigit);
        }
        let d = (c as u32 - '0' as u32) as u64;
        if d > max || value > (max - d) / 10 {
            assert(10 * value + d > max) by (nonlinear_arith)
                requires
                    d > max || value > (max - d) / 10,
                    max >= d || d > max,
            ;
            proof {
                lemma_parse_digits_err_sticks(s, max as nat, (i + 1 - start) as nat);
            }
            assert(s.take(s.len() as int) =~= s);
            return Err(IntErrorKind::PosOverflow);
        }
        assert(10 * value + d <= max) by (nonlinear_arith)
            requires
                value <= (max - d) / 10,
                max >= d,
        ;
        value = 10 * value + d;
        i = i + 1;
    }
    assert(s.take(v.len() - start) =~= s);
    Ok(value)
}

/// Once reading the digits fails, the failure stays for longer inputs.
proof fn lemma_parse_digits_err_sticks(s: Seq<char>, max: nat, k: nat)
    requires
        k <= s.len(),
        parse_digits(s.take(k as int), max) is Err,
    ensures
        parse_digits(s, max) == parse_digits(s.take(k as int), max),
    decreases s.len() - k,
{
    if k < s.len() {
        assert(s.take((k + 1) as int).drop_last() =~= s.take(k as int));
        lemma_parse_digits_err_sticks(s, max, k + 1);
    } else {
        assert(s.take(k as int) =~= s);
    }
}

/// Parses an unsigned decimal number no larger than `max`, as `str::parse`
/// does for the integer type whose largest value is `max`.
pub fn parse_unsigned_exec(s: &str, max: u64) -> (r: Result<u64, IntErrorKind>)
    ensures
        match parse_unsigned(s@, max as nat) {
            Ok(n) => r == Ok::<u64, IntErrorKind>(n as u64),
            Err(e) => r == Err::<u64, IntErrorKind>(e),
        },
{
    let v = chars_of(s);
    if v.len() == 0 {
        return Err(IntErrorKind::Empty);
    }
    if v[0] == '+' || v[0] == '-' {
        if v.len() == 1 {
            return Err(IntErrorKind::InvalidDigit);
        }
        if v[0] == '+' {
            assert(v@.skip(1) =~= s@.drop_first());
            return parse_digits_exec(&v, 1, max);
        }
    }
    assert(v@.skip(0) =~= s@);
    parse_digits_exec(&v, 0, max)
}

/// The pieces of `s` between the occurrences of `sep`, empty pieces included
/// (what `str::split` with a character gives).
pub open spec fn split_on(s: Seq<char>, sep: char) -> Seq<Seq<char>>
    decreases s.len(),
{
    if s.len() == 0 {
        seq![seq![]]
    } else {
        let prev = split_on(s.drop_last(), sep);
        if s.last() == sep {
            prev.push(seq![])
        } else {
            prev.drop_last().push(prev.last().push(s.last()))
        }
    }
}

/// `split_on` always gives at least one piece.
pub proof fn lemma_split_on_nonempty(s: Seq<char>, sep: char)
    ensures
        split_on(s, sep).len() >= 1,
    decreases s.len(),
{
    if s.len() > 0 {
        lemma_split_on_nonempty(s.drop_last(), sep);
    }
}

/// The pieces of `s` split at `sep`, as strings.
pub fn split_string(s: &str, sep: char) -> (r: Vec<String>)
    ensures
        r@.map_values(|x: String| x@) == split_on(s@, sep),
{
    let v = chars_of(s);
    let mut pieces: Vec<String> = Vec::new();
    let mut cur = String::new();
    let mut i: usize = 0;
    proof {
        lemma_split_on_nonempty(v@.take(0), sep);
    }
    while i < v.len()
        invariant
            v@ == s@,
            i <= v.len(),
            split_on(v@.take(i as int), sep).len() >= 1,
            pieces@.map_values(|x: String| x@) == split_on(v@.take(i as int), sep).drop_last(),
            cur@ == split_on(v@.take(i as int), sep).last(),
        decreases v.len() - i,
    {
        let c = v[i];
        let ghost t = v@.take(i as int);
        assert(v@.take(i + 1).drop_last() =~= t);
        assert(v@.take(i + 1).last() == c);
        if c == sep {
            let ghost pv = pieces@.map_values(|x: String| x@);
            let ghost cv = cur@;
            pieces.push(cur);
            cur = String::new();
            assert(pieces@.map_values(|x: String| x@) =~= pv.push(cv));
            assert(split_on(t, sep) =~= split_on(t, sep).drop_last().push(split_on(t, sep).last()));
            assert(split_on(v@.take(i + 1), sep).drop_last() =~= split_on(t, sep));
        } else {
            push_char(&mut cur, c);
            assert(split_on(v@.take(i + 1), sep).drop_last() =~= split_on(t, sep).drop_last());
        }
        i = i + 1;
    }
    assert(v@.take(v.len() as int) =~= s@);
    let ghost pv = pieces@.map_values(|x: String| x@);
    let ghost cv = cur@;
    pieces.push(cur);
    assert(pieces@.map_values(|x: String| x@) =~= pv.push(cv));
    assert(split_on(s@, sep) =~= split_on(s@, sep).drop_last().push(split_on(s@, sep).last()));
    pieces
}

/// The nonempty runs of characters other than whitespace in `s`, in order
/// (what `str::split_whitespace` gives).
pub open spec fn words(s: Seq<char>) -> Seq<Seq<char>>
    decreases s.len(),
{
    if s.len() == 0 {
        seq![]
    } else {
        let prev = words(s.drop_last());
        if is_space(s.last()) {
            prev
        } else if s.len() >= 2 && !is_space(s[s.len() - 2]) {
            prev.drop_last().push(prev.last().push(s.last()))
        } else {
            prev.push(seq![s.last()])
        }
    }
}

/// The words of `s`, as strings.
pub fn words_of(s: &str) -> (r: Vec<String>)
    ensures
        r@.map_values(|x: String| x@) == words(s@),
{
    let v = chars_of(s);
    let mut out: Vec<String> = Vec::new();
    let mut cur = String::new();
    let mut i: usize = 0;
    while i < v.len()
        invariant
            v@ == s@,
            i <= v.len(),
            i > 0 && !is_space(v@[i - 1]) ==> {
                &&& words(v@.take(i as int)).len() > 0
                &&& out@.map_values(|x: String| x@) == words(v@.take(i as int)).drop_last()
                &&& cur@ == words(v@.take(i as int)).last()
            },
            !(i > 0 && !is_space(v@[i - 1])) ==> out@.map_values(|x: String| x@) == words(
                v@.take(i as int),
            ) && cur@.len() == 0,
        decreases v.len() - i,
    {
        let c = v[i];
        let ghost t = v@.take(i as int);
        assert(v@.take(i + 1).drop_last() =~= t);
        assert(v@.take(i + 1).last() == c);
        let in_word = i > 0 && !is_space_char(v[i - 1]);
        if is_space_char(c) {
            if in_word {
                let ghost ov = out@.map_values(|x: String| x@);
                let ghost cv = cur@;
                out.push(cur);
                cur = String::new();
                assert(out@.map_values(|x: String| x@) =~= ov.push(cv));
                assert(words(t) =~= words(t).drop_last().push(words(t).last()));
            }
        } else {
            let ghost old_cur = cur@;
            push_char(&mut cur, c);
            if in_word {
                assert(v@.take(i + 1)[i - 1] == v@[i - 1]);
                assert(words(v@.take(i + 1)).drop_last() =~= words(t).drop_last());
                assert(words(v@.take(i + 1)).last() =~= old_cur.push(c));
            } else {
                assert(i > 0 ==> v@.take(i + 1)[i - 1] == v@[i - 1]);
                assert(words(v@.take(i + 1)).drop_last() =~= words(t));
                assert(words(v@.take(i + 1)).last() =~= cur@);
            }
        }
        i = i + 1;
    }
    assert(v@.take(i as int) =~= s@);
    if i > 0 && !is_space_char(v[i - 1]) {
        let ghost ov = out@.map_values(|x: String| x@);
        let ghost cv = cur@;
        out.push(cur);
        assert(out@.map_values(|x: String| x@) =~= ov.push(cv));
        assert(words(s@) =~= words(s@).drop_last().push(words(s@).last()));
    }
    out
}

/// The strings of `parts` with `sep` between consecutive ones.
pub open spec fn join(parts: Seq<Seq<char>>, sep: Seq<char>) -> Seq<char>
    decreases parts.len(),
{
    if parts.len() == 0 {
        seq![]
    } else if parts.len() == 1 {
        parts[0]
    } else {
        join(parts.drop_last(), sep) + sep + parts.last()
    }
}

/// Joins strings with a separator (what `[String]::join` gives).
pub fn join_strings(parts: &Vec<String>, sep: &str) -> (r: String)
    ensures
        r@ == join(parts@.map_values(|x: String| x@), sep@),
{
    let ghost pv = parts@.map_values(|x: String| x@);
    let mut out = String::new();
    let mut i: usize = 0;
    while i < parts.len()
        invariant
            i <= parts.len(),
            pv == parts@.map_values(|x: String| x@),
            out@ == join(pv.take(i as int), sep@),
        decreases parts.len() - i,
    {
        assert(pv.take(i + 1).drop_last() =~= pv.take(i as int));
        if i > 0 {
            push_str(&mut out, sep);
        } else {
            assert(out@ =~= Seq::<char>::empty());
        }
        push_str(&mut out, parts[i].as_str());
        i = i + 1;
    }
    assert(pv.take(parts.len() as int) =~= pv);
    out
}

proof fn lemma_digit_char(d: nat)
    requires
        d < 10,
    ensures
        is_digit(digit_char(d)),
        digit_value(digit_char(d)) == d,
{
    assert(seq!['0', '1', '2', '3', '4', '5', '6', '7', '8', '9'][d as int] == digit_char(d));
}

proof fn lemma_decimal_shape(n: nat)
    ensures
        decimal(n).len() >= 1,
        is_digit(decimal(n)[0]),
    decreases n,
{
    if n < 10 {
        lemma_digit_char(n);
    } else {
        lemma_decimal_shape(n / 10);
    }
}

proof fn lemma_parse_digits_decimal(n: nat, max: nat)
    requires
        n <= max,
    ensures
        parse_digits(decimal(n), max) == Ok::<nat, IntErrorKind>(n),
    decreases n,
{
    lemma_digit_char(n % 10);
    let s = decimal(n);
    if n < 10 {
        assert(s.drop_last() =~= Seq::<char>::empty());
        assert(s.last() == digit_char(n));
        assert(parse_digits(s.drop_last(), max) == Ok::<nat, IntErrorKind>(0));
        assert(10 * 0 + digit_value(s.last()) == n);
    } else {
        lemma_parse_digits_decimal(n / 10, max);
        assert(s.drop_last() =~= decimal(n / 10));
        assert(s.last() == digit_char(n % 10));
        assert(10 * (n / 10) + n % 10 == n);
    }
}

/// Reading back the decimal text of a number gives the number: what
/// `decimal_string` writes, `parse_unsigned_exec` reads.
pub proof fn lemma_parse_decimal(n: nat, max: nat)
    requires
        n <= max,
    ensures
        parse_unsigned(decimal(n), max) == Ok::<nat, IntErrorKind>(n),
{
    lemma_decimal_shape(n);
    lemma_parse_digits_decimal(n, max);
    assert(decimal(n)[0] != '+' && decimal(n)[0] != '-');
}

proof fn lemma_trim_start_shape(s: Seq<char>)
    ensures
        trim_start(s).len() > 0 ==> !is_space(trim_start(s)[0]),
    decreases s.len(),
{
    if s.len() > 0 && is_space(s[0]) {
        lemma_trim_start_shape(s.drop_first());
    }
}

proof fn lemma_trim_end_shape(s: Seq<char>)
    ensures
        trim_end(s).len() <= s.len(),
        trim_end(s) == s.take(trim_end(s).len() as int),
        trim_end(s).len() > 0 ==> !is_space(trim_end(s).last()),
    decreases s.len(),
{
    if s.len() > 0 && is_space(s.last()) {
        lemma_trim_end_shape(s.drop_last());
        assert(s.drop_last().take(trim_end(s).len() as int) =~= s.take(trim_end(s).len() as int));
    } else {
        assert(s.take(s.len() as int) =~= s);
    }
}

/// Trimming twice is trimming once.
pub proof fn lemma_trim_idempotent(s: Seq<char>)
    ensures
        trim(trim(s)) == trim(s),
{
    let a = trim_start(s);
    let b = trim_end(a);
    lemma_trim_start_shape(s);
    lemma_trim_end_shape(a);
    lemma_trim_end_shape(b);
    if b.len() > 0 {
        assert(b[0] == a[0]);
    }
    assert(trim_start(b) == b);
    assert(trim_end(b) == b);
}

/// Splitting at `sep` and joining the pieces with `sep` gives the text back,
/// and no piece contains `sep`.
pub proof fn lemma_split_join(s: Seq<char>, sep: char)
    ensures
        join(split_on(s, sep), seq![sep]) == s,
        forall|i: int| 0 <= i < split_on(s, sep).len() ==> !(#[trigger] split_on(s, sep)[i]).contains(sep),
    decreases s.len(),
{
    lemma_split_on_nonempty(s, sep);
    if s.len() > 0 {
        let t = s.drop_last();
        let x = s.last();
        lemma_split_join(t, sep);
        lemma_split_on_nonempty(t, sep);
        let prev = split_on(t, sep);
        let cur = split_on(s, sep);
        if x == sep {
            assert(cur == prev.push(seq![]));
            assert(cur.drop_last() =~= prev);
            assert(join(cur, seq![sep]) =~= t + seq![sep]);
            assert forall|i: int| 0 <= i < cur.len() implies !(#[trigger] cur[i]).contains(sep) by {
                if i < prev.len() {
                    assert(cur[i] == prev[i]);
                }
            }
        } else {
            assert(cur.drop_last() =~= prev.drop_last());
            if prev.len() >= 2 {
                assert(join(prev, seq![sep]) == join(prev.drop_last(), seq![sep]) + seq![sep] + prev.last());
            } else {
                assert(prev.drop_last().len() == 0);
            }
            assert(join(cur, seq![sep]) =~= join(prev, seq![sep]).push(x));
            assert forall|i: int| 0 <= i < cur.len() implies !(#[trigger] cur[i]).contains(sep) by {
                if i < prev.len() - 1 {
                    assert(cur[i] == prev[i]);
                } else {
                    assert(cur[i] == prev[prev.len() - 1].push(x));
                    assert(!prev[prev.len() - 1].contains(sep));
                    if cur[i].contains(sep) {
                        let k = choose|k: int| 0 <= k < cur[i].len() && cur[i][k] == sep;
                        assert(prev[prev.len() - 1][k] == sep);
                    }
                }
            }
        }
        assert(t.push(x) =~= s);
    }
}

/// Every word is nonempty and holds no whitespace.
pub proof fn lemma_words_shape(s: Seq<char>)
    ensures
        forall|i: int|
            0 <= i < words(s).len() ==> (#[trigger] words(s)[i]).len() > 0 && forall|k: int|
                0 <= k < words(s)[i].len() ==> !is_space(words(s)[i][k]),
    decreases s.len(),
{
    if s.len() > 0 {
        lemma_words_shape(s.drop_last());
        let prev = words(s.drop_last());
        let w = words(s);
        assert forall|i: int| 0 <= i < w.len() implies (#[trigger] w[i]).len() > 0 && forall|k: int|
            0 <= k < w[i].len() ==> !is_space(w[i][k]) by {
            if i < prev.len() - 1 || (i < prev.len() && w.len() > prev.len()) || is_space(s.last()) {
                assert(w[i] == prev[i]);
            } else if w.len() > prev.len() {
                assert(w[i] == seq![s.last()]);
            } else {
                assert(w[i] == prev[i].push(s.last()));
                assert forall|k: int| 0 <= k < w[i].len() implies !is_space(w[i][k]) by {
                    if k < prev[i].len() {
                        assert(w[i][k] == prev[i][k]);
                    }
                }
            }
        }
    }
}

proof fn lemma_digits_reject(t: Seq<char>, max: nat, i: int)
    requires
        0 <= i < t.len(),
        !('0' <= t[i] && t[i] <= '9'),
    ensures
        parse_digits(t, max) is Err,
    decreases t.len(),
{
    if i < t.len() - 1 {
        assert(t.drop_last()[i] == t[i]);
        lemma_digits_reject(t.drop_last(), max, i);
    }
}

proof fn lemma_digits_bound(t: Seq<char>, max: nat)
    ensures
        parse_digits(t, max) matches Ok(v) ==> v <= max,
    decreases t.len(),
{
    if t.len() > 0 {
        lemma_digits_bound(t.drop_last(), max);
    }
}

/// A number is read only from digits, with at most one leading `+` before
/// them, and is never larger than the limit: a text holding any other
/// character (a `-`, a space, a letter, a second `+`, a lone `+`) or nothing is
/// refused.
pub proof fn lemma_parse_refuses(s: Seq<char>, max: nat, i: int)
    requires
        0 <= i < s.len(),
        !('0' <= s[i] && s[i] <= '9'),
        !(i == 0 && s[0] == '+' && s.len() > 1),
    ensures
        parse_unsigned(s, max) is Err,
        parse_unsigned(seq![], max) is Err,
{
    if s[0] == '+' && s.len() > 1 {
        assert(s.drop_first()[i - 1] == s[i]);
        lemma_digits_reject(s.drop_first(), max, i - 1);
    } else if !(s[0] == '+' || s[0] == '-') || s.len() > 1 {
        lemma_digits_reject(s, max, i);
    }
}

/// What is read is never larger than the limit.
pub proof fn lemma_parse_bound(s: Seq<char>, max: nat)
    ensures
        parse_unsigned(s, max) matches Ok(v) ==> v <= max,
{
    lemma_digits_bound(s, max);
    if s.len() > 0 {
        lemma_digits_bound(s.drop_first(), max);
    }
}

/// A text without `sep` is one piece.
pub proof fn lemma_split_single(a: Seq<char>, sep: char)
    requires
        !a.contains(sep),
    ensures
        split_on(a, sep) == seq![a],
    decreases a.len(),
{
    if a.len() > 0 {
        assert(!a.drop_last().contains(sep)) by {
            if a.drop_last().contains(sep) {
                let k = choose|k: int| 0 <= k < a.drop_last().len() && a.drop_last()[k] == sep;
                assert(a[k] == sep);
            }
        }
        lemma_split_single(a.drop_last(), sep);
        assert(a.last() == a[a.len() - 1]);
        assert(a.drop_last().push(a.last()) =~= a);
        assert(seq![a.drop_last()].drop_last().push(a.drop_last().push(a.last())) =~= seq![a]);
    } else {
        assert(a =~= seq![]);
    }
}

/// Two texts without `sep`, joined by one `sep`, split into those two pieces.
pub proof fn lemma_split_two(a: Seq<char>, b: Seq<char>, sep: char)
    requires
        !a.contains(sep),
        !b.contains(sep),
    ensures
        split_on(a.push(sep) + b, sep) == seq![a, b],
    decreases b.len(),
{
    if b.len() == 0 {
        lemma_split_single(a, sep);
        assert(a.push(sep) + b =~= a.push(sep));
        assert(a.push(sep).drop_last() =~= a);
        assert(b =~= Seq::<char>::empty());
        assert(seq![a].push(seq![]) =~= seq![a, b]);
    } else {
        let b2 = b.drop_last();
        assert(!b2.contains(sep)) by {
            if b2.contains(sep) {
                let k = choose|k: int| 0 <= k < b2.len() && b2[k] == sep;
                assert(b[k] == sep);
            }
        }
        lemma_split_two(a, b2, sep);
        assert((a.push(sep) + b).drop_last() =~= a.push(sep) + b2);
        assert((a.push(sep) + b).last() == b[b.len() - 1]);
        assert(b2.push(b.last()) =~= b);
        assert(seq![a, b2].drop_last().push(b2.push(b.last())) =~= seq![a, b]);
    }
}

/// The decimal text of a number is made of digits only.
pub proof fn lemma_decimal_digits(n: nat)
    ensures
        forall|k: int| 0 <= k < decimal(n).len() ==> '0' <= #[trigger] decimal(n)[k] <= '9',
        !decimal(n).contains(':'),
    decreases n,
{
    if n < 10 {
        lemma_digit_char(n);
    } else {
        lemma_decimal_digits(n / 10);
        lemma_digit_char(n % 10);
        let d = decimal(n);
        assert forall|k: int| 0 <= k < d.len() implies '0' <= #[trigger] d[k] <= '9' by {
            if k < decimal(n / 10).len() {
                assert(d[k] == decimal(n / 10)[k]);
            }
        }
    }
}

proof fn lemma_trim_start_split(s: Seq<char>)
    ensures
        exists|k: int|
            0 <= k <= s.len() && trim_start(s) == s.skip(k) && forall|j: int| 0 <= j < k ==> is_space(#[trigger] s[j]),
    decreases s.len(),
{
    if s.len() > 0 && is_space(s[0]) {
        lemma_trim_start_split(s.drop_first());
        let k = choose|k: int|
            0 <= k <= s.drop_first().len() && trim_start(s.drop_first()) == s.drop_first().skip(k)
                && forall|j: int| 0 <= j < k ==> is_space(#[trigger] s.drop_first()[j]);
        assert(s.drop_first().skip(k) =~= s.skip(k + 1));
        assert forall|j: int| 0 <= j < k + 1 implies is_space(#[trigger] s[j]) by {
            if j > 0 {
                assert(s[j] == s.drop_first()[j - 1]);
            }
        }
    } else {
        assert(s.skip(0) =~= s);
    }
}

proof fn lemma_trim_end_split(s: Seq<char>)
    ensures
        exists|k: int|
            0 <= k <= s.len() && trim_end(s) == s.take(k) && forall|j: int| k <= j < s.len() ==> is_space(#[trigger] s[j]),
    decreases s.len(),
{
    if s.len() > 0 && is_space(s.last()) {
        lemma_trim_end_split(s.drop_last());
        let k = choose|k: int|
            0 <= k <= s.drop_last().len() && trim_end(s.drop_last()) == s.drop_last().take(k)
                && forall|j: int| k <= j < s.drop_last().len() ==> is_space(#[trigger] s.drop_last()[j]);
        assert(s.drop_last().take(k) =~= s.take(k));
        assert forall|j: int| k <= j < s.len() implies is_space(#[trigger] s[j]) by {
            if j < s.len() - 1 {
                assert(s[j] == s.drop_last()[j]);
            }
        }
    } else {
        assert(s.take(s.len() as int) =~= s);
    }
}

/// Trimming removes whitespace at both ends and nothing else: the text is
/// some whitespace, the trimmed text, and some whitespace, and the trimmed
/// text neither starts nor ends with whitespace.
pub proof fn lemma_trim_shape(s: Seq<char>)
    ensures
        trim(s).len() > 0 ==> !is_space(trim(s)[0]) && !is_space(trim(s).last()),
        exists|a: int, b: int|
            0 <= a <= b <= s.len() && trim(s) == s.subrange(a, b) && (forall|j: int|
                0 <= j < a ==> is_space(#[trigger] s[j])) && (forall|j: int|
                b <= j < s.len() ==> is_space(#[trigger] s[j])),
{
    lemma_trim_start_shape(s);
    lemma_trim_end_shape(trim_start(s));
    lemma_trim_start_split(s);
    let a = choose|k: int|
        0 <= k <= s.len() && trim_start(s) == s.skip(k) && forall|j: int| 0 <= j < k ==> is_space(#[trigger] s[j]);
    let t = trim_start(s);
    lemma_trim_end_split(t);
    let c = choose|k: int|
        0 <= k <= t.len() && trim_end(t) == t.take(k) && forall|j: int| k <= j < t.len() ==> is_space(#[trigger] t[j]);
    let b = a + c;
    assert(trim(s) =~= s.subrange(a, b));
    assert forall|j: int| b <= j < s.len() implies is_space(#[trigger] s[j]) by {
        assert(s[j] == t[j - a]);
    }
    if trim(s).len() > 0 {
        assert(trim(s)[0] == t[0]);
    }
}

/// Spaces, tabs, line breaks and carriage returns are whitespace; ASCII
/// letters and digits, and the other printable ASCII characters, are not.
pub proof fn lemma_space_chars(c: char)
    ensures
        is_space(' ') && is_space('\t') && is_space('\n') && is_space('\r'),
        ('!' <= c <= '~') ==> !is_space(c),
{
}

/// Joining puts the separator between consecutive pieces only.
pub proof fn lemma_join_pieces(a: Seq<char>, b: Seq<char>, c: Seq<char>, sep: Seq<char>)
    ensures
        join(seq![], sep) == Seq::<char>::empty(),
        join(seq![a], sep) == a,
        join(seq![a, b], sep) == a + sep + b,
        join(seq![a, b, c], sep) == a + sep + b + sep + c,
{
    assert(seq![a, b].drop_last() =~= seq![a]);
    assert(seq![a, b, c].drop_last() =~= seq![a, b]);
    assert(seq![a, b].last() == b && seq![a, b, c].last() == c);
    assert(join(seq![a], sep) == a);
    assert(join(seq![a, b], sep) == a + sep + b);
    assert(join(seq![a, b, c], sep) == join(seq![a, b], sep) + sep + c);
    assert(a + sep + b + sep + c =~= (a + sep + b) + sep + c);
}

} // verus!
