//! Text that the progress monitor shows.
use vstd::prelude::*;
use crate::text::{
    decimal, occurs_at, parse_unsigned, parse_unsigned_exec, push_char, push_decimal, split_on,
    split_string, starts_with_str, words, words_of,
};

verus! {

/// A number of seconds as hours, minutes and seconds: "1h 1m 1s", "1m 30s" or
/// "30s", leaving out leading units that are zero.
pub open spec fn format_duration_spec(total_seconds: nat) -> Seq<char> {
    let hours = total_seconds / 3600;
    let minutes = (total_seconds % 3600) / 60;
    let seconds = total_seconds % 60;
    if hours > 0 {
        decimal(hours) + seq!['h', ' '] + decimal(minutes) + seq!['m', ' '] + decimal(seconds)
            + seq!['s']
    } else if minutes > 0 {
        decimal(minutes) + seq!['m', ' '] + decimal(seconds) + seq!['s']
    } else {
        decimal(seconds) + seq!['s']
    }
}

/// A duration of `h` hours, `m` minutes and `s` seconds (`m`, `s` below 60)
/// reads "{h}h {m}m {s}s" when `h > 0`, "{m}m {s}s" when only `h` is zero,
/// and "{s}s" otherwise.
pub proof fn lemma_duration_text(h: nat, m: nat, s: nat)
    requires
        m < 60,
        s < 60,
    ensures
        h > 0 ==> format_duration_spec(3600 * h + 60 * m + s) == decimal(h) + "h "@ + decimal(m)
            + "m "@ + decimal(s) + "s"@,
        h == 0 && m > 0 ==> format_duration_spec(60 * m + s) == decimal(m) + "m "@ + decimal(s)
            + "s"@,
        h == 0 && m == 0 ==> format_duration_spec(s) == decimal(s) + "s"@,
{
    reveal_strlit("h ");
    reveal_strlit("m ");
    reveal_strlit("s");
    let t = 3600 * h + 60 * m + s;
    assert(t / 3600 == h && (t % 3600) / 60 == m && t % 60 == s) by (nonlinear_arith)
        requires
            t == 3600 * h + 60 * m + s,
            m < 60,
            s < 60,
    ;
    let t2 = 60 * m + s;
    assert(t2 / 3600 == 0 && (t2 % 3600) / 60 == m && t2 % 60 == s) by (nonlinear_arith)
        requires
            t2 == 60 * m + s,
            m < 60,
            s < 60,
    ;
    assert(decimal(h) + seq!['h', ' '] + decimal(m) + seq!['m', ' '] + decimal(s) + seq!['s']
        =~= decimal(h) + "h "@ + decimal(m) + "m "@ + decimal(s) + "s"@);
    assert(decimal(m) + seq!['m', ' '] + decimal(s) + seq!['s'] =~= decimal(m) + "m "@ + decimal(s)
        + "s"@);
    assert(decimal(s) + seq!['s'] =~= decimal(s) + "s"@);
}

/// Formats a duration given in whole seconds (`Duration::as_secs`).
pub fn format_duration(total_seconds: u64) -> (r: String)
    ensures
        r@ == format_duration_spec(total_seconds as nat),
{
    let hours = total_seconds / 3600;
    let minutes = (total_seconds % 3600) / 60;
    let seconds = total_seconds % 60;
    let mut out = String::new();
    if hours > 0 {
        push_decimal(&mut out, hours as u128);
        push_char(&mut out, 'h');
        push_char(&mut out, ' ');
    }
    if hours > 0 || minutes > 0 {
        push_decimal(&mut out, minutes as u128);
        push_char(&mut out, 'm');
        push_char(&mut out, ' ');
    }
    push_decimal(&mut out, seconds as u128);
    push_char(&mut out, 's');
    assert(out@ =~= format_duration_spec(total_seconds as nat));
    out
}

/// The resident memory in kB that the first usable `VmRSS:` line of a list of
/// lines gives: the first line that starts with "VmRSS:" and whose second word
/// reads as a `u64`.
pub open spec fn resident_kb_in(lines: Seq<Seq<char>>) -> Option<nat>
    decreases lines.len(),
{
    if lines.len() == 0 {
        None
    } else {
        let w = words(lines[0]);
        if occurs_at(lines[0], "VmRSS:"@, 0) && w.len() >= 2 && parse_unsigned(w[1], u64::MAX as nat) is Ok {
            Some(parse_unsigned(w[1], u64::MAX as nat)->Ok_0)
        } else {
            resident_kb_in(lines.drop_first())
        }
    }
}

/// The resident memory in kB that a `/proc/self/status` text reports, read
/// line by line (a `\r` before a line break is whitespace and changes no word).
pub fn resident_memory_kb(status: &str) -> (r: Option<u64>)
    ensures
        match resident_kb_in(split_on(status@, '\n')) {
            Some(k) => r matches Some(x) && x == k,
            None => r is None,
        },
{
    let lines = split_string(status, '\n');
    let ghost lv = lines@.map_values(|x: String| x@);
    assert(lv.skip(0) =~= lv);
    let mut i: usize = 0;
    while i < lines.len()
        invariant
            i <= lines.len(),
            lv == lines@.map_values(|x: String| x@),
            lv == split_on(status@, '\n'),
            resident_kb_in(lv) == resident_kb_in(lv.skip(i as int)),
        decreases lines.len() - i,
    {
        let line = lines[i].as_str();
        assert(lv.skip(i as int)[0] == line@);
        assert(lv.skip(i as int).drop_first() =~= lv.skip(i + 1));
        if starts_with_str(line, "VmRSS:") {
            let parts = words_of(line);
            assert(parts@.map_values(|x: String| x@) == words(line@));
            if parts.len() >= 2 {
                assert(parts@.map_values(|x: String| x@)[1] == parts@[1]@);
                match parse_unsigned_exec(parts[1].as_str(), u64::MAX) {
                    Ok(kb) => {
                        return Some(kb);
                    },
                    Err(_) => {},
                }
            }
        }
        i = i + 1;
    }
    None
}

/// Whether `line` starts with "VmRSS:" and its second word reads as a `u64`.
pub open spec fn rss_line(line: Seq<char>) -> bool {
    line.len() >= 6 && line.subrange(0, 6) == "VmRSS:"@ && words(line).len() >= 2 && parse_unsigned(
        words(line)[1],
        u64::MAX as nat,
    ) is Ok
}

/// The memory read is the second word of the first line that starts with
/// "VmRSS:" and whose second word is a number; there is none when no line is
/// such.
pub proof fn lemma_resident_kb(lines: Seq<Seq<char>>)
    ensures
        resident_kb_in(lines) is None <==> forall|i: int| 0 <= i < lines.len() ==> !rss_line(#[trigger] lines[i]),
        resident_kb_in(lines) matches Some(k) ==> exists|i: int|
            0 <= i < lines.len() && rss_line(#[trigger] lines[i]) && parse_unsigned(
                words(lines[i])[1],
                u64::MAX as nat,
            ) == Ok::<nat, crate::errors::IntErrorKind>(k) && forall|j: int| 0 <= j < i ==> !rss_line(#[trigger] lines[j]),
    decreases lines.len(),
{
    reveal_strlit("VmRSS:");
    if lines.len() > 0 {
        let rest = lines.drop_first();
        lemma_resident_kb(rest);
        assert(rss_line(lines[0]) == (occurs_at(lines[0], "VmRSS:"@, 0) && words(lines[0]).len() >= 2
            && parse_unsigned(words(lines[0])[1], u64::MAX as nat) is Ok));
        if !rss_line(lines[0]) {
            if resident_kb_in(rest) is None {
                assert forall|i: int| 0 <= i < lines.len() implies !rss_line(#[trigger] lines[i]) by {
                    if i > 0 {
                        assert(lines[i] == rest[i - 1]);
                    }
                }
            } else {
                let k = resident_kb_in(rest)->Some_0;
                let i = choose|i: int|
                    0 <= i < rest.len() && rss_line(#[trigger] rest[i]) && parse_unsigned(
                        words(rest[i])[1],
                        u64::MAX as nat,
                    ) == Ok::<nat, crate::errors::IntErrorKind>(k) && forall|j: int| 0 <= j < i ==> !rss_line(#[trigger] rest[j]);
                assert(lines[i + 1] == rest[i]);
                assert forall|j: int| 0 <= j < i + 1 implies !rss_line(#[trigger] lines[j]) by {
                    if j > 0 {
                        assert(lines[j] == rest[j - 1]);
                    }
                }
            }
        }
    }
}

} // verus!
