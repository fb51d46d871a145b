use vstd::prelude::*;
use vstd::arithmetic::div_mod::{
    lemma_div_denominator, lemma_div_nonincreasing, lemma_fundamental_div_mod,
    lemma_mod_division_less_than_divisor,
};
use vstd::string::{StrSliceExecFns, StringExecFns};
use crate::errors::TaskError;

verus! {

// ---------------------------------------------------------------------------
// Decimal digits
// ---------------------------------------------------------------------------

/// Whether `c` is one of the ten decimal digit characters.
pub open spec fn is_digit_char(c: char) -> bool {
    48 <= c as int && c as int <= 57
}

/// The numeric value of a decimal digit character.
pub open spec fn digit_val(c: char) -> nat {
    (c as int - 48) as nat
}

/// Whether every character of `s` is a decimal digit.
pub open spec fn all_digits(s: Seq<char>) -> bool {
    forall|i: int| 0 <= i < s.len() ==> is_digit_char(#[trigger] s[i])
}

/// The number written by a (most-significant-first) run of digits;
/// the empty run writes zero.
pub open spec fn digits_val(s: Seq<char>) -> nat
    decreases s.len(),
{
    if s.len() == 0 {
        0
    } else {
        digits_val(s.drop_last()) * 10 + digit_val(s.last())
    }
}

/// The digit character for a value below ten.
pub open spec fn digit_char(d: nat) -> char {
    if d == 0 {
        '0'
    } else if d == 1 {
        '1'
    } else if d == 2 {
        '2'
    } else if d == 3 {
        '3'
    } else if d == 4 {
        '4'
    } else if d == 5 {
        '5'
    } else if d == 6 {
        '6'
    } else if d == 7 {
        '7'
    } else if d == 8 {
        '8'
    } else {
        '9'
    }
}

/// The decimal digits of `n`, most significant first, with no leading
/// zero except for `n == 0` itself.
pub open spec fn dec_digits_of(n: nat) -> Seq<char>
    decreases n,
{
    if n < 10 {
        seq![digit_char(n)]
    } else {
        dec_digits_of(n / 10).push(digit_char(n % 10))
    }
}

/// The digit character of a value below ten is a digit and reads back
/// as that value.
pub proof fn lemma_digit_char_val(d: nat)
    requires
        d < 10,
    ensures
        is_digit_char(digit_char(d)),
        digit_val(digit_char(d)) == d,
{
}

/// The decimal rendering of `n` is a nonempty digit run that reads back
/// as `n`.
pub proof fn lemma_dec_digits_of_correct(n: nat)
    ensures
        dec_digits_of(n).len() >= 1,
        all_digits(dec_digits_of(n)),
        digits_val(dec_digits_of(n)) == n,
    decreases n,
{
    if n < 10 {
        lemma_digit_char_val(n);
        let s = dec_digits_of(n);
        assert(s.drop_last() =~= Seq::<char>::empty());
        assert(digits_val(Seq::<char>::empty()) == 0);
        assert(digits_val(s) == n);
    } else {
        lemma_dec_digits_of_correct(n / 10);
        lemma_digit_char_val(n % 10);
        let p = dec_digits_of(n / 10);
        let c = digit_char(n % 10);
        assert(p.push(c).drop_last() =~= p);
        assert(p.push(c).last() == c);
        lemma_fundamental_div_mod(n as int, 10);
        assert(digits_val(p.push(c)) == n);
        assert forall|i: int| 0 <= i < p.push(c).len() implies is_digit_char(
            #[trigger] p.push(c)[i],
        ) by {
            if i < p.len() {
                assert(p.push(c)[i] == p[i]);
            }
        }
    }
}

/// The one-character string for a digit value.
fn digit_str(d: u64) -> (r: &'static str)
    requires
        d < 10,
    ensures
        r@ == seq![digit_char(d as nat)],
{
    let r: &'static str = if d == 0 {
        "0"
    } else if d == 1 {
        "1"
    } else if d == 2 {
        "2"
    } else if d == 3 {
        "3"
    } else if d == 4 {
        "4"
    } else if d == 5 {
        "5"
    } else if d == 6 {
        "6"
    } else if d == 7 {
        "7"
    } else if d == 8 {
        "8"
    } else {
        "9"
    };
    proof {
        reveal_strlit("0");
        reveal_strlit("1");
        reveal_strlit("2");
        reveal_strlit("3");
        reveal_strlit("4");
        reveal_strlit("5");
        reveal_strlit("6");
        reveal_strlit("7");
        reveal_strlit("8");
        reveal_strlit("9");
        assert(r@ =~= seq![digit_char(d as nat)]);
    }
    r
}

/// Appends the decimal digits of `n` to `out`.
pub(crate) fn push_decimal(out: &mut String, n: u64)
    ensures
        final(out)@ == old(out)@ + dec_digits_of(n as nat),
    decreases n,
{
    if n >= 10 {
        push_decimal(out, n / 10);
    }
    let d = digit_str(n % 10);
    out.append(d);
    proof {
        if n < 10 {
            assert((*out)@ =~= old(out)@ + dec_digits_of(n as nat));
        } else {
            assert(dec_digits_of(n as nat) == dec_digits_of((n as nat) / 10).push(
                digit_char((n as nat) % 10),
            ));
            assert((*out)@ =~= old(out)@ + dec_digits_of(n as nat));
        }
    }
}

// ---------------------------------------------------------------------------
// HH:MM:SS rendering
// ---------------------------------------------------------------------------

/// The decimal digits of `n`, padded on the left with one zero when `n`
/// has a single digit.
pub open spec fn spec_pad2(n: nat) -> Seq<char> {
    if n < 10 {
        seq!['0'] + dec_digits_of(n)
    } else {
        dec_digits_of(n)
    }
}

/// A seconds count rendered as zero-padded `HH:MM:SS`; hours are not
/// wrapped at twenty-four.
pub open spec fn spec_format_duration(d: u64) -> Seq<char> {
    spec_pad2((d as nat) / 3600) + seq![':'] + spec_pad2(((d as nat) / 60) % 60) + seq![':']
        + spec_pad2((d as nat) % 60)
}

/// Appends `n` to `out` as at least two decimal digits.
fn push_padded2(out: &mut String, n: u64)
    ensures
        final(out)@ == old(out)@ + spec_pad2(n as nat),
{
    proof {
        reveal_strlit("0");
    }
    if n < 10 {
        out.append("0");
    }
    push_decimal(out, n);
    proof {
        assert((*out)@ =~= old(out)@ + spec_pad2(n as nat));
    }
}

/// Renders a seconds count as zero-padded `HH:MM:SS`, hours unbounded.
pub fn format_duration(duration_seconds: u64) -> (r: String)
    ensures
        r@ == spec_format_duration(duration_seconds),
{
    let seconds: u64 = duration_seconds % 60;
    let minutes: u64 = (duration_seconds / 60) % 60;
    let hours: u64 = duration_seconds / 3600;
    let mut out = String::new();
    push_padded2(&mut out, hours);
    out.append(":");
    push_padded2(&mut out, minutes);
    out.append(":");
    push_padded2(&mut out, seconds);
    proof {
        reveal_strlit(":");
        assert(out@ =~= spec_format_duration(duration_seconds));
    }
    out
}

// ---------------------------------------------------------------------------
// Finding a marker character
// ---------------------------------------------------------------------------

/// The index of the first occurrence of `c` in `s`, or minus one when `c`
/// does not occur.
pub open spec fn first_index_of(s: Seq<char>, c: char) -> int
    decreases s.len(),
{
    if s.len() == 0 {
        -1
    } else if s[0] == c {
        0
    } else if first_index_of(s.drop_first(), c) == -1 {
        -1
    } else {
        1 + first_index_of(s.drop_first(), c)
    }
}

/// `first_index_of` names the smallest index holding `c`, or minus one.
proof fn lemma_first_index_of_props(s: Seq<char>, c: char)
    ensures
        first_index_of(s, c) == -1 ==> forall|i: int| 0 <= i < s.len() ==> s[i] != c,
        first_index_of(s, c) != -1 ==> 0 <= first_index_of(s, c) < s.len() && s[first_index_of(
            s,
            c,
        )] == c && forall|i: int| 0 <= i < first_index_of(s, c) ==> s[i] != c,
    decreases s.len(),
{
    if s.len() == 0 {
    } else if s[0] == c {
    } else {
        let rest = s.drop_first();
        lemma_first_index_of_props(rest, c);
        assert(forall|i: int| 0 <= i < rest.len() ==> rest[i] == s[i + 1]);
        if first_index_of(rest, c) == -1 {
            assert forall|i: int| 0 <= i < s.len() implies s[i] != c by {
                if i > 0 {
                    assert(s[i] == rest[i - 1]);
                }
            }
        } else {
            let k = first_index_of(rest, c);
            assert(s[k + 1] == rest[k]);
            assert forall|i: int| 0 <= i < k + 1 implies s[i] != c by {
                if i > 0 {
                    assert(s[i] == rest[i - 1]);
                }
            }
        }
    }
}

/// A character that occurs nowhere has no first index.
proof fn lemma_first_index_not_present(s: Seq<char>, c: char)
    requires
        forall|i: int| 0 <= i < s.len() ==> s[i] != c,
    ensures
        first_index_of(s, c) == -1,
{
    lemma_first_index_of_props(s, c);
    if first_index_of(s, c) != -1 {
        assert(s[first_index_of(s, c)] == c);
    }
}

/// An index holding `c` with no earlier occurrence is the first index.
proof fn lemma_first_index_at(s: Seq<char>, c: char, k: int)
    requires
        0 <= k < s.len(),
        s[k] == c,
        forall|i: int| 0 <= i < k ==> s[i] != c,
    ensures
        first_index_of(s, c) == k,
{
    lemma_first_index_of_props(s, c);
    let f = first_index_of(s, c);
    if f == -1 {
        assert(s[k] != c);
    } else if f < k {
        assert(s[f] != c);
    } else if f > k {
        assert(s[k] != c);
    }
}

/// The index of the first occurrence of `c` in `s`, if any.
fn find_char(s: &str, c: char) -> (r: Option<usize>)
    ensures
        match r {
            Some(i) => i as int == first_index_of(s@, c) && i < s@.len(),
            None => first_index_of(s@, c) == -1,
        },
{
    let n: usize = s.unicode_len();
    let mut i: usize = 0;
    while i < n
        invariant
            i <= n,
            n == s@.len(),
            forall|j: int| 0 <= j < i ==> s@[j] != c,
        decreases n - i,
    {
        let ch: char = s.get_char(i);
        if ch == c {
            proof {
                lemma_first_index_at(s@, c, i as int);
            }
            return Some(i);
        }
        i += 1;
    }
    proof {
        lemma_first_index_not_present(s@, c);
    }
    None
}

// ---------------------------------------------------------------------------
// Parsing a numeric segment
// ---------------------------------------------------------------------------

/// A usable numeric segment: nonempty, all digits, and small enough to
/// count seconds in a machine word.
pub open spec fn valid_num_seg(s: Seq<char>) -> bool {
    s.len() > 0 && all_digits(s) && digits_val(s) <= u64::MAX
}

/// Growing a digit run multiplies its value by ten and adds the new digit.
proof fn lemma_digits_val_step(s: Seq<char>, a: int, k: int)
    requires
        0 <= a <= k < s.len(),
    ensures
        digits_val(s.subrange(a, k + 1)) == digits_val(s.subrange(a, k)) * 10 + digit_val(s[k]),
{
    assert(s.subrange(a, k + 1).drop_last() =~= s.subrange(a, k));
    assert(s.subrange(a, k + 1).last() == s[k]);
}

/// A digit run is worth at least as much as any of its prefixes.
proof fn lemma_digits_val_mono(s: Seq<char>, a: int, m: int, b: int)
    requires
        0 <= a <= m <= b <= s.len(),
    ensures
        digits_val(s.subrange(a, b)) >= digits_val(s.subrange(a, m)),
    decreases b - m,
{
    if m < b {
        lemma_digits_val_step(s, a, m);
        lemma_digits_val_mono(s, a, m + 1, b);
    }
}

/// Reads the characters of `s` from `from` (inclusive) to `to`
/// (exclusive) as a decimal number.
fn parse_digits(s: &str, from: usize, to: usize) -> (r: Option<u64>)
    requires
        from <= to,
        to <= s@.len(),
    ensures
        ({
            let seg = s@.subrange(from as int, to as int);
            match r {
                Some(v) => valid_num_seg(seg) && v == digits_val(seg),
                None => !valid_num_seg(seg),
            }
        }),
{
    if from == to {
        return None;
    }
    let mut acc: u64 = 0;
    let mut i: usize = from;
    while i < to
        invariant
            from <= i <= to,
            from < to,
            to <= s@.len(),
            all_digits(s@.subrange(from as int, i as int)),
            acc == digits_val(s@.subrange(from as int, i as int)),
        decreases to - i,
    {
        let ch: char = s.get_char(i);
        let u: u32 = ch as u32;
        if u < 48 || u > 57 {
            proof {
                let seg = s@.subrange(from as int, to as int);
                assert(seg[i - from] == s@[i as int]);
                assert(!is_digit_char(seg[i - from]));
            }
            return None;
        }
        let d: u64 = (u - 48) as u64;
        proof {
            lemma_digits_val_step(s@, from as int, i as int);
        }
        let shifted: Option<u64> = acc.checked_mul(10);
        let next: Option<u64> = match shifted {
            Some(a) => a.checked_add(d),
            None => None,
        };
        match next {
            Some(v) => {
                acc = v;
            },
            None => {
                proof {
                    lemma_digits_val_mono(s@, from as int, i + 1, to as int);
                }
                return None;
            },
        }
        i += 1;
    }
    proof {
        let seg = s@.subrange(from as int, to as int);
        assert(seg.len() > 0);
    }
    Some(acc)
}

// ---------------------------------------------------------------------------
// The time token
// ---------------------------------------------------------------------------

/// Where the minutes segment of a token begins: right after the hour
/// marker, or at the front when there is no hour component.
pub open spec fn spec_minutes_start(s: Seq<char>) -> int {
    if first_index_of(s, 'h') == -1 {
        0
    } else {
        first_index_of(s, 'h') + 1
    }
}

/// The seconds count written by a time token, or nothing when the token
/// is malformed. A token holds an optional hours component ending in
/// `h`, then an optional minutes component ending in `m`; at least one
/// of the two markers must be present, each present segment must be a
/// nonempty digit run, and the whole count must fit in a machine word.
/// Characters after the last marker are ignored.
pub open spec fn spec_parse_token(s: Seq<char>) -> Option<u64> {
    let hi = first_index_of(s, 'h');
    let mi = first_index_of(s, 'm');
    if hi == -1 && mi == -1 {
        None
    } else if hi != -1 && !valid_num_seg(s.subrange(0, hi)) {
        None
    } else if mi != -1 && !(spec_minutes_start(s) <= mi && valid_num_seg(
        s.subrange(spec_minutes_start(s), mi),
    )) {
        None
    } else {
        let h: nat = if hi == -1 {
            0
        } else {
            digits_val(s.subrange(0, hi))
        };
        let m: nat = if mi == -1 {
            0
        } else {
            digits_val(s.subrange(spec_minutes_start(s), mi))
        };
        if h * 3600 + m * 60 <= u64::MAX {
            Some((h * 3600 + m * 60) as u64)
        } else {
            None
        }
    }
}

/// Reads a compact time token such as `1h30m`, `2h` or `45m` as a
/// seconds count; a malformed token is a recoverable error, never a
/// panic.
pub fn parse_time_string_to_seconds(input: &str) -> (r: Result<u64, TaskError>)
    ensures
        match spec_parse_token(input@) {
            Some(v) => r == Ok::<u64, TaskError>(v),
            None => r == Err::<u64, TaskError>(TaskError::InvalidFormat),
        },
{
    let n: usize = input.unicode_len();
    let hi: Option<usize> = find_char(input, 'h');
    let mi: Option<usize> = find_char(input, 'm');
    proof {
        assert(n == input@.len());
    }
    if hi.is_none() && mi.is_none() {
        return Err(TaskError::InvalidFormat);
    }
    let mut hours: u64 = 0;
    if let Some(h_idx) = hi {
        match parse_digits(input, 0, h_idx) {
            Some(v) => {
                hours = v;
            },
            None => {
                return Err(TaskError::InvalidFormat);
            },
        }
    }
    let m_start: usize = match hi {
        Some(h_idx) => h_idx + 1,
        None => 0,
    };
    let mut minutes: u64 = 0;
    if let Some(m_idx) = mi {
        if m_idx < m_start {
            return Err(TaskError::InvalidFormat);
        }
        match parse_digits(input, m_start, m_idx) {
            Some(v) => {
                minutes = v;
            },
            None => {
                return Err(TaskError::InvalidFormat);
            },
        }
    }
    let hours_secs: u64 = match hours.checked_mul(3600) {
        Some(v) => v,
        None => {
            return Err(TaskError::InvalidFormat);
        },
    };
    let minutes_secs: u64 = match minutes.checked_mul(60) {
        Some(v) => v,
        None => {
            return Err(TaskError::InvalidFormat);
        },
    };
    match hours_secs.checked_add(minutes_secs) {
        Some(v) => Ok(v),
        None => Err(TaskError::InvalidFormat),
    }
}

// ---------------------------------------------------------------------------
// Rendering a token
// ---------------------------------------------------------------------------

/// The compact token for a seconds count, written from its whole hours
/// and leftover whole minutes; seconds below one minute are dropped.
pub open spec fn spec_render_token(seconds: u64) -> Seq<char> {
    let h = (seconds as nat) / 3600;
    let m = ((seconds as nat) / 60) % 60;
    if h > 0 && m > 0 {
        dec_digits_of(h) + seq!['h'] + dec_digits_of(m) + seq!['m']
    } else if h > 0 {
        dec_digits_of(h) + seq!['h']
    } else {
        dec_digits_of(m) + seq!['m']
    }
}

/// Writes a seconds count as a compact time token.
pub fn render_as_token(seconds: u64) -> (r: String)
    ensures
        r@ == spec_render_token(seconds),
{
    let h: u64 = seconds / 3600;
    let m: u64 = (seconds / 60) % 60;
    let mut out = String::new();
    proof {
        reveal_strlit("h");
        reveal_strlit("m");
    }
    if h > 0 {
        push_decimal(&mut out, h);
        out.append("h");
    }
    if h == 0 || m > 0 {
        push_decimal(&mut out, m);
        out.append("m");
    }
    proof {
        assert(out@ =~= spec_render_token(seconds));
    }
    out
}

/// No decimal digit is one of the token markers.
proof fn lemma_digits_not_markers(s: Seq<char>)
    requires
        all_digits(s),
    ensures
        forall|i: int| 0 <= i < s.len() ==> s[i] != 'h' && s[i] != 'm',
{
    assert forall|i: int| 0 <= i < s.len() implies s[i] != 'h' && s[i] != 'm' by {
        assert(is_digit_char(s[i]));
    }
}

/// Law: a seconds count that is a whole number of minutes survives the
/// round trip through the token codec.
pub proof fn lemma_parse_render_round_trip(s: u64)
    requires
        s % 60 == 0,
    ensures
        spec_parse_token(spec_render_token(s)) == Some(s),
{
    let sn = s as nat;
    let h = sn / 3600;
    let m = (sn / 60) % 60;
    lemma_dec_digits_of_correct(h);
    lemma_dec_digits_of_correct(m);
    let dh = dec_digits_of(h);
    let dm = dec_digits_of(m);
    lemma_digits_not_markers(dh);
    lemma_digits_not_markers(dm);

    // 3600 * h + 60 * m == s
    lemma_div_denominator(sn as int, 60, 60);
    lemma_fundamental_div_mod(sn as int, 60);
    lemma_fundamental_div_mod((sn / 60) as int, 60);
    assert(sn / 60 == 60 * h + m);
    assert(sn == 3600 * h + 60 * m);
    lemma_div_nonincreasing(sn as int, 3600);
    lemma_mod_division_less_than_divisor((sn / 60) as int, 60);

    let t = spec_render_token(s);
    if h > 0 && m > 0 {
        let hL = dh.len() as int;
        let mL = hL + 1 + dm.len() as int;
        assert(t[hL] == 'h');
        assert forall|i: int| 0 <= i < hL implies t[i] != 'h' by {
            assert(t[i] == dh[i]);
        }
        lemma_first_index_at(t, 'h', hL);
        assert(t[mL] == 'm');
        assert forall|i: int| 0 <= i < mL implies t[i] != 'm' by {
            if i < hL {
                assert(t[i] == dh[i]);
            } else if i > hL {
                assert(t[i] == dm[i - hL - 1]);
            }
        }
        lemma_first_index_at(t, 'm', mL);
        assert(t.subrange(0, hL) =~= dh);
        assert(t.subrange(hL + 1, mL) =~= dm);
    } else if h > 0 {
        let hL = dh.len() as int;
        assert(t[hL] == 'h');
        assert forall|i: int| 0 <= i < hL implies t[i] != 'h' by {
            assert(t[i] == dh[i]);
        }
        lemma_first_index_at(t, 'h', hL);
        assert forall|i: int| 0 <= i < t.len() implies t[i] != 'm' by {
            if i < hL {
                assert(t[i] == dh[i]);
            }
        }
        lemma_first_index_not_present(t, 'm');
        assert(t.subrange(0, hL) =~= dh);
    } else {
        let mL = dm.len() as int;
        assert(t[mL] == 'm');
        assert forall|i: int| 0 <= i < t.len() implies t[i] != 'h' by {
            if i < mL {
                assert(t[i] == dm[i]);
            }
        }
        lemma_first_index_not_present(t, 'h');
        assert forall|i: int| 0 <= i < mL implies t[i] != 'm' by {
            assert(t[i] == dm[i]);
        }
        lemma_first_index_at(t, 'm', mL);
        assert(t.subrange(0, mL) =~= dm);
    }
}

} // verus!
