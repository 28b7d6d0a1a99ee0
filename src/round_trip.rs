//! Reading back the text that the formatting functions write.

use crate::datetime::{lemma_valid_seconds_in_range, DateTime};
use crate::format::{
    lemma_decimal_len_bound,
    date_time_text,
    decimal_text,
    digit_char,
    duration_text,
    fraction_text,
    padded_text,
    year_text,
};
use crate::text::{
    ascii_bytes,
    decimal,
    digit_value,
    digits_end,
    fraction_nanos,
    is_digit,
    pow10,
    spec_char,
    spec_i64_of,
    spec_nanos,
    spec_char_ignore_case,
    spec_date,
    spec_offset,
    spec_offset_timestamp,
    spec_parse_duration,
    spec_parse_timestamp,
    spec_time,
    spec_two_digits,
    spec_year,
};
use crate::time::{lemma_duration_normalize_idempotent, Duration, Timestamp};
use vstd::prelude::*;
use vstd::utf8::is_ascii_chars;

verus! {

/// Every character of `t` is an ASCII decimal digit.
pub open spec fn char_digits(t: Seq<char>) -> bool {
    forall|i: int| 0 <= i < t.len() ==> '0' <= #[trigger] t[i] <= '9'
}

/// The decimal value of a text of digits.
pub open spec fn char_decimal(t: Seq<char>) -> int
    decreases t.len(),
{
    if t.len() == 0 {
        0
    } else {
        char_decimal(t.drop_last()) * 10 + (t.last() as int - 48)
    }
}

/// The bytes of `s` from `i` on spell out the ASCII text `t`.
pub open spec fn spells(s: Seq<u8>, i: int, t: Seq<char>) -> bool {
    &&& 0 <= i
    &&& i + t.len() <= s.len()
    &&& forall|k: int| 0 <= k < t.len() ==> s[i + k] == (#[trigger] t[k]) as u8
}

proof fn lemma_decimal_text(n: nat)
    ensures
        char_digits(decimal_text(n)),
        decimal_text(n).len() >= 1,
        char_decimal(decimal_text(n)) == n,
    decreases n,
{
    let t = decimal_text(n);
    if n >= 10 {
        lemma_decimal_text(n / 10);
        assert(t.drop_last() =~= decimal_text(n / 10));
        assert(t.last() == digit_char((n % 10) as int));
        assert((((n % 10) + 48) as char) as int == (n % 10) + 48);
        assert(t.last() as int == (n % 10) + 48);
        assert(char_decimal(t) == char_decimal(t.drop_last()) * 10 + (t.last() as int - 48));
    } else {
        assert(t.drop_last() =~= Seq::<char>::empty());
        assert(((n + 48) as char) as int == n + 48);
        assert(t.last() as int == n + 48);
        assert(char_decimal(t) == char_decimal(t.drop_last()) * 10 + (t.last() as int - 48));
    }
    assert forall|i: int| 0 <= i < t.len() implies '0' <= #[trigger] t[i] <= '9' by {
        if n >= 10 && i < t.len() - 1 {
            assert(t[i] == decimal_text(n / 10)[i]);
        }
    }
}

proof fn lemma_zeros_decimal(z: nat, t: Seq<char>)
    ensures
        char_decimal(Seq::new(z, |i: int| '0') + t) == char_decimal(t),
    decreases t.len() + z,
{
    let zs = Seq::new(z, |i: int| '0');
    if t.len() > 0 {
        assert((zs + t).drop_last() =~= zs + t.drop_last());
        lemma_zeros_decimal(z, t.drop_last());
    } else if z > 0 {
        assert((zs + t).drop_last() =~= Seq::new((z - 1) as nat, |i: int| '0') + t);
        lemma_zeros_decimal((z - 1) as nat, t);
    } else {
        assert(zs + t =~= t);
    }
}

proof fn lemma_padded_text(n: nat, w: nat)
    requires
        n < pow10(w),
        w >= 1,
    ensures
        char_digits(padded_text(n, w)),
        padded_text(n, w).len() == w,
        char_decimal(padded_text(n, w)) == n,
{
    lemma_decimal_text(n);
    lemma_decimal_len_bound(n, w);
    let d = decimal_text(n);
    if d.len() < w {
        lemma_zeros_decimal((w - d.len()) as nat, d);
    }
}

/// Digits spelled out in bytes have the same decimal value.
proof fn lemma_spelled_digits(s: Seq<u8>, i: int, t: Seq<char>)
    requires
        spells(s, i, t),
        char_digits(t),
    ensures
        forall|x: int| i <= x < i + t.len() ==> is_digit(#[trigger] s[x]),
        decimal(s, i, i + t.len()) == char_decimal(t),
    decreases t.len(),
{
    if t.len() > 0 {
        let u = t.drop_last();
        assert(spells(s, i, u));
        lemma_spelled_digits(s, i, u);
        assert(s[i + t.len() - 1] == t[t.len() - 1] as u8);
        assert forall|x: int| i <= x < i + t.len() implies is_digit(#[trigger] s[x]) by {
            if x < i + u.len() {
            } else {
                assert(s[i + (x - i)] == t[x - i] as u8);
            }
        }
    }
}

/// A run of `k` digits that ends the text or a non-digit ends.
proof fn lemma_digits_end_at(s: Seq<u8>, i: int, k: int)
    requires
        0 <= i,
        0 <= k,
        i + k <= s.len(),
        forall|x: int| i <= x < i + k ==> is_digit(#[trigger] s[x]),
        i + k == s.len() || !is_digit(s[i + k]),
    ensures
        digits_end(s, i) == i + k,
    decreases k,
{
    if k > 0 {
        lemma_digits_end_at(s, i + 1, k - 1);
    }
}

/// Splits a spelled out text in two.
proof fn lemma_spells_concat(s: Seq<u8>, i: int, a: Seq<char>, b: Seq<char>)
    requires
        spells(s, i, a + b),
    ensures
        spells(s, i, a),
        spells(s, i + a.len(), b),
{
    assert forall|k: int| 0 <= k < a.len() implies s[i + k] == (#[trigger] a[k]) as u8 by {
        assert((a + b)[k] == a[k]);
    }
    assert forall|k: int| 0 <= k < b.len() implies s[i + a.len() + k] == (#[trigger] b[k]) as u8 by {
        assert((a + b)[a.len() + k] == b[k]);
    }
}

/// A fraction `.` and `w` digits of `q` reads back as `q * 10^(9 - w)`.
proof fn lemma_fraction_digits(s: Seq<u8>, j: int, q: nat, w: nat)
    requires
        1 <= w <= 9,
        q < pow10(w),
        spells(s, j, seq!['.'] + padded_text(q, w)),
        j + 1 + w < s.len() <= 4_294_967_295,
        !is_digit(s[j + 1 + w]),
    ensures
        spec_nanos(s, j) == Some(((q * pow10((9 - w) as nat)) as u32, (j + 1 + w) as usize)),
{
    let p = padded_text(q, w);
    lemma_padded_text(q, w);
    lemma_spells_concat(s, j, seq!['.'], p);
    assert(seq!['.'][0] == '.');
    assert(s[j] == 46u8);
    lemma_spelled_digits(s, j + 1, p);
    lemma_digits_end_at(s, j + 1, w as int);
}

/// The fraction written for `nanos` reads back as `nanos`, and is followed
/// by the byte after it.
proof fn lemma_fraction(s: Seq<u8>, j: int, nanos: nat)
    requires
        nanos < 1_000_000_000,
        spells(s, j, fraction_text(nanos)),
        j + fraction_text(nanos).len() < s.len() <= 4_294_967_295,
        !is_digit(s[j + fraction_text(nanos).len()]),
        s[j + fraction_text(nanos).len()] != 46,
    ensures
        spec_nanos(s, j) == Some((nanos as u32, (j + fraction_text(nanos).len()) as usize)),
        fraction_text(nanos).len() <= 10,
{
    reveal_with_fuel(pow10, 10);
    if nanos == 0 {
        assert(fraction_text(nanos).len() == 0);
        assert(spec_char(s, j, 46) is None);
    } else if nanos % 1_000_000 == 0 {
        assert(pow10(6) == 1_000_000);
        assert(pow10(3) == 1000);
        assert((nanos / 1_000_000) * pow10(6) == nanos);
        lemma_padded_text(nanos / 1_000_000, 3);
        lemma_fraction_digits(s, j, nanos / 1_000_000, 3);
    } else if nanos % 1000 == 0 {
        assert(pow10(3) == 1000);
        assert(pow10(6) == 1_000_000);
        assert((nanos / 1000) * pow10(3) == nanos);
        lemma_padded_text(nanos / 1000, 6);
        lemma_fraction_digits(s, j, nanos / 1000, 6);
    } else {
        assert(pow10(0) == 1);
        assert(pow10(9) == 1_000_000_000);
        assert(nanos * pow10(0) == nanos);
        lemma_padded_text(nanos, 9);
        lemma_fraction_digits(s, j, nanos, 9);
    }
}

proof fn lemma_ascii_concat(a: Seq<char>, b: Seq<char>)
    requires
        is_ascii_chars(a),
        is_ascii_chars(b),
    ensures
        is_ascii_chars(a + b),
{
    assert forall|i: int| 0 <= i < (a + b).len() implies '\0' <= #[trigger] (a + b)[i] <= '\u{7f}' by {
        if i < a.len() {
            assert((a + b)[i] == a[i]);
        } else {
            assert((a + b)[i] == b[i - a.len()]);
        }
    }
}

proof fn lemma_fraction_ascii(nanos: nat)
    requires
        nanos < 1_000_000_000,
    ensures
        fraction_text(nanos).len() <= 10,
        is_ascii_chars(fraction_text(nanos)),
        fraction_text(nanos).len() == 0 || fraction_text(nanos)[0] == '.',
{
    let f = fraction_text(nanos);
    if nanos != 0 {
        let q = f.subrange(1, f.len() as int);
        let (n, w): (nat, nat) = if nanos % 1_000_000 == 0 {
            ((nanos / 1_000_000) as nat, 3)
        } else if nanos % 1000 == 0 {
            ((nanos / 1000) as nat, 6)
        } else {
            (nanos, 9)
        };
        lemma_decimal_text(n);
        assert(pow10(9) == 1_000_000_000 && pow10(6) == 1_000_000 && pow10(3) == 1000) by {
            reveal_with_fuel(pow10, 10);
        }
        lemma_padded_text(n, w);
        let d = decimal_text(n);
        assert forall|i: int| 0 <= i < f.len() implies '\0' <= #[trigger] f[i] <= '\u{7f}' by {
            if i > 0 && d.len() < w && i - 1 >= w - d.len() {
                assert(f[i] == d[i - 1 - (w - d.len())]);
            } else if i > 0 && d.len() >= w {
                assert(f[i] == d[i - 1]);
            }
        }
    }
}

/// The text written for a duration reads back as the normalized duration,
/// where its seconds are not `i64::MIN`, whose magnitude has no `i64`.
/// Reads a duration text from its parts: an optional `-`, a run of digits
/// worth `secs`, a fraction worth `nanos`, and a final `s`.
proof fn lemma_duration_parts(s: Seq<u8>, negative: bool, secs: int, nanos: int, j: int, k: int)
    requires
        0 <= secs <= i64::MAX,
        0 <= nanos < 1_000_000_000,
        s.len() > 0,
        negative <==> s[0] == 45,
        digits_end(s, if negative { 1int } else { 0int }) == j,
        spec_i64_of(s, if negative { 1int } else { 0int }, j) == Some(secs as i64),
        spec_nanos(s, j) == Some((nanos as u32, k as usize)),
        0 <= k < s.len() <= 4_294_967_295,
        s[k] == 115,
        k + 1 == s.len(),
    ensures
        spec_parse_duration(s) == if negative {
            Some(Duration { seconds: -secs as i64, nanos: -nanos as i32 })
        } else {
            Some(Duration { seconds: secs as i64, nanos: nanos as i32 })
        },
{
}

#[verifier::rlimit(50)]
pub proof fn lemma_duration_text_round_trip(d: Duration)
    requires
        d.spec_normalized().seconds != i64::MIN,
    ensures
        is_ascii_chars(duration_text(d.spec_normalized())),
        spec_parse_duration(ascii_bytes(duration_text(d.spec_normalized())))
            == Some(d.spec_normalized()),
{
    let n = d.spec_normalized();
    lemma_duration_normalize_idempotent(d);
    let negative = n.seconds < 0 || n.nanos < 0;
    let secs: int = if n.seconds < 0 { -n.seconds } else { n.seconds as int };
    let nanos: int = if n.nanos < 0 { -n.nanos } else { n.nanos as int };
    let sign: Seq<char> = if negative { seq!['-'] } else { seq![] };
    let dt = decimal_text(secs as nat);
    let f = fraction_text(nanos as nat);
    let t = duration_text(n);
    assert(t == sign + dt + f + seq!['s']);
    let s = ascii_bytes(t);
    assert(spells(s, 0, t));
    lemma_spells_concat(s, 0, sign + dt + f, seq!['s']);
    lemma_spells_concat(s, 0, sign + dt, f);
    lemma_spells_concat(s, 0, sign, dt);
    lemma_decimal_text(secs as nat);
    assert(pow10(20) == 100_000_000_000_000_000_000) by {
        reveal_with_fuel(pow10, 21);
    }
    lemma_decimal_len_bound(secs as nat, 20);
    lemma_spelled_digits(s, sign.len() as int, dt);
    let p = sign.len() as int;
    let j = p + dt.len();
    assert(seq!['s'][0] == 's');
    assert(s[j + f.len()] == 115u8);
    lemma_fraction_ascii(nanos as nat);
    if nanos == 0 {
        assert(f.len() == 0);
    } else {
        assert(f[0] == '.');
        assert(s[j] == 46u8);
    }
    lemma_digits_end_at(s, p, dt.len() as int);
    lemma_fraction(s, j, nanos as nat);
    assert(spec_i64_of(s, p, j) == Some(secs as i64));
    lemma_fraction_ascii(nanos as nat);
    assert(is_ascii_chars(sign));
    assert(is_ascii_chars(seq!['s']));
    lemma_ascii_concat(sign, dt);
    lemma_ascii_concat(sign + dt, f);
    lemma_ascii_concat(sign + dt + f, seq!['s']);
    if negative {
        assert(sign[0] == '-');
        assert(s[0] == 45u8);
    } else {
        assert(s[0] == dt[0] as u8);
    }
    assert(j + f.len() + 1 == s.len());
    lemma_duration_parts(s, negative, secs, nanos, j, j + f.len());
}


proof fn lemma_padded_text_any(n: nat, w: nat)
    ensures
        char_digits(padded_text(n, w)),
        padded_text(n, w).len() >= w,
        padded_text(n, w).len() >= 1,
        char_decimal(padded_text(n, w)) == n,
        is_ascii_chars(padded_text(n, w)),
{
    lemma_decimal_text(n);
    let d = decimal_text(n);
    if d.len() < w {
        lemma_zeros_decimal((w - d.len()) as nat, d);
    }
    let p = padded_text(n, w);
    assert forall|i: int| 0 <= i < p.len() implies '0' <= #[trigger] p[i] <= '9' by {
        if d.len() < w && i >= w - d.len() {
            assert(p[i] == d[i - (w - d.len())]);
        }
    }
    assert forall|i: int| 0 <= i < p.len() implies '\0' <= #[trigger] p[i] <= '\u{7f}' by {
        assert('0' <= p[i] <= '9');
    }
}

proof fn lemma_decimal_len_lower(n: nat, k: nat)
    requires
        n >= pow10(k),
    ensures
        decimal_text(n).len() >= k + 1,
    decreases k,
{
    if k > 0 {
        assert(pow10(k) == 10 * pow10((k - 1) as nat));
        assert(pow10((k - 1) as nat) >= 1) by {
            lemma_pow10_positive((k - 1) as nat);
        }
        lemma_decimal_len_lower(n / 10, (k - 1) as nat);
    } else {
        lemma_decimal_text(n);
    }
}

proof fn lemma_pow10_positive(k: nat)
    ensures
        pow10(k) >= 1,
    decreases k,
{
    if k > 0 {
        lemma_pow10_positive((k - 1) as nat);
    }
}

/// Two digits of `n` at `i` read back as `n`.
proof fn lemma_two_digits_at(s: Seq<u8>, i: int, n: nat)
    requires
        n < 100,
        spells(s, i, padded_text(n, 2)),
        s.len() <= 4_294_967_295,
    ensures
        spec_two_digits(s, i) == Some((n as u8, (i + 2) as usize)),
        padded_text(n, 2).len() == 2,
        is_ascii_chars(padded_text(n, 2)),
{
    assert(pow10(2) == 100) by {
        reveal_with_fuel(pow10, 3);
    }
    lemma_padded_text(n, 2);
    lemma_padded_text_any(n, 2);
    lemma_spelled_digits(s, i, padded_text(n, 2));
    reveal_with_fuel(decimal, 3);
}

/// The year written for `year` reads back as `year`.
proof fn lemma_year_at(s: Seq<u8>, year: int)
    requires
        -300_000_000_000 <= year <= 300_000_000_000,
        spells(s, 0, year_text(year)),
        year_text(year).len() < s.len() <= 4_294_967_295,
        !is_digit(s[year_text(year).len() as int]),
    ensures
        spec_year(s, 0) == Some((year as i64, year_text(year).len() as usize)),
        is_ascii_chars(year_text(year)),
        year_text(year).len() <= 20,
{
    let y = year_text(year);
    assert(pow10(12) == 1_000_000_000_000) by {
        reveal_with_fuel(pow10, 13);
    }
    if year > 9999 {
        let d = decimal_text(year as nat);
        assert(pow10(4) == 10000) by {
            reveal_with_fuel(pow10, 5);
        }
        lemma_decimal_len_lower(year as nat, 4);
        lemma_decimal_len_bound(year as nat, 12);
        lemma_padded_text_any(year as nat, 0);
        assert(padded_text(year as nat, 0) == d);
        lemma_spells_concat(s, 0, seq!['+'], d);
        assert(seq!['+'][0] == '+');
        assert(s[0] == 43u8);
        lemma_spelled_digits(s, 1, d);
        lemma_digits_end_at(s, 1, d.len() as int);
        lemma_ascii_concat(seq!['+'], d);
    } else if year < 0 {
        let d = padded_text((-year) as nat, 4);
        lemma_padded_text_any((-year) as nat, 4);
        lemma_decimal_len_bound((-year) as nat, 12);
        assert(d.len() <= 12);
        lemma_spells_concat(s, 0, seq!['-'], d);
        assert(seq!['-'][0] == '-');
        assert(s[0] == 45u8);
        lemma_spelled_digits(s, 1, d);
        lemma_digits_end_at(s, 1, d.len() as int);
        lemma_ascii_concat(seq!['-'], d);
    } else {
        assert(pow10(4) == 10000) by {
            reveal_with_fuel(pow10, 5);
        }
        lemma_padded_text(year as nat, 4);
        lemma_padded_text_any(year as nat, 4);
        lemma_spelled_digits(s, 0, y);
        reveal_with_fuel(decimal, 5);
        assert(s[0] != 43 && s[0] != 45);
    }
}

proof fn lemma_year_text_len(year: int)
    requires
        -300_000_000_000 <= year <= 300_000_000_000,
    ensures
        year_text(year).len() <= 20,
{
    assert(pow10(12) == 1_000_000_000_000) by {
        reveal_with_fuel(pow10, 13);
    }
    if year > 9999 {
        lemma_decimal_len_bound(year as nat, 12);
    } else if year < 0 {
        lemma_decimal_len_bound((-year) as nat, 12);
    } else {
        lemma_decimal_len_bound(year as nat, 12);
    }
}

/// Splits off the last piece of a spelled out text.
proof fn lemma_spells_last(s: Seq<u8>, a: Seq<char>, b: Seq<char>)
    requires
        spells(s, 0, a + b),
    ensures
        spells(s, 0, a),
        spells(s, a.len() as int, b),
{
    lemma_spells_concat(s, 0, a, b);
}

/// A one character piece that is spelled out.
proof fn lemma_char_at(s: Seq<u8>, i: int, c: char)
    requires
        spells(s, i, seq![c]),
    ensures
        s[i] == c as u8,
{
    assert(seq![c][0] == c);
}

/// The RFC 3339 text of a valid date and time reads back as its timestamp.
#[verifier::rlimit(100)]
pub proof fn lemma_date_time_text_round_trip(dt: DateTime)
    requires
        dt.spec_is_valid(),
    ensures
        is_ascii_chars(date_time_text(dt)),
        spec_parse_timestamp(ascii_bytes(date_time_text(dt))) == Some(
            Timestamp { seconds: dt.spec_seconds() as i64, nanos: dt.nanos as i32 },
        ),
{
    let y = year_text(dt.year as int);
    let mo = padded_text(dt.month as nat, 2);
    let da = padded_text(dt.day as nat, 2);
    let ho = padded_text(dt.hour as nat, 2);
    let mi = padded_text(dt.minute as nat, 2);
    let se = padded_text(dt.second as nat, 2);
    let f = fraction_text(dt.nanos as nat);
    let dash = seq!['-'];
    let colon = seq![':'];
    let piece1 = y + dash;
    let piece2 = piece1 + mo;
    let piece3 = piece2 + dash;
    let piece4 = piece3 + da;
    let piece5 = piece4 + seq!['T'];
    let piece6 = piece5 + ho;
    let piece7 = piece6 + colon;
    let piece8 = piece7 + mi;
    let piece9 = piece8 + colon;
    let piece10 = piece9 + se;
    let piece11 = piece10 + f;
    let t = piece11 + seq!['Z'];
    assert(t == date_time_text(dt));
    let s = ascii_bytes(t);
    assert(spells(s, 0, t));
    lemma_spells_last(s, piece11, seq!['Z']);
    lemma_spells_last(s, piece10, f);
    lemma_spells_last(s, piece9, se);
    lemma_spells_last(s, piece8, colon);
    lemma_spells_last(s, piece7, mi);
    lemma_spells_last(s, piece6, colon);
    lemma_spells_last(s, piece5, ho);
    lemma_spells_last(s, piece4, seq!['T']);
    lemma_spells_last(s, piece3, da);
    lemma_spells_last(s, piece2, dash);
    lemma_spells_last(s, piece1, mo);
    lemma_spells_last(s, y, dash);
    lemma_fraction_ascii(dt.nanos as nat);
    lemma_padded_text_any(dt.month as nat, 2);
    lemma_padded_text_any(dt.day as nat, 2);
    lemma_padded_text_any(dt.hour as nat, 2);
    lemma_padded_text_any(dt.minute as nat, 2);
    lemma_padded_text_any(dt.second as nat, 2);
    assert(pow10(2) == 100) by {
        reveal_with_fuel(pow10, 3);
    }
    lemma_padded_text(dt.month as nat, 2);
    lemma_padded_text(dt.day as nat, 2);
    lemma_padded_text(dt.hour as nat, 2);
    lemma_padded_text(dt.minute as nat, 2);
    lemma_padded_text(dt.second as nat, 2);
    let yl = y.len() as int;
    lemma_year_text_len(dt.year as int);
    lemma_char_at(s, yl, '-');
    lemma_char_at(s, yl + 3, '-');
    lemma_char_at(s, yl + 6, 'T');
    lemma_char_at(s, yl + 9, ':');
    lemma_char_at(s, yl + 12, ':');
    lemma_char_at(s, yl + 15 + f.len(), 'Z');
    assert(s.len() == yl + 16 + f.len());
    lemma_year_at(s, dt.year as int);
    lemma_two_digits_at(s, yl + 1, dt.month as nat);
    lemma_two_digits_at(s, yl + 4, dt.day as nat);
    lemma_two_digits_at(s, yl + 7, dt.hour as nat);
    lemma_two_digits_at(s, yl + 10, dt.minute as nat);
    lemma_two_digits_at(s, yl + 13, dt.second as nat);
    lemma_fraction(s, yl + 15, dt.nanos as nat);
    lemma_date_time_parts(s, dt, yl, yl + 15 + f.len());
    lemma_ascii_concat(y, dash);
    lemma_ascii_concat(piece1, mo);
    lemma_ascii_concat(piece2, dash);
    lemma_ascii_concat(piece3, da);
    lemma_ascii_concat(piece4, seq!['T']);
    lemma_ascii_concat(piece5, ho);
    lemma_ascii_concat(piece6, colon);
    lemma_ascii_concat(piece7, mi);
    lemma_ascii_concat(piece8, colon);
    lemma_ascii_concat(piece9, se);
    lemma_ascii_concat(piece10, f);
    lemma_ascii_concat(piece11, seq!['Z']);
}

/// Reads an RFC 3339 text from its parts at known positions.
proof fn lemma_date_time_parts(s: Seq<u8>, dt: DateTime, yl: int, z: int)
    requires
        dt.spec_is_valid(),
        0 < yl <= 20,
        s.len() == z + 1,
        s.len() <= 4_294_967_295,
        spec_year(s, 0) == Some((dt.year, yl as usize)),
        s[yl] == 45,
        spec_two_digits(s, yl + 1) == Some((dt.month, (yl + 3) as usize)),
        s[yl + 3] == 45,
        spec_two_digits(s, yl + 4) == Some((dt.day, (yl + 6) as usize)),
        s[yl + 6] == 84,
        spec_two_digits(s, yl + 7) == Some((dt.hour, (yl + 9) as usize)),
        s[yl + 9] == 58,
        spec_two_digits(s, yl + 10) == Some((dt.minute, (yl + 12) as usize)),
        s[yl + 12] == 58,
        spec_two_digits(s, yl + 13) == Some((dt.second, (yl + 15) as usize)),
        spec_nanos(s, yl + 15) == Some((dt.nanos, z as usize)),
        yl + 15 <= z,
        s[z] == 90,
    ensures
        spec_parse_timestamp(s) == Some(
            Timestamp { seconds: dt.spec_seconds() as i64, nanos: dt.nanos as i32 },
        ),
{
    lemma_valid_seconds_in_range(dt);
    assert(spec_date(s, 0) == Some((dt.year, dt.month, dt.day, (yl + 6) as usize)));
    assert(spec_char_ignore_case(s, yl + 6, 84) == Some((yl + 7) as usize));
    assert(spec_time(s, yl + 7) == Some((dt.hour, dt.minute, dt.second, dt.nanos, z as usize)));
    assert(spec_char_ignore_case(s, z, 90) == Some((z + 1) as usize));
    assert(spec_offset(s, z) == Some((0i8, 0i8, (z + 1) as usize)));
    assert(spec_offset_timestamp(dt, 0, 0) == Some(
        Timestamp { seconds: dt.spec_seconds() as i64, nanos: dt.nanos as i32 },
    ));
}

/// The text written for a timestamp reads back as the normalized timestamp:
/// the text is that of the calendar date and time of its normalized form.
pub proof fn lemma_timestamp_text_round_trip(t: Timestamp)
    ensures
        forall|dt: DateTime|
            #![trigger date_time_text(dt)]
            dt.spec_is_valid() && dt.spec_seconds() == t.spec_normalized().seconds && dt.nanos
                == t.spec_normalized().nanos ==> is_ascii_chars(date_time_text(dt))
                && spec_parse_timestamp(ascii_bytes(date_time_text(dt))) == Some(
                t.spec_normalized(),
            ),
{
    assert forall|dt: DateTime|
        #![trigger date_time_text(dt)]
        dt.spec_is_valid() && dt.spec_seconds() == t.spec_normalized().seconds && dt.nanos
            == t.spec_normalized().nanos implies is_ascii_chars(date_time_text(dt))
        && spec_parse_timestamp(ascii_bytes(date_time_text(dt))) == Some(t.spec_normalized()) by {
        lemma_date_time_text_round_trip(dt);
    }
}

} // verus!
