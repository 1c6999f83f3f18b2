//! Durations written as a whole number and a unit: `ms`, `s`, `m`, `h` or `d`.
use vstd::prelude::*;
use crate::models::{Duration, str_eq};
use crate::text::{decimal, digit_char, push_decimal};

verus! {

pub open spec fn is_digit(c: char) -> bool {
    '0' <= c && c <= '9'
}

pub open spec fn digit_value(c: char) -> nat {
    (c as u32 - '0' as u32) as nat
}

/// The number that the decimal digits `s` stand for.
pub open spec fn value_of(s: Seq<char>) -> nat
    decreases s.len(),
{
    if s.len() == 0 {
        0
    } else {
        value_of(s.drop_last()) * 10 + digit_value(s.last())
    }
}

/// How many digits `s` starts with.
pub open spec fn digit_run(s: Seq<char>) -> nat
    decreases s.len(),
{
    if s.len() > 0 && is_digit(s[0]) {
        1 + digit_run(s.drop_first())
    } else {
        0
    }
}

/// Milliseconds in the unit written `u`.
pub open spec fn unit_millis(u: Seq<char>) -> Option<nat> {
    if u == "ms"@ {
        Some(1)
    } else if u == "s"@ {
        Some(1000)
    } else if u == "m"@ {
        Some(60_000)
    } else if u == "h"@ {
        Some(3_600_000)
    } else if u == "d"@ {
        Some(86_400_000)
    } else {
        None
    }
}

/// The duration written `s`: one or more digits, then a unit, with the total
/// fitting in 64 bits of milliseconds.
pub open spec fn duration_of(s: Seq<char>) -> Option<Duration> {
    let k = digit_run(s);
    if k == 0 {
        None
    } else {
        match unit_millis(s.subrange(k as int, s.len() as int)) {
            Some(u) => if value_of(s.subrange(0, k as int)) * u <= u64::MAX {
                Some(Duration { millis: (value_of(s.subrange(0, k as int)) * u) as u64 })
            } else {
                None
            },
            None => None,
        }
    }
}

proof fn lemma_digit_run_prefix(s: Seq<char>, i: int)
    requires
        0 <= i <= s.len(),
        forall|k: int| 0 <= k < i ==> is_digit(#[trigger] s[k]),
        i == s.len() || !is_digit(s[i]),
    ensures
        digit_run(s) == i,
    decreases i,
{
    if i > 0 {
        assert forall|k: int| 0 <= k < i - 1 implies is_digit(#[trigger] s.drop_first()[k]) by {
            assert(s.drop_first()[k] == s[k + 1]);
        }
        if i < s.len() {
            assert(s.drop_first()[i - 1] == s[i]);
        }
        lemma_digit_run_prefix(s.drop_first(), i - 1);
    }
}

fn unit_of(u: &str) -> (r: u64)
    ensures
        unit_millis(u@) matches Some(m) ==> r == m,
        unit_millis(u@) is None ==> r == 0,
{
    proof {
        reveal_strlit("ms");
        reveal_strlit("s");
        reveal_strlit("m");
        reveal_strlit("h");
        reveal_strlit("d");
    }
    if str_eq(u, "ms") {
        1
    } else if str_eq(u, "s") {
        1000
    } else if str_eq(u, "m") {
        60_000
    } else if str_eq(u, "h") {
        3_600_000
    } else if str_eq(u, "d") {
        86_400_000
    } else {
        0
    }
}

/// Reads a duration such as `30s`, `5m` or `1d`.
pub fn parse_duration(s: &str) -> (r: Option<Duration>)
    ensures
        r == duration_of(s@),
{
    let n = s.unicode_len();
    let mut i: usize = 0;
    let mut v: u64 = 0;
    let mut big = false;
    let mut stop = false;
    while i < n && !stop
        invariant
            stop ==> i < n && !is_digit(s@[i as int]),
            n == s@.len(),
            i <= n,
            forall|k: int| 0 <= k < i ==> is_digit(#[trigger] s@[k]),
            !big ==> v == value_of(s@.subrange(0, i as int)),
            big ==> value_of(s@.subrange(0, i as int)) > u64::MAX,
        decreases n - i + if stop { 0int } else { 1int },
    {
        let c = s.get_char(i);
        if !('0' <= c && c <= '9') {
            stop = true;
            continue;
        }
        let d = (c as u32 - '0' as u32) as u64;
        let ghost before = value_of(s@.subrange(0, i as int));
        assert(s@.subrange(0, i + 1).drop_last() =~= s@.subrange(0, i as int));
        assert(value_of(s@.subrange(0, i + 1)) == before * 10 + d);
        if !big {
            if v > (u64::MAX - d) / 10 {
                big = true;
                assert(before * 10 + d > u64::MAX) by (nonlinear_arith)
                    requires
                        before > (u64::MAX - d) / 10,
                        d <= 9,
                ;
            } else {
                assert(v * 10 + d <= u64::MAX) by (nonlinear_arith)
                    requires
                        v <= (u64::MAX - d) / 10,
                        d <= 9,
                ;
                v = v * 10 + d;
            }
        } else {
            assert(before * 10 + d > u64::MAX) by (nonlinear_arith)
                requires
                    before > u64::MAX,
            ;
        }
        i = i + 1;
    }
    proof {
        lemma_digit_run_prefix(s@, i as int);
    }
    if i == 0 {
        return None;
    }
    let unit = unit_of(s.substring_char(i, n));
    if unit == 0 {
        return None;
    }
    if big {
        assert(value_of(s@.subrange(0, i as int)) * unit > u64::MAX) by (nonlinear_arith)
            requires
                value_of(s@.subrange(0, i as int)) > u64::MAX,
                unit >= 1,
        ;
        return None;
    }
    if v > u64::MAX / unit {
        assert(v * unit > u64::MAX) by (nonlinear_arith)
            requires
                v > u64::MAX / unit,
                unit >= 1,
        ;
        None
    } else {
        assert(v * unit <= u64::MAX) by (nonlinear_arith)
            requires
                v <= u64::MAX / unit,
                unit >= 1,
        ;
        Some(Duration { millis: v * unit })
    }
}

/// A duration written in the largest unit that measures it exactly.
pub open spec fn duration_text(d: Duration) -> Seq<char> {
    let m = d.millis;
    if m == 0 {
        "0s"@
    } else if m % 86_400_000 == 0 {
        decimal((m / 86_400_000) as nat) + "d"@
    } else if m % 3_600_000 == 0 {
        decimal((m / 3_600_000) as nat) + "h"@
    } else if m % 60_000 == 0 {
        decimal((m / 60_000) as nat) + "m"@
    } else if m % 1000 == 0 {
        decimal((m / 1000) as nat) + "s"@
    } else {
        decimal(m as nat) + "ms"@
    }
}

/// Writes a duration in the largest unit that measures it exactly.
pub fn render_duration(d: Duration) -> (r: String)
    ensures
        r@ == duration_text(d),
{
    let m = d.millis;
    let mut s = String::new();
    if m == 0 {
        s.append("0s");
    } else if m % 86_400_000 == 0 {
        push_decimal(&mut s, m / 86_400_000);
        s.append("d");
    } else if m % 3_600_000 == 0 {
        push_decimal(&mut s, m / 3_600_000);
        s.append("h");
    } else if m % 60_000 == 0 {
        push_decimal(&mut s, m / 60_000);
        s.append("m");
    } else if m % 1000 == 0 {
        push_decimal(&mut s, m / 1000);
        s.append("s");
    } else {
        push_decimal(&mut s, m);
        s.append("ms");
    }
    assert(s@ =~= duration_text(d));
    s
}

proof fn lemma_digit_value(x: nat)
    requires
        x < 10,
    ensures
        digit_value(digit_char(x)) == x,
        is_digit(digit_char(x)),
{
}

proof fn lemma_decimal_digits(n: nat)
    ensures
        forall|k: int| 0 <= k < decimal(n).len() ==> is_digit(#[trigger] decimal(n)[k]),
        value_of(decimal(n)) == n,
    decreases n,
{
    lemma_digit_value(n % 10);
    if n < 10 {
        assert(decimal(n).drop_last() =~= Seq::<char>::empty());
        assert(decimal(n).last() == digit_char(n % 10));
        assert(value_of(Seq::<char>::empty()) == 0);
    } else {
        lemma_decimal_digits(n / 10);
        assert(decimal(n).drop_last() =~= decimal(n / 10));
        assert(decimal(n).last() == digit_char(n % 10));
        assert((n / 10) * 10 + n % 10 == n);
        assert forall|k: int| 0 <= k < decimal(n).len() implies is_digit(#[trigger] decimal(n)[k]) by {
            if k < decimal(n / 10).len() {
                assert(decimal(n)[k] == decimal(n / 10)[k]);
            }
        }
    }
}

proof fn lemma_reads_back(n: nat, unit: Seq<char>, u: nat)
    requires
        unit_millis(unit) == Some(u),
        unit.len() > 0,
        !is_digit(unit[0]),
        n * u <= u64::MAX,
    ensures
        duration_of(decimal(n) + unit) == Some(Duration { millis: (n * u) as u64 }),
{
    let s = decimal(n) + unit;
    let k = decimal(n).len();
    lemma_decimal_digits(n);
    assert forall|j: int| 0 <= j < k implies is_digit(#[trigger] s[j]) by {
        assert(s[j] == decimal(n)[j]);
    }
    crate::text::lemma_decimal_nonempty(n);
    lemma_digit_run_prefix(s, k as int);
    assert(s.subrange(0, k as int) =~= decimal(n));
    assert(s.subrange(k as int, s.len() as int) =~= unit);
}

/// A written duration reads back as the same duration.
pub proof fn lemma_duration_round_trip(d: Duration)
    ensures
        duration_of(duration_text(d)) == Some(d),
{
    reveal_strlit("0s");
    reveal_strlit("ms");
    reveal_strlit("s");
    reveal_strlit("m");
    reveal_strlit("h");
    reveal_strlit("d");
    assert("ms"@[0] == 'm' && "ms"@.len() == 2);
    assert("s"@[0] == 's' && "s"@.len() == 1);
    assert("m"@[0] == 'm' && "m"@.len() == 1);
    assert("h"@[0] == 'h' && "h"@.len() == 1);
    assert("d"@[0] == 'd' && "d"@.len() == 1);
    let m = d.millis;
    if m == 0 {
        assert(decimal(0) =~= seq!['0']);
        assert("0s"@ =~= decimal(0) + "s"@);
        lemma_reads_back(0, "s"@, 1000);
    } else if m % 86_400_000 == 0 {
        assert((m / 86_400_000) as nat * 86_400_000 == m);
        lemma_reads_back((m / 86_400_000) as nat, "d"@, 86_400_000);
    } else if m % 3_600_000 == 0 {
        assert((m / 3_600_000) as nat * 3_600_000 == m);
        lemma_reads_back((m / 3_600_000) as nat, "h"@, 3_600_000);
    } else if m % 60_000 == 0 {
        assert((m / 60_000) as nat * 60_000 == m);
        lemma_reads_back((m / 60_000) as nat, "m"@, 60_000);
    } else if m % 1000 == 0 {
        assert((m / 1000) as nat * 1000 == m);
        lemma_reads_back((m / 1000) as nat, "s"@, 1000);
    } else {
        assert("ms"@ != "s"@);
        lemma_reads_back(m as nat, "ms"@, 1);
    }
}

} // verus!