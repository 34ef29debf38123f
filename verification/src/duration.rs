//! Parsing of user-written durations, as they appear in the start and end
//! arguments of a URL submission.
//!
//! Two shapes are accepted, each with an optional leading minus (ignored:
//! durations are magnitudes) and an optional fraction: a clock form,
//! `HH:MM:SS` or `MM:SS` (hours two digits, minutes two digits up to 59,
//! seconds one or two digits up to 59), and a plain count, `N`, `N ms` or
//! `N us` written without the space. The result is in microseconds;
//! fractional digits beyond the resolution of the form are truncated.

use vstd::prelude::*;

use vstd::string::StringSliceAdditionalSpecFns;

verus! {

/// ASCII bytes the grammar mentions.
pub const MINUS: u8 = 45;

pub const DOT: u8 = 46;

pub const DIGIT_ZERO: u8 = 48;

pub const DIGIT_NINE: u8 = 57;

pub const COLON: u8 = 58;

pub const LETTER_M: u8 = 109;

pub const LETTER_S: u8 = 115;

pub const LETTER_U: u8 = 117;

/// Why an input was rejected.
#[derive(Clone, Copy, PartialEq, Eq, Structural, Debug)]
pub enum ParseError {
    /// The input matches neither duration shape.
    Malformed,
    /// The duration does not fit the result type.
    TooLarge,
}

impl ParseError {
    /// A short human-readable description.
    pub fn message(&self) -> (r: &'static str) {
        match self {
            ParseError::Malformed => "not a duration",
            ParseError::TooLarge => "duration too large",
        }
    }
}

pub open spec fn is_digit(b: u8) -> bool {
    DIGIT_ZERO <= b && b <= DIGIT_NINE
}

pub open spec fn digit_val(b: u8) -> nat {
    (b - DIGIT_ZERO) as nat
}

pub open spec fn all_digits(s: Seq<u8>) -> bool {
    forall|i: int| 0 <= i < s.len() ==> is_digit(s[i])
}

/// The number a run of decimal digits denotes.
pub open spec fn digits_val(s: Seq<u8>) -> nat
    decreases s.len(),
{
    if s.len() == 0 {
        0
    } else {
        digits_val(s.drop_last()) * 10 + digit_val(s.last())
    }
}

pub open spec fn pow10(n: nat) -> nat
    decreases n,
{
    if n == 0 {
        1
    } else {
        10 * pow10((n - 1) as nat)
    }
}

/// The length of the digit run an input starts with.
pub open spec fn digit_prefix_len(s: Seq<u8>) -> nat
    decreases s.len(),
{
    if s.len() > 0 && is_digit(s[0]) {
        1 + digit_prefix_len(s.drop_first())
    } else {
        0
    }
}

/// The value of the fraction digits `ds`, scaled to `scale` decimal places;
/// digits beyond the scale are truncated.
pub open spec fn frac_scaled(ds: Seq<u8>, scale: nat) -> nat {
    if ds.len() >= scale {
        digits_val(ds.take(scale as int))
    } else {
        digits_val(ds) * pow10((scale - ds.len()) as nat)
    }
}

/// The fraction digits of what follows a group: none when nothing follows,
/// the digits when a dot and at least one digit follow and nothing else.
pub open spec fn spec_frac_tail(rest: Seq<u8>) -> Option<Seq<u8>> {
    if rest.len() == 0 {
        Some(Seq::empty())
    } else if rest[0] == DOT && rest.len() >= 2 && all_digits(rest.skip(1)) {
        Some(rest.skip(1))
    } else {
        None
    }
}

/// The microseconds an `HH:MM:SS` reading denotes, given the three digit
/// groups and what follows them.
pub open spec fn spec_hms(g1: Seq<u8>, g2: Seq<u8>, g3: Seq<u8>, rest: Seq<u8>) -> Option<nat> {
    if g1.len() == 2 && g2.len() == 2 && digits_val(g2) <= 59 && (g3.len() == 1 || g3.len() == 2)
        && digits_val(g3) <= 59 {
        match spec_frac_tail(rest) {
            Some(ds) => Some(
                (digits_val(g1) * 3600 + digits_val(g2) * 60 + digits_val(g3)) * 1000000
                    + frac_scaled(ds, 6),
            ),
            None => None,
        }
    } else {
        None
    }
}

/// The microseconds an `MM:SS` reading denotes.
pub open spec fn spec_msec(g1: Seq<u8>, g2: Seq<u8>, rest: Seq<u8>) -> Option<nat> {
    if g1.len() == 2 && digits_val(g1) <= 59 && (g2.len() == 1 || g2.len() == 2) && digits_val(g2)
        <= 59 {
        match spec_frac_tail(rest) {
            Some(ds) => Some(
                (digits_val(g1) * 60 + digits_val(g2)) * 1000000 + frac_scaled(ds, 6),
            ),
            None => None,
        }
    } else {
        None
    }
}

/// The microseconds a plain count denotes, given its digits, its fraction
/// digits, and the unit text that follows: empty for seconds, `ms`, or `us`.
pub open spec fn spec_value_unit(g1: Seq<u8>, fr: Seq<u8>, tail: Seq<u8>) -> Option<nat> {
    if tail.len() == 0 {
        Some(digits_val(g1) * 1000000 + frac_scaled(fr, 6))
    } else if tail.len() == 2 && tail[0] == LETTER_M && tail[1] == LETTER_S {
        Some(digits_val(g1) * 1000 + frac_scaled(fr, 3))
    } else if tail.len() == 2 && tail[0] == LETTER_U && tail[1] == LETTER_S {
        Some(digits_val(g1))
    } else {
        None
    }
}

/// The microseconds a plain count with optional fraction and unit denotes.
pub open spec fn spec_value_form(g1: Seq<u8>, rest: Seq<u8>) -> Option<nat> {
    if rest.len() > 0 && rest[0] == DOT {
        let fd = digit_prefix_len(rest.drop_first());
        if fd == 0 {
            None
        } else {
            spec_value_unit(
                g1,
                rest.drop_first().take(fd as int),
                rest.drop_first().skip(fd as int),
            )
        }
    } else {
        spec_value_unit(g1, Seq::empty(), rest)
    }
}

/// The microseconds a clock form denotes, given the first digit group and
/// what follows the first colon.
pub open spec fn spec_colon_form(g1: Seq<u8>, u: Seq<u8>) -> Option<nat> {
    let d2 = digit_prefix_len(u);
    if d2 == 0 {
        None
    } else {
        let g2 = u.take(d2 as int);
        let rest2 = u.skip(d2 as int);
        if rest2.len() > 0 && rest2[0] == COLON {
            let v = rest2.drop_first();
            let d3 = digit_prefix_len(v);
            if d3 == 0 {
                None
            } else {
                spec_hms(g1, g2, v.take(d3 as int), v.skip(d3 as int))
            }
        } else {
            spec_msec(g1, g2, rest2)
        }
    }
}

/// The microseconds an input denotes, `None` when it matches neither shape.
pub open spec fn spec_duration_micros(s: Seq<u8>) -> Option<nat> {
    let t = if s.len() > 0 && s[0] == MINUS {
        s.drop_first()
    } else {
        s
    };
    let d1 = digit_prefix_len(t);
    if d1 == 0 {
        None
    } else {
        let g1 = t.take(d1 as int);
        let rest1 = t.skip(d1 as int);
        if rest1.len() > 0 && rest1[0] == COLON {
            spec_colon_form(g1, rest1.drop_first())
        } else {
            spec_value_form(g1, rest1)
        }
    }
}

proof fn lemma_digit_prefix_of(t: Seq<u8>, n: nat)
    requires
        n <= t.len(),
        forall|j: int| 0 <= j < n ==> is_digit(t[j]),
        n == t.len() || !is_digit(t[n as int]),
    ensures
        digit_prefix_len(t) == n,
    decreases t.len(),
{
    if n == 0 {
    } else {
        assert(is_digit(t[0]));
        assert(forall|j: int| 0 <= j < n - 1 ==> is_digit(t.drop_first()[j]));
        lemma_digit_prefix_of(t.drop_first(), (n - 1) as nat);
    }
}

proof fn lemma_digit_prefix_digits(t: Seq<u8>)
    ensures
        digit_prefix_len(t) <= t.len(),
        forall|j: int| 0 <= j < digit_prefix_len(t) ==> is_digit(t[j]),
        digit_prefix_len(t) < t.len() ==> !is_digit(t[digit_prefix_len(t) as int]),
    decreases t.len(),
{
    if t.len() > 0 && is_digit(t[0]) {
        lemma_digit_prefix_digits(t.drop_first());
        assert(forall|j: int|
            1 <= j < digit_prefix_len(t) ==> is_digit(#[trigger] t[j]) == is_digit(
                t.drop_first()[j - 1],
            ));
    }
}

proof fn lemma_digits_val_bound(s: Seq<u8>)
    requires
        all_digits(s),
    ensures
        digits_val(s) < pow10(s.len()),
    decreases s.len(),
{
    if s.len() == 0 {
    } else {
        assert(all_digits(s.drop_last()));
        lemma_digits_val_bound(s.drop_last());
        assert(is_digit(s.last()));
        assert(digit_val(s.last()) <= 9);
    }
}

proof fn lemma_pow10_values()
    ensures
        pow10(0) == 1,
        pow10(1) == 10,
        pow10(2) == 100,
        pow10(3) == 1000,
        pow10(4) == 10000,
        pow10(5) == 100000,
        pow10(6) == 1000000,
{
    assert(pow10(0) == 1);
    assert(pow10(1) == 10);
    assert(pow10(2) == 100);
    assert(pow10(3) == 1000);
    assert(pow10(4) == 10000);
    assert(pow10(5) == 100000);
    assert(pow10(6) == 1000000);
}

proof fn lemma_pow10_add(a: nat, b: nat)
    ensures
        pow10(a) * pow10(b) == pow10(a + b),
    decreases a,
{
    if a == 0 {
        assert(pow10(0) == 1);
    } else {
        let a1 = (a - 1) as nat;
        lemma_pow10_add(a1, b);
        assert(pow10(a) == 10 * pow10(a1));
        assert(a1 + b == (a + b - 1) as nat);
        assert(pow10(a + b) == 10 * pow10((a + b - 1) as nat));
        assert(pow10(a) * pow10(b) == (10 * pow10(a1)) * pow10(b));
        assert((10 * pow10(a1)) * pow10(b) == 10 * (pow10(a1) * pow10(b))) by (nonlinear_arith);
    }
}

/// Scan the digit run of `b` that starts at `from`: its end, its value, and
/// whether the value does not fit.
#[verifier::loop_isolation(false)]
fn scan_digits(b: &[u8], from: usize) -> (r: (usize, u64, bool))
    requires
        from <= b@.len(),
    ensures
        from <= r.0 <= b@.len(),
        r.0 - from == digit_prefix_len(b@.skip(from as int)),
        !r.2 ==> r.1 == digits_val(b@.subrange(from as int, r.0 as int)),
        r.2 ==> digits_val(b@.subrange(from as int, r.0 as int)) > u64::MAX,
{
    let n = b.len();
    let mut i = from;
    let mut val: u64 = 0;
    let mut overflow = false;
    while i < n && b[i] >= DIGIT_ZERO && b[i] <= DIGIT_NINE
        invariant
            from <= i <= n,
            forall|j: int| from <= j < i ==> is_digit(b@[j]),
            !overflow ==> val == digits_val(b@.subrange(from as int, i as int)),
            overflow ==> digits_val(b@.subrange(from as int, i as int)) > u64::MAX,
        decreases n - i,
    {
        let d = (b[i] - 48) as u64;
        let ghost pref = b@.subrange(from as int, i as int);
        let ghost prefd = b@.subrange(from as int, i as int + 1);
        proof {
            assert(prefd.drop_last() =~= pref);
            assert(prefd.last() == b@[i as int]);
            assert(digits_val(prefd) == digits_val(pref) * 10 + digit_val(b@[i as int]));
        }
        if overflow {
            proof {
                assert(digits_val(prefd) > u64::MAX);
            }
        } else {
            match val.checked_mul(10) {
                Some(x) => {
                    match x.checked_add(d) {
                        Some(y) => {
                            val = y;
                        },
                        None => {
                            overflow = true;
                        },
                    }
                },
                None => {
                    overflow = true;
                },
            }
        }
        i = i + 1;
    }
    proof {
        let t = b@.skip(from as int);
        assert(forall|j: int| 0 <= j < i - from ==> is_digit(#[trigger] t[j]) == is_digit(
            b@[j + from],
        ));
        if i < n {
            assert(!is_digit(t[i - from]));
        }
        lemma_digit_prefix_of(t, (i - from) as nat);
    }
    (i, val, overflow)
}

/// A small power of ten.
fn pow10_u64(n: usize) -> (r: u64)
    requires
        n <= 6,
    ensures
        r == pow10(n as nat),
{
    proof {
        lemma_pow10_values();
    }
    if n == 0 {
        1
    } else if n == 1 {
        10
    } else if n == 2 {
        100
    } else if n == 3 {
        1000
    } else if n == 4 {
        10000
    } else if n == 5 {
        100000
    } else {
        1000000
    }
}

/// The value of the fraction digits at [from, to), scaled to `scale`
/// decimal places.
#[verifier::loop_isolation(false)]
fn frac_value(b: &[u8], from: usize, to: usize, scale: usize) -> (v: u64)
    requires
        from <= to <= b@.len(),
        scale <= 6,
        forall|j: int| from <= j < to ==> is_digit(b@[j]),
    ensures
        v == frac_scaled(b@.subrange(from as int, to as int), scale as nat),
        v < pow10(scale as nat),
{
    proof {
        lemma_pow10_values();
    }
    let ghost ds = b@.subrange(from as int, to as int);
    let take_n = if to - from < scale {
        to
    } else {
        from + scale
    };
    let mut acc: u64 = 0;
    let mut j = from;
    while j < take_n
        invariant
            from <= j <= take_n,
            acc == digits_val(b@.subrange(from as int, j as int)),
            acc < pow10((j - from) as nat),
        decreases take_n - j,
    {
        let d = (b[j] - 48) as u64;
        let ghost pref = b@.subrange(from as int, j as int);
        let ghost prefd = b@.subrange(from as int, j as int + 1);
        proof {
            assert(prefd.drop_last() =~= pref);
            assert(prefd.last() == b@[j as int]);
            assert(pow10((j + 1 - from) as nat) == 10 * pow10((j - from) as nat));
            assert((j - from) as nat <= 5);
            assert(pow10((j - from) as nat) <= pow10(5)) by {
                lemma_pow10_mono((j - from) as nat, 5);
            }
        }
        acc = acc * 10 + d;
        j = j + 1;
    }
    let rem = scale - (take_n - from);
    let p = pow10_u64(rem);
    proof {
        lemma_pow10_add((take_n - from) as nat, rem as nat);
        assert(acc * p < pow10(scale as nat)) by (nonlinear_arith)
            requires
                acc < pow10((take_n - from) as nat),
                p == pow10(rem as nat),
                p >= 1,
                pow10((take_n - from) as nat) * pow10(rem as nat) == pow10(scale as nat),
        ;
        if to - from < scale {
            assert(b@.subrange(from as int, take_n as int) =~= ds);
        } else {
            assert(b@.subrange(from as int, take_n as int) =~= ds.take(scale as int));
            assert(rem == 0);
        }
    }
    let v = acc * p;
    v
}

proof fn lemma_pow10_mono(a: nat, b: nat)
    requires
        a <= b,
    ensures
        pow10(a) <= pow10(b),
    decreases b,
{
    if a < b && b > 0 {
        lemma_pow10_mono(a, (b - 1) as nat);
    }
}

/// Parse the whole tail at `p` as an optional fraction, scaled to
/// microseconds.
#[verifier::loop_isolation(false)]
fn parse_frac6(b: &[u8], p: usize) -> (r: Result<u64, ParseError>)
    requires
        p <= b@.len(),
    ensures
        match spec_frac_tail(b@.skip(p as int)) {
            Some(ds) => r matches Ok(v) && v == frac_scaled(ds, 6) && v < 1000000,
            None => r matches Err(e) && e == ParseError::Malformed,
        },
{
    proof {
        lemma_pow10_values();
    }
    let n = b.len();
    let ghost rest = b@.skip(p as int);
    if p == n {
        proof {
            assert(frac_scaled(Seq::empty(), 6) == digits_val(Seq::<u8>::empty()) * pow10(6));
        }
        return Ok(0);
    }
    if b[p] == DOT && p + 1 < n {
        let (fe, _fv, _fo) = scan_digits(b, p + 1);
        proof {
            lemma_digit_prefix_digits(b@.skip(p + 1 as int));
            assert(rest.skip(1) =~= b@.skip(p + 1 as int));
        }
        if fe == n {
            proof {
                assert forall|j: int| p + 1 <= j < n implies is_digit(b@[j]) by {
                    assert(is_digit(b@.skip((p + 1) as int)[j - (p + 1)]));
                }
                assert forall|j: int| 0 <= j < rest.skip(1).len() implies is_digit(
                    rest.skip(1)[j],
                ) by {
                    assert(rest.skip(1)[j] == b@[j + p + 1]);
                }
                assert(all_digits(rest.skip(1)));
                assert(b@.subrange((p + 1) as int, n as int) =~= rest.skip(1));
            }
            let v = frac_value(b, p + 1, n, 6);
            Ok(v)
        } else {
            proof {
                assert(!is_digit(b@.skip(p + 1 as int)[fe - (p + 1)]));
                assert(!all_digits(rest.skip(1)));
            }
            Err(ParseError::Malformed)
        }
    } else {
        Err(ParseError::Malformed)
    }
}

/// Parse a duration into microseconds. An input matching neither shape is
/// `Malformed`; one whose value does not fit the result type is `TooLarge`.
#[verifier::rlimit(100)]
pub fn parse_duration(s: &str) -> (r: Result<u64, ParseError>)
    ensures
        match spec_duration_micros(s.spec_bytes()) {
            Some(micros) => {
                if micros <= u64::MAX {
                    r matches Ok(v) && v == micros
                } else {
                    r matches Err(e) && e == ParseError::TooLarge
                }
            },
            None => r matches Err(e) && e == ParseError::Malformed,
        },
{
    let b = s.as_bytes();
    let n = b.len();
    let start: usize = if n > 0 && b[0] == MINUS {
        1
    } else {
        0
    };
    let ghost t = b@.skip(start as int);
    proof {
        if start == 1 {
            assert(t =~= s.spec_bytes().drop_first());
        } else {
            assert(t =~= s.spec_bytes());
        }
    }
    let (e1, v1, ov1) = scan_digits(b, start);
    if e1 == start {
        return Err(ParseError::Malformed);
    }
    let ghost d1 = (e1 - start) as int;
    let ghost g1 = t.take(d1);
    let ghost rest1 = t.skip(d1);
    proof {
        lemma_pow10_values();
        assert(g1 =~= b@.subrange(start as int, e1 as int));
        assert(rest1 =~= b@.skip(e1 as int));
        lemma_digit_prefix_digits(b@.skip(start as int));
        assert forall|j: int| start <= j < e1 implies is_digit(b@[j]) by {
            assert(is_digit(b@.skip(start as int)[j - start]));
        }
        assert forall|j: int| 0 <= j < g1.len() implies is_digit(g1[j]) by {
            assert(g1[j] == b@[j + start]);
        }
        assert(all_digits(g1));
        lemma_digits_val_bound(g1);
    }
    if e1 < n && b[e1] == COLON {
        proof {
            assert(rest1.drop_first() =~= b@.skip((e1 + 1) as int));
        }
        parse_clock(b, start, e1, v1)
    } else {
        parse_count(b, start, e1, v1, ov1)
    }
}

/// Parse the clock form: the first digit group of `b` ends at `e1`, where a
/// colon stands.
#[verifier::rlimit(100)]
fn parse_clock(b: &[u8], start: usize, e1: usize, v1: u64) -> (r: Result<u64, ParseError>)
    requires
        start < e1 < b@.len(),
        e1 - start == digit_prefix_len(b@.skip(start as int)),
        b@[e1 as int] == COLON,
        all_digits(b@.subrange(start as int, e1 as int)),
        e1 - start == 2 ==> v1 == digits_val(b@.subrange(start as int, e1 as int)),
    ensures
        match spec_colon_form(b@.subrange(start as int, e1 as int), b@.skip((e1 + 1) as int)) {
            Some(micros) => r matches Ok(x) && x == micros,
            None => r matches Err(e) && e == ParseError::Malformed,
        },
{
    let n = b.len();
    let ghost g1 = b@.subrange(start as int, e1 as int);
    let ghost u = b@.skip((e1 + 1) as int);
    proof {
        lemma_pow10_values();
        lemma_digits_val_bound(g1);
    }
    let (e2, v2, _ov2) = scan_digits(b, e1 + 1);
    if e2 == e1 + 1 {
        return Err(ParseError::Malformed);
    }
    let ghost g2 = u.take((e2 - (e1 + 1)) as int);
    let ghost rest2 = u.skip((e2 - (e1 + 1)) as int);
    proof {
        assert(g2 =~= b@.subrange((e1 + 1) as int, e2 as int));
        assert(rest2 =~= b@.skip(e2 as int));
        lemma_digit_prefix_digits(b@.skip((e1 + 1) as int));
        assert forall|j: int| e1 + 1 <= j < e2 implies is_digit(b@[j]) by {
            assert(is_digit(b@.skip((e1 + 1) as int)[j - (e1 + 1)]));
        }
        assert forall|j: int| 0 <= j < g2.len() implies is_digit(g2[j]) by {
            assert(g2[j] == b@[j + e1 + 1]);
        }
        assert(all_digits(g2));
        lemma_digits_val_bound(g2);
    }
    if e2 < n && b[e2] == COLON {
        // HH:MM:SS
        let ghost v = rest2.drop_first();
        proof {
            assert(v =~= b@.skip((e2 + 1) as int));
        }
        let (e3, v3, _ov3) = scan_digits(b, e2 + 1);
        if e3 == e2 + 1 {
            return Err(ParseError::Malformed);
        }
        let ghost g3 = v.take((e3 - (e2 + 1)) as int);
        let ghost rest3 = v.skip((e3 - (e2 + 1)) as int);
        proof {
            assert(g3 =~= b@.subrange((e2 + 1) as int, e3 as int));
            assert(rest3 =~= b@.skip(e3 as int));
            lemma_digit_prefix_digits(b@.skip((e2 + 1) as int));
            assert forall|j: int| e2 + 1 <= j < e3 implies is_digit(b@[j]) by {
                assert(is_digit(b@.skip((e2 + 1) as int)[j - (e2 + 1)]));
            }
            assert forall|j: int| 0 <= j < g3.len() implies is_digit(g3[j]) by {
                assert(g3[j] == b@[j + e2 + 1]);
            }
            assert(all_digits(g3));
            lemma_digits_val_bound(g3);
        }
        if e1 - start != 2 || e2 - (e1 + 1) != 2 || e3 - (e2 + 1) > 2 {
            return Err(ParseError::Malformed);
        }
        if v2 > 59 || v3 > 59 {
            return Err(ParseError::Malformed);
        }
        match parse_frac6(b, e3) {
            Ok(frac) => {
                let secs = v1 * 3600 + v2 * 60 + v3;
                Ok(secs * 1000000 + frac)
            },
            Err(e) => Err(e),
        }
    } else {
        // MM:SS
        if e1 - start != 2 || e2 - (e1 + 1) > 2 {
            return Err(ParseError::Malformed);
        }
        if v1 > 59 || v2 > 59 {
            return Err(ParseError::Malformed);
        }
        match parse_frac6(b, e2) {
            Ok(frac) => {
                let secs = v1 * 60 + v2;
                Ok(secs * 1000000 + frac)
            },
            Err(e) => Err(e),
        }
    }
}

/// Parse the count form: the digit group of `b` ends at `e1` and no colon
/// follows it.
#[verifier::rlimit(100)]
fn parse_count(b: &[u8], start: usize, e1: usize, v1: u64, ov1: bool) -> (r: Result<
    u64,
    ParseError,
>)
    requires
        start < e1 <= b@.len(),
        e1 - start == digit_prefix_len(b@.skip(start as int)),
        !ov1 ==> v1 == digits_val(b@.subrange(start as int, e1 as int)),
        ov1 ==> digits_val(b@.subrange(start as int, e1 as int)) > u64::MAX,
    ensures
        match spec_value_form(b@.subrange(start as int, e1 as int), b@.skip(e1 as int)) {
            Some(micros) => {
                if micros <= u64::MAX {
                    r matches Ok(x) && x == micros
                } else {
                    r matches Err(e) && e == ParseError::TooLarge
                }
            },
            None => r matches Err(e) && e == ParseError::Malformed,
        },
{
    let n = b.len();
    let ghost g1 = b@.subrange(start as int, e1 as int);
    let ghost rest1 = b@.skip(e1 as int);
    proof {
        lemma_pow10_values();
    }
    let (fs, fe) = if e1 < n && b[e1] == DOT {
        let (f2, _g, _h) = scan_digits(b, e1 + 1);
        if f2 == e1 + 1 {
            return Err(ParseError::Malformed);
        }
        (e1 + 1, f2)
    } else {
        (e1, e1)
    };
    let ghost fr = b@.subrange(fs as int, fe as int);
    let ghost tail = b@.skip(fe as int);
    proof {
        if fs > e1 {
            assert(rest1.drop_first() =~= b@.skip((e1 + 1) as int));
            assert(rest1.drop_first().take((fe - fs) as int) =~= fr);
            assert(rest1.drop_first().skip((fe - fs) as int) =~= tail);
        } else {
            assert(fr =~= Seq::<u8>::empty());
        }
        lemma_digit_prefix_digits(b@.skip(fs as int));
        assert forall|j: int| fs <= j < fe implies is_digit(b@[j]) by {
            assert(is_digit(b@.skip(fs as int)[j - fs]));
        }
        assert forall|j: int| 0 <= j < fr.len() implies is_digit(fr[j]) by {
            assert(fr[j] == b@[j + fs]);
        }
        assert(all_digits(fr));
    }
    let unit_micros: u64 = if fe == n {
        1000000
    } else if n >= 2 && fe == n - 2 && b[fe] == LETTER_M && b[fe + 1] == LETTER_S {
        1000
    } else if n >= 2 && fe == n - 2 && b[fe] == LETTER_U && b[fe + 1] == LETTER_S {
        1
    } else {
        return Err(ParseError::Malformed);
    };
    if ov1 {
        return Err(ParseError::TooLarge);
    }
    if unit_micros == 1 {
        return Ok(v1);
    }
    let scale: usize = if unit_micros == 1000000 {
        6
    } else {
        3
    };
    let frac = frac_value(b, fs, fe, scale);
    match v1.checked_mul(unit_micros) {
        Some(x) => match x.checked_add(frac) {
            Some(y) => Ok(y),
            None => Err(ParseError::TooLarge),
        },
        None => Err(ParseError::TooLarge),
    }
}

} // verus!
