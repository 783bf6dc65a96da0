//! Parsing for the LRC format of timed lyrics.
//!
//! ```text
//! [ar:Crusher-P]
//! [00:12.34]the quiet part before
//! [00:15.02]everything gets loud
//! [00:18.00]
//! [00:21.55][01:40.00]and I was still standing
//! ```
//!
//! Metadata tags are discarded, a line with several timestamps becomes one entry
//! for each, and blank lines stay: they mark an instrumental gap. Times are
//! nanoseconds, held within what an `i64` can say.

use vstd::prelude::*;

use crate::seqs;
use crate::seqs::Ranked;
use crate::text;

verus! {

/// The longest time that is told apart: some 292 years.
pub const LIMIT: u64 = 0x7fff_ffff_ffff_ffff;

/// One timed line.
#[derive(Debug)]
pub struct LyricLine {
    /// Nanoseconds from the start of the track.
    pub at: i64,
    /// Empty in an instrumental gap.
    pub text: String,
}

/// The mathematical content of a [`LyricLine`].
pub struct LineView {
    pub at: int,
    pub text: Seq<char>,
}

impl View for LyricLine {
    type V = LineView;

    open spec fn view(&self) -> LineView {
        LineView { at: self.at as int, text: self.text@ }
    }
}

/// The contents of a list of lines.
pub open spec fn line_views(s: Seq<LyricLine>) -> Seq<LineView> {
    s.map_values(|l: LyricLine| l@)
}

impl Ranked for LyricLine {
    open spec fn le(&self, other: &Self) -> bool {
        self.at <= other.at
    }

    fn at_most(&self, other: &Self) -> (r: bool) {
        self.at <= other.at
    }
}

// ── numbers ──────────────────────────────────────────────────────────────────

/// An ASCII digit.
pub open spec fn is_digit(c: char) -> bool {
    '0' <= c && c <= '9'
}

/// At least one digit, and nothing else.
pub open spec fn digits(s: Seq<char>) -> bool {
    s.len() > 0 && all_digits(s)
}

/// Nothing but digits.
pub open spec fn all_digits(s: Seq<char>) -> bool {
    forall|i: int| 0 <= i < s.len() ==> is_digit(#[trigger] s[i])
}

/// The number that digits write in base ten.
pub open spec fn number(s: Seq<char>) -> nat
    decreases s.len(),
{
    if s.len() == 0 {
        0
    } else {
        number(s.drop_last()) * 10 + ((s.last() as int - '0' as int) as nat)
    }
}

/// Ten to the power `k`.
pub open spec fn pow10(k: nat) -> nat
    decreases k,
{
    if k == 0 {
        1
    } else {
        10 * pow10((k - 1) as nat)
    }
}

/// The whole part of the number that `ds` writes, moved `scale` decimal places to
/// the left.
pub open spec fn moved(ds: Seq<char>, scale: int) -> nat {
    if scale >= 0 {
        number(ds) * pow10(scale as nat)
    } else if ds.len() + scale > 0 {
        number(ds.take(ds.len() + scale))
    } else {
        0
    }
}

/// `n`, or `cap` where `n` is larger.
pub open spec fn capped(n: nat, cap: nat) -> nat {
    if n < cap {
        n
    } else {
        cap
    }
}

/// `n` brought into the range of an `i64`.
pub open spec fn clamped(n: int) -> int {
    if n < i64::MIN {
        i64::MIN as int
    } else if n > i64::MAX {
        i64::MAX as int
    } else {
        n
    }
}

fn are_digits(s: &[char]) -> (r: bool)
    ensures
        r == all_digits(s@),
{
    let mut i: usize = 0;
    while i < s.len()
        invariant
            forall|k: int| 0 <= k < i ==> is_digit(#[trigger] s@[k]),
        decreases s@.len() - i,
    {
        if !('0' <= s[i] && s[i] <= '9') {
            assert(!is_digit(s@[i as int]));
            return false;
        }
        i += 1;
    }
    true
}

fn number_capped(s: &[char], cap: u128) -> (r: u128)
    requires
        all_digits(s@),
        0 < cap <= 1_000_000_000_000_000_000_000_000_000_000,
    ensures
        r == capped(number(s@), cap as nat),
{
    let mut acc: u128 = 0;
    let mut i: usize = 0;
    assert(number(s@.take(0)) == 0);
    while i < s.len()
        invariant
            i <= s@.len(),
            all_digits(s@),
            0 < cap <= 1_000_000_000_000_000_000_000_000_000_000,
            acc == capped(number(s@.take(i as int)), cap as nat),
        decreases s@.len() - i,
    {
        assert(s@.take(i + 1).drop_last() == s@.take(i as int));
        assert(is_digit(s@[i as int]));
        let d: u32 = s[i] as u32 - 48;
        let next: u128 = acc * 10 + d as u128;
        acc = if next < cap {
            next
        } else {
            cap
        };
        i += 1;
    }
    assert(s@.take(s@.len() as int) == s@);
    acc
}

proof fn lemma_pow10_positive(k: nat)
    ensures
        pow10(k) >= 1,
    decreases k,
{
    if k > 0 {
        lemma_pow10_positive((k - 1) as nat);
    }
}

proof fn lemma_capped_times(n: nat, p: nat, cap: nat)
    requires
        p >= 1,
    ensures
        capped(capped(n, cap) * p, cap) == capped(n * p, cap),
{
    if n >= cap {
        assert(cap * p >= cap) by (nonlinear_arith)
            requires
                p >= 1,
        ;
        assert(n * p >= cap) by (nonlinear_arith)
            requires
                n >= cap,
                p >= 1,
        ;
    }
}

fn moved_capped(ds: &[char], scale: i128) -> (r: u64)
    requires
        all_digits(ds@),
        scale > i128::MIN,
    ensures
        r == capped(moved(ds@, scale as int), LIMIT as nat),
{
    if scale < 0 {
        let drop: i128 = -scale;
        if drop >= ds.len() as i128 {
            return 0;
        }
        let keep: usize = ds.len() - drop as usize;
        assert(ds@.take(keep as int) == ds@.subrange(0, keep as int));
        return number_capped(&ds[0..keep], LIMIT as u128) as u64;
    }
    let mut v: u64 = number_capped(ds, LIMIT as u128) as u64;
    let mut left: i128 = scale;
    proof {
        lemma_pow10_positive(scale as nat);
        lemma_capped_times(number(ds@), pow10(scale as nat), LIMIT as nat);
    }
    while left > 0 && v > 0 && v < LIMIT
        invariant
            0 <= left <= scale,
            v <= LIMIT,
            capped(moved(ds@, scale as int), LIMIT as nat) == capped(
                v as nat * pow10(left as nat),
                LIMIT as nat,
            ),
        decreases left,
    {
        proof {
            let p = pow10((left - 1) as nat);
            lemma_pow10_positive((left - 1) as nat);
            lemma_capped_times((v * 10) as nat, p, LIMIT as nat);
            assert(v as nat * pow10(left as nat) == (v * 10) as nat * p) by (nonlinear_arith)
                requires
                    pow10(left as nat) == 10 * p,
            ;
        }
        let next: u128 = v as u128 * 10;
        v = if next < LIMIT as u128 {
            next as u64
        } else {
            LIMIT
        };
        left -= 1;
    }
    proof {
        lemma_pow10_positive(left as nat);
        let p = pow10(left as nat);
        if v == 0 {
            assert(v as nat * p == 0) by (nonlinear_arith)
                requires
                    v == 0,
            ;
        } else if left > 0 {
            assert(v as nat * p >= LIMIT) by (nonlinear_arith)
                requires
                    v >= LIMIT,
                    p >= 1,
            ;
        } else {
            assert(v as nat * p == v) by (nonlinear_arith)
                requires
                    p == 1,
            ;
        }
    }
    v
}

// ── timestamps ───────────────────────────────────────────────────────────────

/// A text before and after its first dot; `None` where there is no dot.
pub open spec fn around_dot(s: Seq<char>) -> (Seq<char>, Option<Seq<char>>) {
    match text::first_of(s, '.', 0) {
        Some(i) => (s.take(i), Some(s.skip(i + 1))),
        None => (s, None),
    }
}

/// The time that the parts of a timestamp say: hours if there are three, minutes,
/// and seconds with an optional fraction.
pub open spec fn stamp_of(parts: Seq<Seq<char>>) -> Option<nat> {
    let n = parts.len() as int;
    let (secs, frac) = around_dot(parts[n - 1]);
    if n < 2 || n > 3 || !digits(secs) || !digits(parts[n - 2]) || (n == 3 && !digits(parts[0])) {
        None
    } else if frac is Some && !digits(frac->0) {
        None
    } else {
        let hours = if n == 3 {
            number(parts[0])
        } else {
            0
        };
        let nanos = match frac {
            Some(f) => moved(f, 9 - f.len()),
            None => 0,
        };
        Some(
            capped(
                (hours * 3600 + number(parts[n - 2]) * 60 + number(secs)) * 1_000_000_000 + nanos,
                LIMIT as nat,
            ),
        )
    }
}

/// The time that `mm:ss`, `mm:ss.xx` or `hh:mm:ss.xx` says. Anything else, a tag
/// above all, is no timestamp.
pub open spec fn stamp(content: Seq<char>) -> Option<nat> {
    stamp_of(text::split_on(content, ':'))
}

proof fn lemma_capped_sum(h: nat, m: nat, s: nat, f: nat, c: nat)
    requires
        c == 10_000_000_000_000_000_000nat,
        f <= LIMIT,
    ensures
        capped(
            (capped(h, c) * 3600 + capped(m, c) * 60 + capped(s, c)) * 1_000_000_000 + f,
            LIMIT as nat,
        ) == capped((h * 3600 + m * 60 + s) * 1_000_000_000 + f, LIMIT as nat),
{
}

/// Reads a timestamp.
pub fn parse_timestamp(content: &str) -> (r: Option<i64>)
    ensures
        match r {
            Some(t) => stamp(content@) == Some(t as nat) && 0 <= t,
            None => stamp(content@) is None,
        },
{
    let cs = text::chars_of(content);
    read_stamp(cs.as_slice())
}

fn read_stamp(content: &[char]) -> (r: Option<i64>)
    ensures
        match r {
            Some(t) => stamp(content@) == Some(t as nat) && 0 <= t,
            None => stamp(content@) is None,
        },
{
    let parts = text::split(content, ':');
    let ghost ps = text::rows(parts@);
    let n: usize = parts.len();
    assert(ps.len() == n);
    if n < 2 || n > 3 {
        return None;
    }
    assert(ps[n - 1] == parts@[n - 1]@ && ps[n - 2] == parts@[n - 2]@ && ps[0] == parts@[0]@);
    let last = parts[n - 1].as_slice();
    let dot = text::position(last, '.', 0);
    let whole: usize = match dot {
        Some(i) => i,
        None => last.len(),
    };
    let secs = &last[0..whole];
    assert(secs@ == around_dot(ps[n - 1]).0);
    let mins = parts[n - 2].as_slice();
    if secs.len() == 0 || !are_digits(secs) || mins.len() == 0 || !are_digits(mins) {
        return None;
    }
    let hours = parts[0].as_slice();
    if n == 3 && (hours.len() == 0 || !are_digits(hours)) {
        return None;
    }
    let nanos: u64 = match dot {
        Some(i) => {
            let end: usize = last.len();
            let f = &last[i + 1..end];
            assert(f@ == around_dot(ps[n - 1]).1->0);
            if f.len() == 0 || !are_digits(f) {
                return None;
            }
            proof {
                if f@.len() <= 9 {
                    lemma_fraction(f@);
                } else {
                    assert(f@.len() + (9 - f@.len()) == 9);
                    lemma_number_bound(f@.take(9));
                    lemma_pow10_of(9);
                }
            }
            moved_capped(f, 9 - f.len() as i128)
        },
        None => 0,
    };
    let cap: u128 = 10_000_000_000_000_000_000;
    let h: u128 = if n == 3 {
        number_capped(hours, cap)
    } else {
        0
    };
    let m: u128 = number_capped(mins, cap);
    let s: u128 = number_capped(secs, cap);
    let total: u128 = (h * 3600 + m * 60 + s) * 1_000_000_000 + nanos as u128;
    proof {
        let eh = if n == 3 {
            number(ps[0])
        } else {
            0
        };
        lemma_capped_sum(
            eh,
            number(ps[n - 2]),
            number(around_dot(ps[n - 1]).0),
            nanos as nat,
            cap as nat,
        );
    }
    if total < LIMIT as u128 {
        Some(total as i64)
    } else {
        Some(LIMIT as i64)
    }
}

proof fn lemma_number_bound(s: Seq<char>)
    requires
        all_digits(s),
    ensures
        number(s) < pow10(s.len()),
    decreases s.len(),
{
    if s.len() > 0 {
        assert(is_digit(s[s.len() - 1]));
        assert forall|i: int| 0 <= i < s.drop_last().len() implies is_digit(
            #[trigger] s.drop_last()[i],
        ) by {
            assert(is_digit(s[i]));
        }
        lemma_number_bound(s.drop_last());
    }
}

proof fn lemma_pow10_sum(a: nat, b: nat)
    ensures
        pow10(a) * pow10(b) == pow10(a + b),
    decreases a,
{
    let q = pow10(b);
    if a == 0 {
        assert(1 * q == q);
    } else {
        lemma_pow10_sum((a - 1) as nat, b);
        let p = pow10((a - 1) as nat);
        assert((10 * p) * q == 10 * (p * q)) by (nonlinear_arith);
    }
}

proof fn lemma_pow10_of(k: nat)
    requires
        k <= 9,
    ensures
        pow10(k) <= 1_000_000_000,
        pow10(k) * pow10((9 - k) as nat) == 1_000_000_000,
{
    reveal_with_fuel(pow10, 11);
    lemma_pow10_sum(k, (9 - k) as nat);
}

proof fn lemma_fraction(f: Seq<char>)
    requires
        digits(f),
        f.len() <= 9,
    ensures
        moved(f, 9 - f.len()) < 1_000_000_000,
{
    lemma_number_bound(f);
    lemma_pow10_of(f.len());
    let a = number(f);
    let b = pow10(f.len());
    let c = pow10((9 - f.len()) as nat);
    lemma_pow10_positive((9 - f.len()) as nat);
    assert(a * c < b * c) by (nonlinear_arith)
        requires
            a < b,
            c >= 1,
    ;
}

// ── the offset tag ───────────────────────────────────────────────────────────

/// Whether `s` is the word `w`, in any case of ASCII letters.
pub open spec fn is_word(s: Seq<char>, w: Seq<char>) -> bool {
    s.len() == w.len() && forall|i: int| 0 <= i < s.len() ==> text::ascii_lower(#[trigger] s[i]) == w[i]
}

/// Whether `s` starts with a minus sign, and what follows its sign.
pub open spec fn unsigned(s: Seq<char>) -> (bool, Seq<char>) {
    if s.len() > 0 && s[0] == '-' {
        (true, s.skip(1))
    } else if s.len() > 0 && s[0] == '+' {
        (false, s.skip(1))
    } else {
        (false, s)
    }
}

/// The first position of an `e`, or of an `E`.
pub open spec fn exponent_at(s: Seq<char>) -> Option<int> {
    match (text::first_of(s, 'e', 0), text::first_of(s, 'E', 0)) {
        (Some(a), Some(b)) => Some(
            if a < b {
                a
            } else {
                b
            },
        ),
        (Some(a), None) => Some(a),
        (None, b) => b,
    }
}

/// The exponent that follows an `e`: digits with an optional sign.
pub open spec fn exponent(s: Seq<char>) -> Option<int> {
    let (minus, ds) = unsigned(s);
    if digits(ds) {
        Some(
            if minus {
                -(number(ds) as int)
            } else {
                number(ds) as int
            },
        )
    } else {
        None
    }
}

/// The nanoseconds in a number of milliseconds without a sign: digits with an
/// optional dot among them and an optional exponent, or a word for infinity.
pub open spec fn magnitude(s: Seq<char>) -> Option<nat> {
    if is_word(s, "inf"@) || is_word(s, "infinity"@) {
        Some(LIMIT as nat)
    } else {
        let (mantissa, exp) = match exponent_at(s) {
            Some(i) => (s.take(i), exponent(s.skip(i + 1))),
            None => (s, Some(0)),
        };
        let (whole, rest) = around_dot(mantissa);
        let frac = match rest {
            Some(f) => f,
            None => Seq::empty(),
        };
        if exp is Some && digits(whole + frac) {
            Some(capped(moved(whole + frac, exp->0 - frac.len() + 6), LIMIT as nat))
        } else {
            None
        }
    }
}

/// `s` without the plus signs it starts with.
pub open spec fn without_plus(s: Seq<char>) -> Seq<char>
    decreases s.len(),
{
    if s.len() > 0 && s[0] == '+' {
        without_plus(s.skip(1))
    } else {
        s
    }
}

/// The offset that the text of an `offset:` tag says, in nanoseconds.
pub open spec fn offset_value(v: Seq<char>) -> Option<int> {
    let (minus, s) = unsigned(without_plus(text::trimmed(v)));
    match magnitude(s) {
        Some(n) => Some(
            if minus {
                -(n as int)
            } else {
                n as int
            },
        ),
        None => None,
    }
}

fn has_word(s: &[char], w: &str) -> (r: bool)
    ensures
        r == is_word(s@, w@),
{
    let cs = text::chars_of(w);
    if s.len() != cs.len() {
        return false;
    }
    let mut i: usize = 0;
    while i < s.len()
        invariant
            cs@ == w@,
            s@.len() == cs@.len(),
            forall|k: int| 0 <= k < i ==> text::ascii_lower(#[trigger] s@[k]) == w@[k],
        decreases s@.len() - i,
    {
        if text::to_ascii_lower(s[i]) != cs[i] {
            return false;
        }
        i += 1;
    }
    true
}

fn without_sign(s: &[char]) -> (r: (bool, &[char]))
    ensures
        r.0 == unsigned(s@).0,
        r.1@ == unsigned(s@).1,
{
    if s.len() > 0 && (s[0] == '-' || s[0] == '+') {
        let rest = &s[1..s.len()];
        assert(rest@ == s@.skip(1));
        (s[0] == '-', rest)
    } else {
        (false, s)
    }
}

/// A bound that no length and no useful exponent reaches.
const FAR: u128 = 1_000_000_000_000_000_000_000_000_000_000;

proof fn lemma_pow10_far(k: nat)
    requires
        k >= 19,
    ensures
        pow10(k) >= 10_000_000_000_000_000_000,
    decreases k,
{
    if k == 19 {
        reveal_with_fuel(pow10, 21);
    } else {
        lemma_pow10_far((k - 1) as nat);
    }
}

/// Beyond a far exponent every number is either nothing or too large to tell.
proof fn lemma_moved_far(ds: Seq<char>, a: int, b: int)
    requires
        (a >= 19 && b >= 19) || (a + ds.len() <= 0 && b + ds.len() <= 0 && a < 0 && b < 0),
    ensures
        capped(moved(ds, a), LIMIT as nat) == capped(moved(ds, b), LIMIT as nat),
{
    if a >= 19 {
        lemma_pow10_far(a as nat);
        lemma_pow10_far(b as nat);
        let n = number(ds);
        let p = pow10(a as nat);
        let q = pow10(b as nat);
        if n == 0 {
            assert(n * p == 0 && n * q == 0) by (nonlinear_arith)
                requires
                    n == 0,
            ;
        } else {
            assert(n * p >= LIMIT && n * q >= LIMIT) by (nonlinear_arith)
                requires
                    n >= 1,
                    p >= 10_000_000_000_000_000_000,
                    q >= 10_000_000_000_000_000_000,
                    LIMIT == 0x7fff_ffff_ffff_ffff,
            ;
        }
    }
}

fn read_exponent(s: &[char]) -> (r: Option<i128>)
    ensures
        match r {
            Some(e) => exponent(s@) is Some && -FAR <= e <= FAR && (e == exponent(s@)->0 || (e
                == FAR && exponent(s@)->0 >= FAR) || (e == -FAR && exponent(s@)->0 <= -FAR)),
            None => exponent(s@) is None,
        },
{
    let (minus, ds) = without_sign(s);
    if ds.len() == 0 || !are_digits(ds) {
        return None;
    }
    let n: i128 = number_capped(ds, FAR) as i128;
    if minus {
        Some(-n)
    } else {
        Some(n)
    }
}

fn read_magnitude(s: &[char]) -> (r: Option<u64>)
    ensures
        match r {
            Some(n) => magnitude(s@) == Some(n as nat) && n <= LIMIT,
            None => magnitude(s@) is None,
        },
{
    if has_word(s, "inf") || has_word(s, "infinity") {
        return Some(LIMIT);
    }
    let n: usize = s.len();
    let at = match (text::position(s, 'e', 0), text::position(s, 'E', 0)) {
        (Some(a), Some(b)) => Some(
            if a < b {
                a
            } else {
                b
            },
        ),
        (Some(a), None) => Some(a),
        (None, b) => b,
    };
    let (mantissa, exp) = match at {
        Some(i) => {
            assert(s@.take(i as int) == s@.subrange(0, i as int));
            assert(s@.skip(i + 1) == s@.subrange(i + 1, s@.len() as int));
            (&s[0..i], read_exponent(&s[i + 1..n]))
        },
        None => (s, Some(0i128)),
    };
    let e: i128 = match exp {
        Some(e) => e,
        None => {
            return None;
        },
    };
    let m: usize = mantissa.len();
    let dot = text::position(mantissa, '.', 0);
    let whole: usize = match dot {
        Some(i) => i,
        None => m,
    };
    let mut ds = text::copied(&mantissa[0..whole]);
    assert(ds@ == around_dot(mantissa@).0);
    let mut places: usize = 0;
    match dot {
        Some(i) => {
            let f = &mantissa[i + 1..m];
            assert(f@ == around_dot(mantissa@).1->0);
            places = f.len();
            let mut more = text::copied(f);
            ds.append(&mut more);
        },
        None => {
            assert(ds@ + Seq::<char>::empty() =~= ds@);
        },
    }
    if ds.len() == 0 || !are_digits(ds.as_slice()) {
        return None;
    }
    let scale: i128 = e - places as i128 + 6;
    proof {
        let exact = match at {
            Some(i) => exponent(s@.skip(i + 1))->0,
            None => 0,
        };
        if e != exact {
            lemma_moved_far(ds@, scale as int, exact - places + 6);
        }
    }
    Some(moved_capped(ds.as_slice(), scale))
}

fn read_offset(v: &[char]) -> (r: Option<i64>)
    ensures
        match r {
            Some(n) => offset_value(v@) == Some(n as int) && -LIMIT <= n <= LIMIT,
            None => offset_value(v@) is None,
        },
{
    let t = text::trim(v);
    let mut i: usize = 0;
    assert(t@.skip(0) == t@);
    while i < t.len() && t[i] == '+'
        invariant
            i <= t@.len(),
            without_plus(t@) == without_plus(t@.skip(i as int)),
        decreases t@.len() - i,
    {
        assert(t@.skip(i as int).skip(1) == t@.skip(i + 1));
        i += 1;
    }
    let body = &t[i..t.len()];
    assert(body@ == t@.skip(i as int));
    let (minus, s) = without_sign(body);
    match read_magnitude(s) {
        Some(n) => if minus {
            Some(-(n as i64))
        } else {
            Some(n as i64)
        },
        None => None,
    }
}

// ── lines ────────────────────────────────────────────────────────────────────

/// The offset after a tag: what an `offset:` tag says, where it says something.
pub open spec fn offset_after(content: Seq<char>, offset: int) -> int {
    if "offset:"@.is_prefix_of(content) {
        match offset_value(content.skip("offset:"@.len() as int)) {
            Some(n) => n,
            None => offset,
        }
    } else {
        offset
    }
}

/// The `[..]` groups that a line starts with, each a timestamp or a tag: the
/// timestamps, the offset after the tags, and the rest of the line.
pub open spec fn peeled(rest: Seq<char>, stamps: Seq<nat>, offset: int) -> (
    Seq<nat>,
    int,
    Seq<char>,
)
    decreases rest.len(),
{
    if rest.len() > 0 && rest[0] == '[' {
        match text::first_of(rest, ']', 1) {
            Some(c) if 1 <= c < rest.len() => {
                let content = rest.subrange(1, c);
                match stamp(content) {
                    Some(t) => peeled(rest.skip(c + 1), stamps.push(t), offset),
                    None => peeled(rest.skip(c + 1), stamps, offset_after(content, offset)),
                }
            },
            _ => (stamps, offset, rest),
        }
    } else {
        (stamps, offset, rest)
    }
}

/// One entry for each timestamp.
pub open spec fn entries(stamps: Seq<nat>, offset: int, words: Seq<char>) -> Seq<LineView> {
    stamps.map_values(|t: nat| LineView { at: clamped(t - offset), text: words })
}

/// The offset of a file: what the last `offset:` tag that says something says, and `start`
/// where none does.
pub open spec fn offset_of(ls: Seq<Seq<char>>, start: int) -> int
    decreases ls.len(),
{
    if ls.len() == 0 {
        start
    } else {
        offset_of(ls.skip(1), peeled(text::trimmed_start(ls[0]), Seq::empty(), start).1)
    }
}

/// The entries of a file in the order in which they stand in it, every timestamp less the
/// offset. A line without a timestamp has none.
pub open spec fn read(ls: Seq<Seq<char>>, offset: int) -> Seq<LineView>
    decreases ls.len(),
{
    if ls.len() == 0 {
        Seq::empty()
    } else {
        let (stamps, _, rest) = peeled(text::trimmed_start(ls[0]), Seq::empty(), offset);
        entries(stamps, offset, text::trimmed(rest)) + read(ls.skip(1), offset)
    }
}

/// Earlier lines first.
pub open spec fn earlier() -> spec_fn(LineView, LineView) -> bool {
    |a: LineView, b: LineView| a.at <= b.at
}

/// The lines of a file, in order of time; lines of one time in the order in which
/// they stand in it.
pub open spec fn parsed(src: Seq<char>) -> Seq<LineView> {
    let ls = text::lines_of(src);
    seqs::sorted(read(ls, offset_of(ls, 0)), earlier())
}

/// Whether lines stand in order of time.
pub open spec fn timed(lines: Seq<LyricLine>) -> bool {
    forall|i: int, j: int|
        0 <= i < j < lines.len() ==> (#[trigger] lines[i]).at <= (#[trigger] lines[j]).at
}

fn peel(line: &[char], offset: i64) -> (r: (Vec<i64>, i64, Vec<char>))
    requires
        -LIMIT <= offset <= LIMIT,
    ensures
        r.0@.map_values(|t: i64| t as nat) == peeled(line@, Seq::empty(), offset as int).0,
        forall|i: int| 0 <= i < r.0@.len() ==> 0 <= #[trigger] r.0@[i],
        r.1 == peeled(line@, Seq::empty(), offset as int).1,
        r.2@ == peeled(line@, Seq::empty(), offset as int).2,
        -LIMIT <= r.1 <= LIMIT,
{
    let mut stamps: Vec<i64> = Vec::new();
    let mut off: i64 = offset;
    let mut from: usize = 0;
    let prefix = text::chars_of("offset:");
    assert(line@.skip(0) == line@);
    assert(stamps@.map_values(|t: i64| t as nat) =~= Seq::empty());
    loop
        invariant
            from <= line@.len(),
            prefix@ == "offset:"@,
            -LIMIT <= off <= LIMIT,
            forall|i: int| 0 <= i < stamps@.len() ==> 0 <= #[trigger] stamps@[i],
            peeled(line@, Seq::empty(), offset as int) == peeled(
                line@.skip(from as int),
                stamps@.map_values(|t: i64| t as nat),
                off as int,
            ),
        decreases line@.len() - from,
    {
        let rest = &line[from..line.len()];
        assert(rest@ == line@.skip(from as int));
        let close = if rest.len() > 0 && rest[0] == '[' {
            text::position(rest, ']', 1)
        } else {
            None
        };
        match close {
            Some(c) => {
                let content = &rest[1..c];
                assert(content@ == rest@.subrange(1, c as int));
                match read_stamp(content) {
                    Some(t) => {
                        let ghost before = stamps@.map_values(|t: i64| t as nat);
                        stamps.push(t);
                        assert(stamps@.map_values(|t: i64| t as nat) =~= before.push(t as nat));
                    },
                    None => {
                        if text::starts_with(content, prefix.as_slice()) {
                            let n: usize = prefix.len();
                            let v = &content[n..content.len()];
                            assert(v@ == content@.skip(n as int));
                            match read_offset(v) {
                                Some(x) => off = x,
                                None => {},
                            }
                        }
                    },
                }
                assert(rest@.skip(c + 1) == line@.skip(from + c + 1));
                from += c + 1;
            },
            None => {
                return (stamps, off, text::copied(rest));
            },
        }
    }
}

fn find_offset(ls: &Vec<Vec<char>>) -> (r: i64)
    ensures
        r == offset_of(text::rows(ls@), 0),
        -LIMIT <= r <= LIMIT,
{
    let ghost rows = text::rows(ls@);
    let mut offset: i64 = 0;
    let mut i: usize = 0;
    assert(rows.skip(0) == rows);
    while i < ls.len()
        invariant
            i <= ls@.len(),
            rows == text::rows(ls@),
            -LIMIT <= offset <= LIMIT,
            offset_of(rows.skip(i as int), offset as int) == offset_of(rows, 0),
        decreases ls@.len() - i,
    {
        assert(rows[i as int] == ls@[i as int]@);
        let start = text::trim_start(ls[i].as_slice());
        let (_, after, _) = peel(start, offset);
        assert(rows.skip(i as int).skip(1) == rows.skip(i + 1));
        offset = after;
        i += 1;
    }
    assert(rows.skip(i as int) =~= Seq::empty());
    offset
}

/// Parses LRC text into timed lines, in order of time. An offset tag shifts every
/// timestamp, wherever it stands.
pub fn parse_lrc(src: &str) -> (r: Vec<LyricLine>)
    ensures
        line_views(r@) == parsed(src@),
        timed(r@),
        r@.len() == read(text::lines_of(src@), 0).len(),
{
    let cs = text::chars_of(src);
    let ls = text::lines(cs.as_slice());
    let ghost rows = text::rows(ls@);
    let offset: i64 = find_offset(&ls);
    let mut out: Vec<LyricLine> = Vec::new();
    let mut i: usize = 0;
    assert(rows.skip(0) == rows);
    assert(line_views(out@) + read(rows.skip(0), offset as int) =~= read(rows, offset as int));
    while i < ls.len()
        invariant
            i <= ls@.len(),
            rows == text::rows(ls@),
            -LIMIT <= offset <= LIMIT,
            line_views(out@) + read(rows.skip(i as int), offset as int) == read(rows, offset as int),
        decreases ls@.len() - i,
    {
        assert(rows[i as int] == ls@[i as int]@);
        let start = text::trim_start(ls[i].as_slice());
        let (stamps, _, rest) = peel(start, offset);
        let words = text::string_of(text::trim(rest.as_slice()));
        let ghost before = line_views(out@);
        let ghost all = stamps@.map_values(|t: i64| t as nat);
        let mut k: usize = 0;
        assert(before + entries(all.take(0), offset as int, words@) =~= before);
        while k < stamps.len()
            invariant
                k <= stamps@.len(),
                all == stamps@.map_values(|t: i64| t as nat),
                -LIMIT <= offset <= LIMIT,
                forall|i: int| 0 <= i < stamps@.len() ==> 0 <= #[trigger] stamps@[i],
                line_views(out@) == before + entries(all.take(k as int), offset as int, words@),
            decreases stamps@.len() - k,
        {
            let diff: i128 = stamps[k] as i128 - offset as i128;
            let at: i64 = if diff > 0x7fff_ffff_ffff_ffff {
                0x7fff_ffff_ffff_ffff
            } else {
                diff as i64
            };
            let ghost old_views = line_views(out@);
            let l = LyricLine { at, text: words.clone() };
            assert(l@ == (LineView { at: clamped(all[k as int] - offset), text: words@ }));
            out.push(l);
            proof {
                assert(line_views(out@) =~= old_views.push(l@));
                assert(entries(all.take(k + 1), offset as int, words@) =~= entries(
                    all.take(k as int),
                    offset as int,
                    words@,
                ).push(l@));
                assert(line_views(out@) =~= before + entries(
                    all.take(k + 1),
                    offset as int,
                    words@,
                ));
            }
            k += 1;
        }
        assert(all.take(all.len() as int) == all);
        assert(rows.skip(i as int).skip(1) == rows.skip(i + 1));
        assert(line_views(out@) + read(rows.skip(i + 1), offset as int) =~= before + read(
            rows.skip(i as int),
            offset as int,
        ));
        i += 1;
    }
    assert(rows.skip(i as int) =~= Seq::empty());
    assert(line_views(out@) + Seq::<LineView>::empty() =~= line_views(out@));
    proof {
        lemma_read_shifts(rows, offset as int);
    }
    let ghost unsorted = out@;
    seqs::sort(&mut out);
    proof {
        let le = seqs::order::<LyricLine>();
        assert(seqs::total(le));
        seqs::lemma_sorted_in_order(unsorted, le);
        seqs::lemma_sorted_permutes(unsorted, le);
        seqs::lemma_sorted_map(
            unsorted,
            le,
            |l: LyricLine| l@,
            earlier(),
            |l: LyricLine| true,
        );
        assert forall|i: int, j: int| 0 <= i < j < out@.len() implies (#[trigger] out@[i]).at <= (
        #[trigger] out@[j]).at by {
            assert(le(out@[i], out@[j]));
        }
    }
    out
}

/// Whether line `i` is the one that is sung at `t`: it has begun, and the next has not.
pub open spec fn is_active(lines: Seq<LyricLine>, t: int, i: int) -> bool {
    0 <= i < lines.len() && lines[i].at <= t && (i + 1 < lines.len() ==> lines[i + 1].at > t)
}

/// How many lines have begun at `t`.
fn begun(lines: &[LyricLine], t: i64) -> (n: usize)
    requires
        timed(lines@),
    ensures
        n <= lines@.len(),
        forall|i: int| 0 <= i < n ==> (#[trigger] lines@[i]).at <= t,
        forall|i: int| n <= i < lines@.len() ==> (#[trigger] lines@[i]).at > t,
{
    let mut lo: usize = 0;
    let mut hi: usize = lines.len();
    while lo < hi
        invariant
            lo <= hi <= lines@.len(),
            timed(lines@),
            forall|i: int| 0 <= i < lo ==> (#[trigger] lines@[i]).at <= t,
            forall|i: int| hi <= i < lines@.len() ==> (#[trigger] lines@[i]).at > t,
        decreases hi - lo,
    {
        let mid: usize = lo + (hi - lo) / 2;
        if lines[mid].at <= t {
            assert forall|i: int| 0 <= i < mid + 1 implies (#[trigger] lines@[i]).at <= t by {
                if i < mid {
                    assert(lines@[i].at <= lines@[mid as int].at);
                }
            }
            lo = mid + 1;
        } else {
            assert forall|i: int| mid <= i < lines@.len() implies (#[trigger] lines@[i]).at > t by {
                if i > mid {
                    assert(lines@[mid as int].at <= lines@[i].at);
                }
            }
            hi = mid;
        }
    }
    lo
}

/// Whether lines stand in the order of their times.
pub fn is_timed(lines: &[LyricLine]) -> (r: bool)
    ensures
        r == timed(lines@),
{
    let mut i: usize = 1;
    while i < lines.len()
        invariant
            1 <= i,
            forall|a: int, b: int|
                0 <= a <= b < i && b < lines@.len() ==> (#[trigger] lines@[a]).at <= (
                #[trigger] lines@[b]).at,
        decreases lines@.len() - i,
    {
        if lines[i - 1].at > lines[i].at {
            return false;
        }
        i += 1;
    }
    true
}

/// The line that is sung at `t`; `None` before the first. After the last one's
/// start it stays active.
pub fn active_index(lines: &[LyricLine], t: i64) -> (r: Option<usize>)
    requires
        timed(lines@),
    ensures
        match r {
            Some(i) => is_active(lines@, t as int, i as int),
            None => lines@.len() == 0 || t < lines@[0].at,
        },
{
    let n: usize = begun(lines, t);
    if n == 0 {
        None
    } else {
        Some(n - 1)
    }
}

/// The time until the next line begins, strictly after `t`; `None` on the last.
pub fn next_boundary(lines: &[LyricLine], t: i64) -> (r: Option<u64>)
    requires
        timed(lines@),
    ensures
        match r {
            Some(d) => exists|i: int|
                #![trigger lines@[i]]
                0 <= i < lines@.len() && lines@[i].at == t + d && d > 0 && forall|j: int|
                    0 <= j < i ==> (#[trigger] lines@[j]).at <= t,
            None => forall|j: int| 0 <= j < lines@.len() ==> (#[trigger] lines@[j]).at <= t,
        },
{
    let n: usize = begun(lines, t);
    if n < lines.len() {
        let d: i128 = lines[n].at as i128 - t as i128;
        assert(lines@[n as int].at == t + d);
        Some(d as u64)
    } else {
        None
    }
}

/// At most one line is sung at a time.
pub proof fn one_line_is_active(lines: Seq<LyricLine>, t: int, i: int, j: int)
    requires
        timed(lines),
        is_active(lines, t, i),
        is_active(lines, t, j),
    ensures
        i == j,
{
    if i < j {
        if i + 1 < j {
            assert(lines[i + 1].at <= lines[j].at);
        }
    } else if j < i {
        if j + 1 < i {
            assert(lines[j + 1].at <= lines[i].at);
        }
    }
}

/// Between two boundaries the line that is sung stays the same.
pub proof fn the_line_changes_only_at_boundaries(
    lines: Seq<LyricLine>,
    t: int,
    u: int,
    i: int,
)
    requires
        timed(lines),
        is_active(lines, t, i),
        t <= u,
        forall|j: int| 0 <= j < lines.len() && (#[trigger] lines[j]).at > t ==> lines[j].at > u,
    ensures
        is_active(lines, u, i),
{
}

proof fn lemma_peeled_apart(rest: Seq<char>, stamps: Seq<nat>, a: int, b: int)
    requires
        forall|i: int| 0 <= i < stamps.len() ==> #[trigger] stamps[i] <= LIMIT,
    ensures
        peeled(rest, stamps, a).0 == peeled(rest, stamps, b).0,
        peeled(rest, stamps, a).2 == peeled(rest, stamps, b).2,
        forall|i: int|
            0 <= i < peeled(rest, stamps, a).0.len() ==> #[trigger] peeled(rest, stamps, a).0[i]
                <= LIMIT,
    decreases rest.len(),
{
    if rest.len() > 0 && rest[0] == '[' {
        match text::first_of(rest, ']', 1) {
            Some(c) if 1 <= c < rest.len() => {
                let content = rest.subrange(1, c);
                match stamp(content) {
                    Some(t) => lemma_peeled_apart(rest.skip(c + 1), stamps.push(t), a, b),
                    None => lemma_peeled_apart(
                        rest.skip(c + 1),
                        stamps,
                        offset_after(content, a),
                        offset_after(content, b),
                    ),
                }
            },
            _ => {},
        }
    }
}

/// What an offset makes of an entry that was read without one.
pub open spec fn shifted(e: LineView, offset: int) -> LineView {
    LineView { at: clamped(e.at - offset), text: e.text }
}

proof fn lemma_read_shifts(ls: Seq<Seq<char>>, offset: int)
    ensures
        read(ls, offset) == read(ls, 0).map_values(|e: LineView| shifted(e, offset)),
    decreases ls.len(),
{
    let f = |e: LineView| shifted(e, offset);
    if ls.len() > 0 {
        lemma_read_shifts(ls.skip(1), offset);
        let line = text::trimmed_start(ls[0]);
        lemma_peeled_apart(line, Seq::empty(), 0, offset);
        let (stamps, _, rest) = peeled(line, Seq::empty(), 0);
        let words = text::trimmed(rest);
        assert(entries(stamps, offset, words) =~= entries(stamps, 0, words).map_values(f));
        assert((entries(stamps, 0, words) + read(ls.skip(1), 0)).map_values(f) =~= entries(
            stamps,
            0,
            words,
        ).map_values(f) + read(ls.skip(1), 0).map_values(f));
    } else {
        assert(read(ls, 0).map_values(f) =~= Seq::empty());
    }
}

proof fn lemma_offset_of_parts(a: Seq<Seq<char>>, b: Seq<Seq<char>>, start: int)
    ensures
        offset_of(a + b, start) == offset_of(b, offset_of(a, start)),
    decreases a.len(),
{
    if a.len() == 0 {
        assert(a + b =~= b);
    } else {
        let next = peeled(text::trimmed_start(a[0]), Seq::empty(), start).1;
        lemma_offset_of_parts(a.skip(1), b, next);
        assert((a + b).skip(1) =~= a.skip(1) + b);
        assert((a + b)[0] == a[0]);
    }
}

proof fn lemma_offset_line(tag: Seq<char>, n: int, start: int)
    requires
        offset_value(tag) == Some(n),
        !tag.contains(']'),
    ensures
        peeled(text::trimmed_start("[offset:"@ + tag + "]"@), Seq::empty(), start).1 == n,
{
    reveal_strlit("[offset:");
    reveal_strlit("offset:");
    reveal_strlit("]");
    let line = "[offset:"@ + tag + "]"@;
    let content = "offset:"@ + tag;
    let c = line.len() - 1;
    assert(line[0] == '[');
    assert(text::trimmed_start(line) == line);
    text::lemma_first_of(line, ']', 1);
    assert(line[c] == ']');
    assert forall|j: int| 1 <= j < c implies line[j] != ']' by {
        if j >= 8 {
            assert(line[j] == tag[j - 8]);
            assert(tag.contains(tag[j - 8]));
        }
    }
    assert(text::first_of(line, ']', 1) == Some(c));
    assert(line.subrange(1, c) =~= content);
    assert(content.skip(7) =~= tag);
    assert("offset:"@.is_prefix_of(content)) by {
        assert(content.subrange(0, 7) =~= "offset:"@);
        assert(content.take(7) =~= "offset:"@);
    }
    assert(stamp(content) is None) by {
        lemma_offset_is_no_stamp(tag);
    }
    assert(line.skip(c + 1) =~= Seq::<char>::empty());
    assert(peeled(line, Seq::empty(), start) == peeled(line.skip(c + 1), Seq::empty(), n));
}

/// An offset tag shifts every timestamp of a file, whichever line it stands on: those of
/// the lines before it no less than those behind, towards the start where it is positive.
/// Of several tags the last decides.
pub proof fn an_offset_shifts_every_timestamp(
    before: Seq<Seq<char>>,
    after: Seq<Seq<char>>,
    tag: Seq<char>,
    n: int,
)
    requires
        offset_value(tag) == Some(n),
        !tag.contains(']'),
        offset_of(after, n) == n,
    ensures
        ({
            let ls = before + seq!["[offset:"@ + tag + "]"@] + after;
            &&& offset_of(ls, 0) == n
            &&& read(ls, n) == read(ls, 0).map_values(|e: LineView| shifted(e, n))
        }),
{
    let line = "[offset:"@ + tag + "]"@;
    let ls = before + seq![line] + after;
    let start = offset_of(before, 0);
    lemma_read_shifts(ls, n);
    lemma_offset_line(tag, n, start);
    lemma_offset_of_parts(before, seq![line], 0);
    lemma_offset_of_parts(before + seq![line], after, 0);
    assert(seq![line].skip(1) =~= Seq::empty());
    assert(offset_of(Seq::<Seq<char>>::empty(), n) == n);
    assert(offset_of(seq![line], start) == n);
}

proof fn lemma_offset_is_no_stamp(tag: Seq<char>)
    ensures
        stamp("offset:"@ + tag) is None,
{
    reveal_strlit("offset:");
    let s = "offset:"@ + tag;
    text::lemma_first_of(s, ':', 0);
    assert(s[6] == ':');
    assert(text::first_of(s, ':', 0) == Some(6int)) by {
        let i = text::first_of(s, ':', 0)->0;
        assert(i <= 6);
        assert(s[0] == 'o' && s[1] == 'f' && s[2] == 'f' && s[3] == 's' && s[4] == 'e' && s[5]
            == 't');
    }
    let parts = text::split_on(s, ':');
    assert(parts == seq![s.take(6)] + text::split_on(s.skip(7), ':'));
    assert(parts[0] == s.take(6));
    assert(s.take(6)[0] == 'o');
    let n = parts.len() as int;
    assert(!is_digit(parts[0][0]));
    assert(!digits(parts[0]));
}

} // verus!
