//! Exact fixed-point decimals and their shortest text form.
//!
//! A `Decimal` is a count of `10^-scale` units. Its text is written without
//! leading zeros in the whole part and without trailing zeros in the fraction,
//! so that every value has exactly one text and reading that text back gives
//! the value again.
use vstd::prelude::*;

verus! {

/// Largest number of fractional digits a `Decimal` may carry: `10^38` still fits in a `u128`.
pub const MAX_SCALE: u32 = 38;

pub open spec fn pow10(k: nat) -> nat
    decreases k,
{
    if k == 0 {
        1
    } else {
        10 * pow10((k - 1) as nat)
    }
}

/// The character that writes the digit `d`.
pub open spec fn digit_char(d: nat) -> char {
    ((d + 48) as u8) as char
}

pub open spec fn is_digit(c: char) -> bool {
    '0' <= c && c <= '9'
}

/// The digit that the character `c` writes.
pub open spec fn digit_value(c: char) -> nat {
    (c as u32 - 48) as nat
}

pub open spec fn all_digits(s: Seq<char>) -> bool {
    forall|i: int| 0 <= i < s.len() ==> is_digit(#[trigger] s[i])
}

/// The number that a string of digits writes, most significant digit first.
pub open spec fn digits_value(s: Seq<char>) -> nat
    decreases s.len(),
{
    if s.len() == 0 {
        0
    } else {
        10 * digits_value(s.drop_last()) + digit_value(s.last())
    }
}

/// The digits of `n` without leading zeros (`"0"` for zero).
pub open spec fn int_digits(n: nat) -> Seq<char>
    decreases n,
{
    if n < 10 {
        seq![digit_char(n)]
    } else {
        int_digits(n / 10).push(digit_char(n % 10))
    }
}

/// The last `k` digits of `f`, padded with leading zeros.
pub open spec fn frac_digits(f: nat, k: nat) -> Seq<char>
    decreases k,
{
    if k == 0 {
        Seq::empty()
    } else {
        frac_digits(f / 10, (k - 1) as nat).push(digit_char(f % 10))
    }
}

/// `s` without its trailing `'0'` characters.
pub open spec fn trim_zeros(s: Seq<char>) -> Seq<char>
    decreases s.len(),
{
    if s.len() > 0 && s.last() == '0' {
        trim_zeros(s.drop_last())
    } else {
        s
    }
}

/// The shortest text of the number `units / 10^scale`: the whole part, then,
/// when the fraction is not zero, a dot and the fraction's digits up to its
/// last non-zero one.
pub open spec fn decimal_text(units: nat, scale: nat) -> Seq<char> {
    let whole = int_digits(units / pow10(scale));
    let fraction = trim_zeros(frac_digits(units, scale));
    if fraction.len() == 0 {
        whole
    } else {
        whole + seq!['.'] + fraction
    }
}

/// The shortest text of a `Decimal`.
pub open spec fn text_of(d: Decimal) -> Seq<char> {
    decimal_text(d.units as nat, d.scale as nat)
}

/// `s` is digits, a dot at `i`, then at most `scale` digits, with digits on both sides.
pub open spec fn dot_split(s: Seq<char>, i: int, scale: nat) -> bool {
    &&& 0 < i < s.len() - 1
    &&& s[i] == '.'
    &&& all_digits(s.subrange(0, i))
    &&& all_digits(s.subrange(i + 1, s.len() as int))
    &&& s.len() - 1 - i <= scale
}

/// The number of `10^-scale` units that the text `s` writes, if it is a decimal
/// number with at most `scale` fractional digits.
pub open spec fn text_value(s: Seq<char>, scale: nat) -> Option<nat> {
    if s.len() > 0 && all_digits(s) {
        Some(digits_value(s) * pow10(scale))
    } else if exists|i: int| dot_split(s, i, scale) {
        let i = choose|i: int| dot_split(s, i, scale);
        let frac = s.subrange(i + 1, s.len() as int);
        Some(
            digits_value(s.subrange(0, i)) * pow10(scale) + digits_value(frac) * pow10(
                (scale - frac.len()) as nat,
            ),
        )
    } else {
        None
    }
}

/// What reading `s` at `scale` gives: the value that `s` writes, when there is
/// one and it fits in a `u128`.
pub open spec fn parsed_decimal(s: Seq<char>, scale: u32) -> Option<Decimal> {
    match text_value(s, scale as nat) {
        Some(v) => if v <= u128::MAX {
            Some(Decimal { units: v as u128, scale })
        } else {
            None
        },
        None => None,
    }
}

pub proof fn lemma_pow10_positive(k: nat)
    ensures
        pow10(k) >= 1,
    decreases k,
{
    if k > 0 {
        lemma_pow10_positive((k - 1) as nat);
    }
}

proof fn lemma_div_by_next_pow10(x: nat, i: nat)
    ensures
        x / pow10(i) / 10 == x / pow10(i + 1),
{
    lemma_pow10_positive(i);
    vstd::arithmetic::div_mod::lemma_div_denominator(x as int, pow10(i) as int, 10);
    assert(pow10(i + 1) == pow10(i) * 10);
}

proof fn lemma_trim_zero_digit(f: nat, k: nat)
    requires
        k > 0,
        f % 10 == 0,
    ensures
        trim_zeros(frac_digits(f, k)) == trim_zeros(frac_digits(f / 10, (k - 1) as nat)),
{
    let s = frac_digits(f / 10, (k - 1) as nat);
    assert(frac_digits(f, k) == s.push('0'));
    assert(s.push('0').drop_last() =~= s);
}

pub proof fn lemma_pow10_monotone(a: nat, b: nat)
    requires
        a <= b,
    ensures
        pow10(a) <= pow10(b),
    decreases b,
{
    if a < b {
        lemma_pow10_monotone(a, (b - 1) as nat);
        lemma_pow10_positive((b - 1) as nat);
    }
}

proof fn lemma_pow10_max_scale()
    ensures
        pow10(MAX_SCALE as nat) == 100000000000000000000000000000000000000nat,
        pow10(MAX_SCALE as nat) < u128::MAX,
{
    reveal_with_fuel(pow10, 39);
}

proof fn lemma_digits_below_pow10(s: Seq<char>)
    requires
        all_digits(s),
    ensures
        digits_value(s) < pow10(s.len()),
    decreases s.len(),
{
    if s.len() > 0 {
        let t = s.drop_last();
        assert(all_digits(t)) by {
            assert forall|i: int| 0 <= i < t.len() implies is_digit(#[trigger] t[i]) by {
                assert(t[i] == s[i]);
            }
        }
        lemma_digits_below_pow10(t);
        assert(is_digit(s[s.len() - 1]));
    }
}

proof fn lemma_digits_prefix_le(s: Seq<char>, j: int)
    requires
        0 <= j <= s.len(),
    ensures
        digits_value(s.subrange(0, j)) <= digits_value(s),
    decreases s.len(),
{
    if j == s.len() {
        assert(s.subrange(0, j) =~= s);
    } else {
        let t = s.drop_last();
        lemma_digits_prefix_le(t, j);
        assert(t.subrange(0, j) =~= s.subrange(0, j));
    }
}

proof fn lemma_digit_char(d: nat)
    requires
        d < 10,
    ensures
        is_digit(digit_char(d)),
        digit_value(digit_char(d)) == d,
{
}

proof fn lemma_int_digits(n: nat)
    ensures
        int_digits(n).len() >= 1,
        all_digits(int_digits(n)),
        digits_value(int_digits(n)) == n,
    decreases n,
{
    if n >= 10 {
        lemma_int_digits(n / 10);
        lemma_digit_char(n % 10);
        let t = int_digits(n / 10);
        assert(int_digits(n).drop_last() =~= t);
        assert(int_digits(n).last() == digit_char(n % 10));
        assert(digits_value(int_digits(n)) == 10 * (n / 10) + n % 10);
    } else {
        lemma_digit_char(n);
        assert(seq![digit_char(n)].drop_last() =~= Seq::<char>::empty());
        assert(digits_value(Seq::<char>::empty()) == 0);
    }
}

proof fn lemma_frac_digits(f: nat, k: nat)
    ensures
        frac_digits(f, k).len() == k,
        all_digits(frac_digits(f, k)),
        digits_value(frac_digits(f, k)) == f % pow10(k),
    decreases k,
{
    if k > 0 {
        lemma_frac_digits(f / 10, (k - 1) as nat);
        let t = frac_digits(f / 10, (k - 1) as nat);
        assert(frac_digits(f, k).drop_last() =~= t);
        lemma_pow10_positive((k - 1) as nat);
        vstd::arithmetic::div_mod::lemma_mod_breakdown(f as int, 10, pow10((k - 1) as nat) as int);
    } else {
        assert(f % 1 == 0);
    }
}

proof fn lemma_trim_zeros(t: Seq<char>)
    ensures
        trim_zeros(t).len() <= t.len(),
        trim_zeros(t) =~= t.subrange(0, trim_zeros(t).len() as int),
        digits_value(t) == digits_value(trim_zeros(t)) * pow10((t.len() - trim_zeros(t).len()) as nat),
    decreases t.len(),
{
    if t.len() > 0 && t.last() == '0' {
        let u = t.drop_last();
        lemma_trim_zeros(u);
        let r = trim_zeros(u);
        assert(trim_zeros(t) == r);
        assert(u.subrange(0, r.len() as int) =~= t.subrange(0, r.len() as int));
        let e = (u.len() - r.len()) as nat;
        assert(pow10(e + 1) == pow10(e) * 10);
        assert((t.len() - r.len()) as nat == e + 1);
        assert(digits_value(t) == 10 * digits_value(u));
        assert(digits_value(u) == digits_value(r) * pow10(e));
        vstd::arithmetic::mul::lemma_mul_is_associative(
            digits_value(r) as int,
            pow10(e) as int,
            10,
        );
        assert(digits_value(t) == digits_value(r) * pow10(e + 1));
    } else {
        assert(t.subrange(0, t.len() as int) =~= t);
        assert(pow10(0) == 1);
        assert(digits_value(t) == digits_value(t) * pow10(0));
    }
}

proof fn lemma_subrange_all_digits(s: Seq<char>, a: int, b: int)
    requires
        all_digits(s),
        0 <= a <= b <= s.len(),
    ensures
        all_digits(s.subrange(a, b)),
{
    assert forall|i: int| 0 <= i < b - a implies is_digit(#[trigger] s.subrange(a, b)[i]) by {
        assert(s.subrange(a, b)[i] == s[a + i]);
    }
}

/// Any dot that splits `s` as `dot_split` asks is the first dot of `s`.
proof fn lemma_dot_split_unique(s: Seq<char>, i: int, j: int, scale: nat)
    requires
        dot_split(s, i, scale),
        0 <= j < s.len(),
        s[j] == '.',
        forall|k: int| 0 <= k < j ==> s[k] != '.',
    ensures
        i == j,
{
    if i > j {
        assert(s.subrange(0, i)[j] == s[j]);
        assert(is_digit(s.subrange(0, i)[j]));
    }
}

/// Writing a value as text and reading that text back gives the value again.
pub proof fn lemma_text_round_trip(units: nat, scale: nat)
    ensures
        text_value(decimal_text(units, scale), scale) == Some(units),
{
    let p = pow10(scale);
    lemma_pow10_positive(scale);
    let w = int_digits(units / p);
    let t = frac_digits(units, scale);
    let f = trim_zeros(t);
    lemma_int_digits(units / p);
    lemma_frac_digits(units, scale);
    lemma_trim_zeros(t);
    lemma_subrange_all_digits(t, 0, f.len() as int);
    vstd::arithmetic::div_mod::lemma_fundamental_div_mod(units as int, p as int);
    vstd::arithmetic::mul::lemma_mul_is_commutative(p as int, (units / p) as int);
    assert((units / p) * p + units % p == units);
    let text = decimal_text(units, scale);
    if f.len() == 0 {
        assert(text == w);
        assert(digits_value(f) == 0) by {
            assert(f =~= Seq::<char>::empty());
        }
        assert(digits_value(t) == 0) by {
            vstd::arithmetic::mul::lemma_mul_basics(pow10(scale) as int);
        }
        assert(units % p == 0);
        assert(text_value(text, scale) == Some(digits_value(w) * p));
    } else {
        let d = w.len() as int;
        assert(text == w + seq!['.'] + f);
        assert(text[d] == '.');
        assert(!is_digit(text[d]));
        assert(text.subrange(0, d) =~= w);
        assert(text.subrange(d + 1, text.len() as int) =~= f);
        assert(dot_split(text, d, scale));
        let i = choose|i: int| dot_split(text, i, scale);
        assert forall|k: int| 0 <= k < d implies text[k] != '.' by {
            assert(text[k] == w[k]);
            assert(is_digit(w[k]));
        }
        lemma_dot_split_unique(text, i, d, scale);
        assert(digits_value(t) == digits_value(f) * pow10((scale - f.len()) as nat));
        assert(i == d);
        assert(text_value(text, scale) == Some(
            digits_value(w) * p + digits_value(f) * pow10((scale - f.len()) as nat),
        ));
    }
}

proof fn lemma_pow10_add(a: nat, b: nat)
    ensures
        pow10(a) * pow10(b) == pow10(a + b),
    decreases a,
{
    if a > 0 {
        let a1 = (a - 1) as nat;
        lemma_pow10_add(a1, b);
        vstd::arithmetic::mul::lemma_mul_is_associative(10, pow10(a1) as int, pow10(b) as int);
        assert(pow10(a) == 10 * pow10(a1));
        assert((a1 + b) as nat == (a + b - 1) as nat);
        assert(pow10(a + b) == 10 * pow10((a1 + b) as nat));
        assert(pow10(a) * pow10(b) == 10 * (pow10(a1) * pow10(b)));
        assert(pow10(a) * pow10(b) == pow10(a + b));
    } else {
        assert(pow10(a) == 1);
        assert(a + b == b);
        assert(pow10(a) * pow10(b) == pow10(b));
    }
}

/// `10^k`.
pub fn pow10_u128(k: u32) -> (r: u128)
    requires
        k <= MAX_SCALE,
    ensures
        r == pow10(k as nat),
{
    proof {
        lemma_pow10_max_scale();
    }
    let mut p: u128 = 1;
    let mut i: u32 = 0;
    assert(pow10(0) == 1);
    while i < k
        invariant
            i <= k <= MAX_SCALE,
            p == pow10(i as nat),
            pow10(MAX_SCALE as nat) < u128::MAX,
        decreases k - i,
    {
        proof {
            lemma_pow10_monotone((i + 1) as nat, MAX_SCALE as nat);
        }
        p = p * 10;
        i = i + 1;
    }
    p
}

/// Reads the digits of `text` between the positions `from` and `to`.
fn read_digits(text: &str, from: usize, to: usize) -> (r: Option<u128>)
    requires
        from <= to <= text@.len(),
    ensures
        ({
            let s = text@.subrange(from as int, to as int);
            match r {
                Some(v) => all_digits(s) && v == digits_value(s),
                None => !all_digits(s) || digits_value(s) > u128::MAX,
            }
        }),
{
    let ghost s = text@.subrange(from as int, to as int);
    let mut acc: u128 = 0;
    let mut i: usize = from;
    assert(text@.subrange(from as int, from as int) =~= Seq::<char>::empty());
    assert(digits_value(Seq::<char>::empty()) == 0);
    while i < to
        invariant
            from <= i <= to <= text@.len(),
            s == text@.subrange(from as int, to as int),
            all_digits(text@.subrange(from as int, i as int)),
            acc == digits_value(text@.subrange(from as int, i as int)),
        decreases to - i,
    {
        let c = text.get_char(i);
        let ghost next = text@.subrange(from as int, i + 1);
        assert(s[i - from] == c);
        if c < '0' || c > '9' {
            return None;
        }
        let d: u128 = (c as u32 - 48) as u128;
        assert(next.drop_last() =~= text@.subrange(from as int, i as int));
        assert(next.last() == c);
        assert(digits_value(next) == 10 * acc + d);
        assert(next =~= s.subrange(0, i + 1 - from));
        let m = acc.checked_mul(10);
        if m.is_none() {
            proof {
                if all_digits(s) {
                    lemma_digits_prefix_le(s, i + 1 - from);
                }
            }
            return None;
        }
        let v = m.unwrap().checked_add(d);
        if v.is_none() {
            proof {
                if all_digits(s) {
                    lemma_digits_prefix_le(s, i + 1 - from);
                }
            }
            return None;
        }
        acc = v.unwrap();
        assert forall|k: int| 0 <= k < next.len() implies is_digit(#[trigger] next[k]) by {
            if k < next.len() - 1 {
                assert(next[k] == text@.subrange(from as int, i as int)[k]);
            }
        }
        i = i + 1;
    }
    assert(text@.subrange(from as int, i as int) == s);
    Some(acc)
}

/// Formatting a well-formed `Decimal` and reading the text back at the same
/// scale gives the same `Decimal`, bit for bit.
pub proof fn lemma_decimal_round_trip(d: Decimal)
    requires
        d.wf(),
    ensures
        parsed_decimal(decimal_text(d.units as nat, d.scale as nat), d.scale) == Some(d),
{
    lemma_text_round_trip(d.units as nat, d.scale as nat);
}

fn digit_str(d: u128) -> (s: &'static str)
    requires
        d < 10,
    ensures
        s@ == seq![digit_char(d as nat)],
{
    proof {
        reveal_strlit("0");
        reveal_strlit("1");
        reveal_strlit("2");
        reveal_strlit("3");
        reveal_strlit("4");
        reveal_strlit("5");
        reveal_strlit("6");
        reveal_strlit("7");
        reveal_strlit("8");
        reveal_strlit("9");
    }
    let s = if d == 0 {
        "0"
    } else if d == 1 {
        "1"
    } else if d == 2 {
        "2"
    } else if d == 3 {
        "3"
    } else if d == 4 {
        "4"
    } else if d == 5 {
        "5"
    } else if d == 6 {
        "6"
    } else if d == 7 {
        "7"
    } else if d == 8 {
        "8"
    } else {
        "9"
    };
    assert(s@ =~= seq![digit_char(d as nat)]);
    s
}

fn push_int_digits(n: u128, out: &mut String)
    ensures
        final(out)@ == old(out)@ + int_digits(n as nat),
    decreases n,
{
    if n >= 10 {
        push_int_digits(n / 10, out);
    }
    out.append(digit_str(n % 10));
    assert(out@ =~= old(out)@ + int_digits(n as nat));
}

/// A fixed-point number: `units` counts steps of `10^-scale`.
#[derive(Clone, Copy, Debug, PartialEq, Eq, Structural)]
pub struct Decimal {
    pub units: u128,
    pub scale: u32,
}

impl Decimal {
    pub open spec fn wf(&self) -> bool {
        self.scale <= MAX_SCALE
    }

    pub fn new(units: u128, scale: u32) -> (r: Decimal)
        ensures
            r.units == units,
            r.scale == scale,
    {
        Decimal { units, scale }
    }

    /// The shortest decimal text of the value.
    pub fn to_text(&self) -> (r: String)
        ensures
            r@ == decimal_text(self.units as nat, self.scale as nat),
    {
        let mut whole: u128 = self.units;
        let mut i: u32 = 0;
        assert(pow10(0) == 1);
        while i < self.scale
            invariant
                i <= self.scale,
                whole as nat == self.units as nat / pow10(i as nat),
            decreases self.scale - i,
        {
            proof {
                lemma_div_by_next_pow10(self.units as nat, i as nat);
            }
            whole = whole / 10;
            i = i + 1;
        }
        let mut f: u128 = self.units;
        let mut k: u32 = self.scale;
        while k > 0 && f % 10 == 0
            invariant
                k <= self.scale,
                trim_zeros(frac_digits(f as nat, k as nat)) == trim_zeros(
                    frac_digits(self.units as nat, self.scale as nat),
                ),
            decreases k,
        {
            proof {
                lemma_trim_zero_digit(f as nat, k as nat);
            }
            f = f / 10;
            k = k - 1;
        }
        assert(trim_zeros(frac_digits(f as nat, k as nat)) == frac_digits(f as nat, k as nat));
        let mut fraction = String::new();
        let mut rest: u128 = f;
        let mut j: u32 = 0;
        while j < k
            invariant
                j <= k,
                frac_digits(f as nat, k as nat) == frac_digits(rest as nat, (k - j) as nat)
                    + fraction@,
            decreases k - j,
        {
            let mut t = String::new();
            t.append(digit_str(rest % 10));
            t.append(fraction.as_str());
            assert(frac_digits(rest as nat, (k - j) as nat) + fraction@ =~= frac_digits(
                (rest / 10) as nat,
                (k - j - 1) as nat,
            ) + t@);
            fraction = t;
            rest = rest / 10;
            j = j + 1;
        }
        assert(fraction@ =~= frac_digits(f as nat, k as nat));
        let mut text = String::new();
        push_int_digits(whole, &mut text);
        if k > 0 {
            proof {
                reveal_strlit(".");
            }
            text.append(".");
            text.append(fraction.as_str());
        }
        assert(text@ =~= decimal_text(self.units as nat, self.scale as nat));
        text
    }
    /// Reads a value with `scale` fractional digits from its decimal text:
    /// digits, then optionally a dot and at most `scale` digits.
    pub fn from_text(text: &str, scale: u32) -> (r: Option<Decimal>)
        requires
            scale <= MAX_SCALE,
        ensures
            r == parsed_decimal(text@, scale),
    {
        let ghost s = text@;
        let n = text.unicode_len();
        let mut dot: usize = 0;
        while dot < n && text.get_char(dot) != '.'
            invariant
                dot <= n,
                n == s.len(),
                s == text@,
                forall|k: int| 0 <= k < dot ==> s[k] != '.',
            decreases n - dot,
        {
            dot = dot + 1;
        }
        let p = pow10_u128(scale);
        proof {
            lemma_pow10_positive(scale as nat);
            lemma_pow10_max_scale();
            lemma_pow10_monotone(scale as nat, MAX_SCALE as nat);
        }
        if dot == n {
            assert(forall|i: int| !dot_split(s, i, scale as nat));
            if n == 0 {
                return None;
            }
            assert(s.subrange(0, n as int) =~= s);
            match read_digits(text, 0, n) {
                None => {
                    proof {
                        if all_digits(s) {
                            vstd::arithmetic::mul::lemma_mul_increases(p as int, digits_value(s) as int);
                        }
                    }
                    None
                },
                Some(w) => match w.checked_mul(p) {
                    None => None,
                    Some(v) => Some(Decimal { units: v, scale }),
                },
            }
        } else {
            assert(s[dot as int] == '.');
            assert(!is_digit(s[dot as int]));
            assert(!all_digits(s));
            if dot == 0 || dot + 1 == n || n - 1 - dot > scale as usize {
                assert forall|i: int| !dot_split(s, i, scale as nat) by {
                    if dot_split(s, i, scale as nat) {
                        lemma_dot_split_unique(s, i, dot as int, scale as nat);
                    }
                }
                return None;
            }
            let flen: usize = n - 1 - dot;
            let ghost whole = s.subrange(0, dot as int);
            let ghost frac = s.subrange(dot + 1, n as int);
            let rw = read_digits(text, 0, dot);
            let rf = read_digits(text, dot + 1, n);
            if rf.is_none() {
                proof {
                    if all_digits(frac) {
                        lemma_digits_below_pow10(frac);
                        lemma_pow10_monotone(frac.len(), MAX_SCALE as nat);
                    }
                    assert forall|i: int| !dot_split(s, i, scale as nat) by {
                        if dot_split(s, i, scale as nat) {
                            lemma_dot_split_unique(s, i, dot as int, scale as nat);
                        }
                    }
                }
                return None;
            }
            if rw.is_none() {
                proof {
                    if all_digits(whole) {
                        assert(dot_split(s, dot as int, scale as nat));
                        let i = choose|i: int| dot_split(s, i, scale as nat);
                        lemma_dot_split_unique(s, i, dot as int, scale as nat);
                        vstd::arithmetic::mul::lemma_mul_increases(p as int, digits_value(whole) as int);
                        assert(text_value(s, scale as nat) == Some(
                            digits_value(whole) * pow10(scale as nat) + digits_value(frac) * pow10(
                                (scale - frac.len()) as nat,
                            ),
                        ));
                    } else {
                        assert forall|i: int| !dot_split(s, i, scale as nat) by {
                            if dot_split(s, i, scale as nat) {
                                lemma_dot_split_unique(s, i, dot as int, scale as nat);
                            }
                        }
                    }
                }
                return None;
            }
            let w = rw.unwrap();
            let f = rf.unwrap();
            let q = pow10_u128(scale - flen as u32);
            proof {
                assert(dot_split(s, dot as int, scale as nat));
                let i = choose|i: int| dot_split(s, i, scale as nat);
                lemma_dot_split_unique(s, i, dot as int, scale as nat);
                lemma_digits_below_pow10(frac);
                lemma_pow10_add(flen as nat, (scale - flen) as nat);
                lemma_pow10_positive((scale - flen) as nat);
                vstd::arithmetic::mul::lemma_mul_strict_inequality(f as int, pow10(flen as nat) as int, q as int);
            }
            let low = f * q;
            match w.checked_mul(p) {
                None => {
                    None
                },
                Some(high) => match high.checked_add(low) {
                    None => None,
                    Some(v) => Some(Decimal { units: v, scale }),
                },
            }
        }
    }
}

} // verus!
