//! Decimal quantities read from equipment texts.
//!
//! A quantity is a non-negative decimal counted in thousandths (`1.5` is `1500`): the
//! texts write at most three fractional digits, and the writers print at most three.
//! A reading as `f64` would keep further fractional digits (to binary64 precision); a
//! quantity here does not, so `1.2345` reads as `1.234`, and two tokens that differ only
//! past the third decimal read as the same quantity.
use vstd::prelude::*;
use crate::text;

verus! {

/// Thousandths in one unit.
pub const MILLI: u64 = 1000;

/// `'0'..='9'` or `'.'`: the characters a decimal token is made of.
pub open spec fn is_num_char(c: char) -> bool {
    text::is_digit(c) || c == '.'
}

pub open spec fn num_keep() -> spec_fn(char) -> bool {
    |c: char| is_num_char(c)
}

pub open spec fn digit_val(c: char) -> nat {
    (c as u32 - '0' as u32) as nat
}

/// The value of a string of decimal digits (`0` for the empty string).
pub open spec fn digits_value(s: Seq<char>) -> nat
    decreases s.len(),
{
    if s.len() == 0 {
        0
    } else {
        digits_value(s.drop_last()) * 10 + digit_val(s.last())
    }
}

pub open spec fn all_digits(s: Seq<char>) -> bool {
    forall|i: int| 0 <= i < s.len() ==> text::is_digit(#[trigger] s[i])
}

/// The first three fractional digits of a decimal, as thousandths.
pub open spec fn frac_milli(f: Seq<char>) -> nat {
    if f.len() >= 3 {
        digits_value(f.subrange(0, 3))
    } else if f.len() == 2 {
        digits_value(f) * 10
    } else if f.len() == 1 {
        digits_value(f) * 100
    } else {
        0
    }
}

/// The integer part of a token: what precedes its first `'.'`.
pub open spec fn int_part(tok: Seq<char>) -> Seq<char> {
    text::until(tok, seq!['.'])
}

/// The fractional part of a token: what follows its first `'.'`.
pub open spec fn frac_part(tok: Seq<char>) -> Seq<char> {
    match text::after(tok, seq!['.']) {
        Some(f) => f,
        None => seq![],
    }
}

/// A token of digits with at most one `'.'` and at least one digit reads as a decimal
/// number (as `str::parse::<f64>` accepts it); its value in thousandths, with fractional
/// digits past the third dropped.
pub open spec fn parse_milli(tok: Seq<char>) -> Option<nat> {
    let i = int_part(tok);
    let f = frac_part(tok);
    if all_digits(i) && all_digits(f) && i.len() + f.len() > 0 {
        Some(digits_value(i) * 1000 + frac_milli(f))
    } else {
        None
    }
}

/// The value of a decimal token in thousandths, when it reads as a number whose
/// thousandths fit in a `u64`.
pub open spec fn num_value(tok: Seq<char>) -> Option<u64> {
    match parse_milli(tok) {
        Some(v) => if v <= u64::MAX {
            Some(v as u64)
        } else {
            None
        },
        None => None,
    }
}

pub open spec fn max_opt(a: Option<u64>, b: Option<u64>) -> Option<u64> {
    match (a, b) {
        (Some(x), Some(y)) => Some(if x >= y {
            x
        } else {
            y
        }),
        (Some(x), None) => Some(x),
        (None, y) => y,
    }
}

/// The largest value among the tokens that read as numbers.
pub open spec fn max_value(toks: Seq<Seq<char>>) -> Option<u64>
    decreases toks.len(),
{
    if toks.len() == 0 {
        None
    } else {
        max_opt(max_value(toks.drop_last()), num_value(toks.last()))
    }
}

/// The largest number written in `text` (the maximal runs of digits and dots that read
/// as numbers).
pub open spec fn max_number(text: Seq<char>) -> Option<u64> {
    max_value(text::runs(text, num_keep(), seq![]))
}

/// The largest number between the first `start` marker and the next `end` marker after it.
pub open spec fn number_between(text: Seq<char>, start: Seq<char>, end: Seq<char>) -> Option<
    u64,
> {
    match text::after(text, start) {
        Some(rest) => max_number(text::until(rest, end)),
        None => None,
    }
}

// ---------------------------------------------------------------------------
// Parsing
// ---------------------------------------------------------------------------

pub proof fn lemma_digits_value_mono(s: Seq<char>, k: int)
    requires
        0 <= k <= s.len(),
    ensures
        digits_value(s.subrange(0, k)) <= digits_value(s),
    decreases s.len() - k,
{
    if k < s.len() {
        lemma_digits_value_mono(s, k + 1);
        assert(s.subrange(0, k + 1).drop_last() =~= s.subrange(0, k));
    } else {
        assert(s.subrange(0, k) =~= s);
    }
}

/// The value of a digit string, when it is at most `bound`.
pub fn digits_value_bounded(s: &[char], bound: u64) -> (r: Option<u64>)
    requires
        all_digits(s@),
        bound <= (u64::MAX - 9) / 10,
    ensures
        r matches Some(v) ==> v == digits_value(s@) && v <= bound,
        r is None ==> digits_value(s@) > bound,
{
    let mut acc: u64 = 0;
    let mut i: usize = 0;
    assert(s@.subrange(0, 0) =~= Seq::<char>::empty());
    while i < s.len()
        invariant
            all_digits(s@),
            bound <= (u64::MAX - 9) / 10,
            i <= s@.len(),
            acc == digits_value(s@.subrange(0, i as int)),
            acc <= bound,
        decreases s@.len() - i,
    {
        let c = s[i];
        assert(text::is_digit(s@[i as int]));
        assert('0' <= c <= '9');
        assert((c as u32) >= ('0' as u32) && (c as u32) <= ('9' as u32));
        let d = (c as u32 - '0' as u32) as u64;
        assert(d <= 9);
        assert(s@.subrange(0, i + 1).drop_last() =~= s@.subrange(0, i as int));
        let next = acc * 10 + d;
        if next > bound {
            proof {
                lemma_digits_value_mono(s@, i + 1);
            }
            return None;
        }
        acc = next;
        i += 1;
    }
    assert(s@.subrange(0, s@.len() as int) =~= s@);
    Some(acc)
}

fn all_digits_exec(s: &[char]) -> (r: bool)
    ensures
        r == all_digits(s@),
{
    let mut i: usize = 0;
    while i < s.len()
        invariant
            i <= s@.len(),
            forall|j: int| 0 <= j < i ==> text::is_digit(#[trigger] s@[j]),
        decreases s@.len() - i,
    {
        if !text::digit_char(s[i]) {
            return false;
        }
        i += 1;
    }
    true
}

/// Reads a decimal token: its value in thousandths.
pub fn parse_milli_exec(tok: &[char]) -> (r: Option<u64>)
    ensures
        r == num_value(tok@),
{
    let dot = vec!['.'];
    assert(dot@ =~= seq!['.']);
    let ip = text::until_exec(tok, &dot);
    let fp = match text::after_exec(tok, &dot) {
        Some(f) => f,
        None => Vec::new(),
    };
    assert(fp@ =~= frac_part(tok@));
    if !all_digits_exec(&ip) || !all_digits_exec(&fp) || (ip.len() == 0 && fp.len() == 0) {
        return None;
    }
    proof {
        lemma_digits_value_lt(fp@);
        if fp@.len() >= 3 {
            assert(text::is_digit(fp@[0]) && text::is_digit(fp@[1]) && text::is_digit(fp@[2]));
            assert(all_digits(fp@.subrange(0, 3)));
            lemma_digits_value_lt(fp@.subrange(0, 3));
        }
    }
    let int_val = match digits_value_bounded(&ip, u64::MAX / 1000) {
        Some(v) => v,
        None => return None,
    };
    let frac: u64 = if fp.len() >= 3 {
        let f3 = text::slice_vec(&fp, 0, 3);
        match digits_value_bounded(&f3, 1000) {
            Some(v) => v,
            None => return None,
        }
    } else if fp.len() == 2 {
        match digits_value_bounded(&fp, 1000) {
            Some(v) => v * 10,
            None => return None,
        }
    } else if fp.len() == 1 {
        match digits_value_bounded(&fp, 1000) {
            Some(v) => v * 100,
            None => return None,
        }
    } else {
        0
    };
    let big = int_val * 1000;
    if frac > u64::MAX - big {
        return None;
    }
    Some(big + frac)
}

/// A digit string of length below four has a value below `10^len`.
pub proof fn lemma_digits_value_lt(s: Seq<char>)
    requires
        all_digits(s),
    ensures
        s.len() == 0 ==> digits_value(s) == 0,
        s.len() == 1 ==> digits_value(s) < 10,
        s.len() == 2 ==> digits_value(s) < 100,
        s.len() == 3 ==> digits_value(s) < 1000,
    decreases s.len(),
{
    if s.len() > 0 {
        assert(all_digits(s.drop_last()));
        lemma_digits_value_lt(s.drop_last());
        assert(text::is_digit(s[s.len() - 1]));
    }
}

/// The largest number written in `text`.
pub fn max_number_exec(text: &[char]) -> (r: Option<u64>)
    ensures
        r == max_number(text@),
{
    let ghost keep = num_keep();
    let mut best: Option<u64> = None;
    let mut cur: Vec<char> = Vec::new();
    let ghost mut done: Seq<Seq<char>> = seq![];
    let mut i: usize = 0;
    assert(text@.subrange(0, text@.len() as int) =~= text@);
    while i < text.len()
        invariant
            keep == num_keep(),
            i <= text@.len(),
            best == max_value(done),
            text::runs(text@, keep, seq![]) == done + text::runs(
                text@.subrange(i as int, text@.len() as int),
                keep,
                cur@,
            ),
        decreases text@.len() - i,
    {
        proof {
            text::lemma_runs_step(text@, keep, cur@, i as int);
        }
        let c = text[i];
        if text::digit_char(c) || c == '.' {
            cur.push(c);
        } else if cur.len() > 0 {
            let v = parse_milli_exec(&cur);
            proof {
                assert(done + (seq![cur@] + text::runs(
                    text@.subrange(i + 1, text@.len() as int),
                    keep,
                    seq![],
                )) =~= done.push(cur@) + text::runs(
                    text@.subrange(i + 1, text@.len() as int),
                    keep,
                    seq![],
                ));
                assert(done.push(cur@).drop_last() =~= done);
                done = done.push(cur@);
            }
            best = max_opt_exec(best, v);
            cur = Vec::new();
            assert(cur@ =~= seq![]);
        } else {
            assert(cur@ =~= seq![]);
        }
        i += 1;
    }
    assert(text@.subrange(text@.len() as int, text@.len() as int) =~= Seq::<char>::empty());
    if cur.len() > 0 {
        let v = parse_milli_exec(&cur);
        proof {
            assert(done.push(cur@).drop_last() =~= done);
            done = done.push(cur@);
        }
        best = max_opt_exec(best, v);
    }
    assert(text::runs(text@, keep, seq![]) =~= done);
    best
}

pub fn max_opt_exec(a: Option<u64>, b: Option<u64>) -> (r: Option<u64>)
    ensures
        r == max_opt(a, b),
{
    match (a, b) {
        (Some(x), Some(y)) => Some(
            if x >= y {
                x
            } else {
                y
            },
        ),
        (Some(x), None) => Some(x),
        (None, y) => y,
    }
}

/// The largest number between the first `start` marker and the next `end` marker.
pub fn number_between_exec(text: &[char], start: &str, end: &str) -> (r: Option<u64>)
    ensures
        r == number_between(text@, start@, end@),
{
    let s = text::chars_of(start);
    let e = text::chars_of(end);
    match text::after_exec(text, &s) {
        Some(rest) => {
            let seg = text::until_exec(&rest, &e);
            max_number_exec(&seg)
        },
        None => None,
    }
}

// ---------------------------------------------------------------------------
// Printing
// ---------------------------------------------------------------------------

pub open spec fn digit_of(d: nat) -> char {
    seq!['0', '1', '2', '3', '4', '5', '6', '7', '8', '9'][d as int]
}

/// The decimal digits of a natural number.
pub open spec fn nat_str(n: nat) -> Seq<char>
    decreases n,
{
    if n < 10 {
        seq![digit_of(n)]
    } else {
        nat_str(n / 10).push(digit_of(n % 10))
    }
}

/// The decimal form of an integer (`i64::to_string`).
pub open spec fn int_str(i: int) -> Seq<char> {
    if i < 0 {
        seq!['-'] + nat_str((-i) as nat)
    } else {
        nat_str(i as nat)
    }
}

/// Three fractional digits with trailing zeros removed (`f` is between 1 and 999).
pub open spec fn frac3_str(f: nat) -> Seq<char> {
    if f % 100 == 0 {
        seq![digit_of(f / 100)]
    } else if f % 10 == 0 {
        seq![digit_of(f / 100), digit_of((f / 10) % 10)]
    } else {
        seq![digit_of(f / 100), digit_of((f / 10) % 10), digit_of(f % 10)]
    }
}

/// A quantity printed with up to three decimals and no trailing zeros (`1500` is `"1.5"`,
/// `6000` is `"6"`).
pub open spec fn fmt3(v: nat) -> Seq<char> {
    if v % 1000 == 0 {
        nat_str(v / 1000)
    } else {
        nat_str(v / 1000) + seq!['.'] + frac3_str(v % 1000)
    }
}

/// Two to the power `e`.
pub open spec fn two_pow(e: nat) -> nat
    decreases e,
{
    if e == 0 {
        1
    } else {
        2 * two_pow((e - 1) as nat)
    }
}

/// `n / d` rounded to a whole number, a half going to the even neighbour.
pub open spec fn round_even(n: nat, d: nat) -> nat {
    let q = n / d;
    let r = n % d;
    if 2 * r > d || (2 * r == d && q % 2 == 1) {
        q + 1
    } else {
        q
    }
}

/// `2^52 * 4000`: a quantity in thousandths, scaled so that it lies between this and
/// twice this, stands for a number between `2^52` and `2^53` (in units of 1/4000).
pub open spec fn scale_limit() -> nat {
    0x10_0000_0000_0000 * 4000
}

/// `n` doubled until it reaches `scale_limit()`, with `k` counting the doublings.
pub open spec fn scale_up(n: nat, k: int) -> (nat, int)
    decreases (if n < scale_limit() {
        (scale_limit() - n) as nat
    } else {
        0nat
    }),
{
    if n == 0 || n >= scale_limit() {
        (n, k)
    } else {
        scale_up(2 * n, k + 1)
    }
}

/// The hundredths that `{:.2}` prints for the binary64 number nearest to `v / 1000`.
///
/// With `n = v * 2^(k+2)` scaled into `[2^52 * 4000, 2^53 * 4000)`, `n / 4000` is
/// `(v / 1000) * 2^k` between `2^52` and `2^53`, so the nearest number with a 53-bit
/// significand is `m / 2^k` with `m` the rounding of `n / 4000` (halves to even). That
/// number times 100 is then rounded to a whole number, halves to even.
pub open spec fn f64_centi(v: nat) -> nat {
    if v == 0 {
        0
    } else {
        let (n, k) = scale_up(v, -2);
        let m = round_even(n, 4000);
        if k >= 0 {
            round_even(100 * m, two_pow(k as nat))
        } else {
            100 * m * two_pow((-k) as nat)
        }
    }
}

/// A quantity in thousandths printed as `{:.2}` prints the binary64 number nearest to it,
/// trailing zeros and a trailing point removed (`2675` is `"2.67"`, `5` is `"0.01"`,
/// `6000` is `"6"`).
pub open spec fn fmt2(v: nat) -> Seq<char> {
    let h = f64_centi(v);
    if h % 100 == 0 {
        nat_str(h / 100)
    } else if h % 10 == 0 {
        nat_str(h / 100) + seq!['.', digit_of((h / 10) % 10)]
    } else {
        nat_str(h / 100) + seq!['.', digit_of((h / 10) % 10), digit_of(h % 10)]
    }
}

fn digit_char_of(d: u64) -> (c: char)
    requires
        d < 10,
    ensures
        c == digit_of(d as nat),
{
    let digits = ['0', '1', '2', '3', '4', '5', '6', '7', '8', '9'];
    let c = digits[d as usize];
    assert(digits@ =~= seq!['0', '1', '2', '3', '4', '5', '6', '7', '8', '9']);
    c
}

/// Appends the decimal digits of `n`.
pub fn push_nat(s: &mut String, n: u64)
    ensures
        final(s)@ == old(s)@ + nat_str(n as nat),
    decreases n,
{
    if n >= 10 {
        push_nat(s, n / 10);
    }
    let c = digit_char_of(n % 10);
    s.push(c);
    proof {
        if n >= 10 {
            assert(nat_str(n as nat) == nat_str((n / 10) as nat).push(digit_of((n % 10) as nat)));
        }
    }
    assert(s@ =~= old(s)@ + nat_str(n as nat));
}

/// `i64::to_string`.
pub fn int_string(i: i64) -> (r: String)
    ensures
        r@ == int_str(i as int),
{
    let mut s = String::new();
    if i < 0 {
        s.push('-');
        let m: u64 = ((-(i + 1)) as u64) + 1;
        push_nat(&mut s, m);
    } else {
        push_nat(&mut s, i as u64);
    }
    assert(s@ =~= int_str(i as int));
    s
}

/// A quantity printed with up to three decimals.
pub fn format3(v: u64) -> (r: String)
    ensures
        r@ == fmt3(v as nat),
{
    let mut s = String::new();
    push_nat(&mut s, v / 1000);
    let f = v % 1000;
    if f != 0 {
        s.push('.');
        s.push(digit_char_of(f / 100));
        if f % 100 != 0 {
            s.push(digit_char_of((f / 10) % 10));
            if f % 10 != 0 {
                s.push(digit_char_of(f % 10));
            }
        }
    }
    assert(s@ =~= fmt3(v as nat));
    s
}

proof fn lemma_two_pow_ge(e: nat)
    ensures
        two_pow(e) >= e + 1,
    decreases e,
{
    if e > 0 {
        lemma_two_pow_ge((e - 1) as nat);
    }
}

fn round_even_exec(n: u128, d: u128) -> (r: u128)
    requires
        0 < d,
        n < 0x1_0000_0000_0000_0000_0000,
        d < 0x1_0000_0000_0000_0000_0000,
    ensures
        r == round_even(n as nat, d as nat),
        r <= n / d + 1,
{
    let q = n / d;
    let r = n % d;
    if 2 * r > d || (2 * r == d && q % 2 == 1) {
        q + 1
    } else {
        q
    }
}

/// The hundredths `{:.2}` prints for the binary64 number nearest to `v / 1000`.
fn f64_centi_exec(v: u64) -> (h: u64)
    ensures
        h == f64_centi(v as nat),
{
    if v == 0 {
        return 0;
    }
    let limit: u128 = 0x10_0000_0000_0000 * 4000;
    let mut n: u128 = v as u128;
    let mut k: i64 = -2;
    let mut p: u128 = 1;
    while n < limit
        invariant
            limit == scale_limit(),
            1 <= n < 2 * scale_limit(),
            -2 <= k,
            scale_up(n as nat, k as int) == scale_up(v as nat, -2),
            p == two_pow((if k >= 0 {
                k
            } else {
                0
            }) as nat),
            n >= p * (if k >= 0 {
                4int
            } else if k == -1 {
                2int
            } else {
                1int
            }),
            k < 0 ==> p == 1,
            p >= 1,
        decreases 2 * scale_limit() - n,
    {
        proof {
            if k >= 0 {
                lemma_two_pow_ge(k as nat);
            }
        }
        n = 2 * n;
        k = k + 1;
        if k > 0 {
            p = 2 * p;
        }
    }
    let m = round_even_exec(n, 4000);
    assert(n / 4000 < 0x20_0000_0000_0000);
    if k >= 0 {
        let h = round_even_exec(100 * m, p);
        assert(h <= 100 * m + 1) by {
            let a: int = 100 * m;
            let b: int = p as int;
            assert(a / b <= a) by (nonlinear_arith)
                requires
                    b >= 1,
                    a >= 0,
            ;
        }
        h as u64
    } else {
        let f: u128 = if k == -1 {
            2
        } else {
            4
        };
        assert(two_pow((-k) as nat) == f) by {
            reveal_with_fuel(two_pow, 3);
        }
        (100 * m * f) as u64
    }
}

/// A quantity printed as `{:.2}` prints the binary64 number nearest to it (see `fmt2`).
pub fn format2(v: u64) -> (r: String)
    ensures
        r@ == fmt2(v as nat),
{
    let h = f64_centi_exec(v);
    let mut s = String::new();
    push_nat(&mut s, h / 100);
    if h % 100 != 0 {
        s.push('.');
        s.push(digit_char_of((h / 10) % 10));
        if h % 10 != 0 {
            s.push(digit_char_of(h % 10));
        }
    }
    assert(s@ =~= fmt2(v as nat));
    s
}

// ---------------------------------------------------------------------------
// Printed quantities read back
// ---------------------------------------------------------------------------

proof fn lemma_digit_of(d: nat)
    requires
        d < 10,
    ensures
        text::is_digit(digit_of(d)),
        digit_val(digit_of(d)) == d,
        digit_of(d) != '.',
{
    let t = seq!['0', '1', '2', '3', '4', '5', '6', '7', '8', '9'];
    assert(digit_of(d) == t[d as int]);
    if d == 0 {
    } else if d == 1 {
    } else if d == 2 {
    } else if d == 3 {
    } else if d == 4 {
    } else if d == 5 {
    } else if d == 6 {
    } else if d == 7 {
    } else if d == 8 {
    } else {
        assert(d == 9);
    }
}

proof fn lemma_nat_str(n: nat)
    ensures
        nat_str(n).len() > 0,
        all_digits(nat_str(n)),
        !nat_str(n).contains('.'),
        digits_value(nat_str(n)) == n,
    decreases n,
{
    let s = nat_str(n);
    if n < 10 {
        lemma_digit_of(n);
        assert(s == seq![digit_of(n)]);
        assert(s.drop_last() =~= Seq::<char>::empty());
        assert(digits_value(s.drop_last()) == 0);
        assert(s.last() == digit_of(n));
        assert(digits_value(s) == digits_value(s.drop_last()) * 10 + digit_val(s.last()));
        if s.contains('.') {
            let j = choose|j: int| 0 <= j < s.len() && s[j] == '.';
        }
    } else {
        lemma_nat_str(n / 10);
        lemma_digit_of(n % 10);
        let t = nat_str(n / 10);
        assert(s == t.push(digit_of(n % 10)));
        assert(s.drop_last() =~= t);
        assert(s.last() == digit_of(n % 10));
        assert(digits_value(s) == digits_value(t) * 10 + digit_val(digit_of(n % 10)));
        assert(digits_value(s) == (n / 10) * 10 + n % 10);
        assert forall|i: int| 0 <= i < s.len() implies text::is_digit(#[trigger] s[i]) by {
            if i < t.len() {
                assert(s[i] == t[i]);
            }
        }
        if s.contains('.') {
            let j = choose|j: int| 0 <= j < s.len() && s[j] == '.';
            if j < t.len() {
                assert(s[j] == t[j]);
                assert(t.contains('.'));
            }
        }
    }
}

proof fn lemma_frac3(f: nat)
    requires
        0 < f < 1000,
    ensures
        all_digits(frac3_str(f)),
        !frac3_str(f).contains('.'),
        frac3_str(f).len() > 0,
        frac_milli(frac3_str(f)) == f,
{
    let a = f / 100;
    let b = (f / 10) % 10;
    let c = f % 10;
    lemma_digit_of(a);
    lemma_digit_of(b);
    lemma_digit_of(c);
    let s = frac3_str(f);
    if f % 100 == 0 {
        assert(s == seq![digit_of(a)]);
        assert(s.drop_last() =~= Seq::<char>::empty());
        assert(digits_value(s.drop_last()) == 0);
        assert(s.last() == digit_of(a));
        assert(digits_value(s) == a);
    } else if f % 10 == 0 {
        assert(s == seq![digit_of(a), digit_of(b)]);
        let s1 = s.drop_last();
        assert(s1 =~= seq![digit_of(a)]);
        assert(s1.drop_last() =~= Seq::<char>::empty());
        assert(digits_value(s1.drop_last()) == 0);
        assert(s1.last() == digit_of(a));
        assert(digits_value(s1) == a);
        assert(s.last() == digit_of(b));
        assert(digits_value(s) == a * 10 + b);
    } else {
        assert(s == seq![digit_of(a), digit_of(b), digit_of(c)]);
        assert(s.subrange(0, 3) =~= s);
        let s2 = s.drop_last();
        let s1 = s2.drop_last();
        assert(s2 =~= seq![digit_of(a), digit_of(b)]);
        assert(s1 =~= seq![digit_of(a)]);
        assert(s1.drop_last() =~= Seq::<char>::empty());
        assert(digits_value(s1.drop_last()) == 0);
        assert(s1.last() == digit_of(a));
        assert(digits_value(s1) == a);
        assert(s2.last() == digit_of(b));
        assert(digits_value(s2) == a * 10 + b);
        assert(s.last() == digit_of(c));
        assert(digits_value(s) == (a * 10 + b) * 10 + c);
    }
    if s.contains('.') {
        let j = choose|j: int| 0 <= j < s.len() && s[j] == '.';
    }
}

/// A quantity printed by `format3` is made of digits and at most a point, and starts with
/// a digit.
pub proof fn lemma_fmt3_num_chars(v: nat)
    ensures
        fmt3(v).len() > 0,
        text::is_digit(fmt3(v)[0]),
        forall|k: int| 0 <= k < fmt3(v).len() ==> is_num_char(#[trigger] fmt3(v)[k]),
{
    let n = v / 1000;
    let f = v % 1000;
    lemma_nat_str(n);
    let i = nat_str(n);
    if f != 0 {
        lemma_frac3(f);
        let fr = frac3_str(f);
        let tok = i + seq!['.'] + fr;
        assert(fmt3(v) == tok);
        assert(tok[0] == i[0]);
        assert forall|k: int| 0 <= k < tok.len() implies is_num_char(#[trigger] tok[k]) by {
            if k < i.len() {
                assert(tok[k] == i[k]);
            } else if k > i.len() {
                assert(tok[k] == fr[k - i.len() - 1]);
            }
        }
    }
}

/// A quantity printed by `format3` reads back as the same quantity, so a tier's value
/// written into a text is the value read from it.
pub proof fn lemma_format3_reads_back(v: u64)
    ensures
        num_value(fmt3(v as nat)) == Some(v),
{
    let n = (v / 1000) as nat;
    let f = (v % 1000) as nat;
    lemma_nat_str(n);
    let i = nat_str(n);
    let tok = fmt3(v as nat);
    if f == 0 {
        assert(tok == i);
        text::lemma_find_absent(tok, '.', 0);
        assert(int_part(tok) == tok);
        assert(frac_part(tok) == Seq::<char>::empty());
        assert(frac_milli(Seq::<char>::empty()) == 0);
    } else {
        lemma_frac3(f);
        let fr = frac3_str(f);
        assert(tok == i + seq!['.'] + fr);
        text::lemma_find_from_clean(i, fr, '.', 0);
        assert(tok.subrange(0, i.len() as int) =~= i);
        assert(tok.subrange(i.len() as int + 1, tok.len() as int) =~= fr);
        assert(int_part(tok) == i);
        assert(frac_part(tok) == fr);
    }
    assert(digits_value(i) * 1000 + f == v);
}

} // verus!
