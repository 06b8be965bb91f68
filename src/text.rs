//! Lexical layer of the mesh text: spaces, words, and decimal literals read
//! exactly into fixed-point integers.

use vstd::prelude::*;

verus! {

/// Fractional digits kept by a fixed-point coordinate: a coordinate `c` is
/// held as the integer `c * UNIT`.
pub const UNIT: i128 = 1000000;

/// Largest whole part that a coordinate literal may have.
pub const WHOLE_LIMIT: u64 = 1000000000000;

/// Largest magnitude of a fixed-point coordinate: `WHOLE_LIMIT * UNIT`.
pub const COORD_LIMIT: i128 = 1000000000000000000;

pub open spec fn is_space(b: u8) -> bool {
    b == 32u8 || b == 9u8 || b == 13u8
}

pub open spec fn is_digit(b: u8) -> bool {
    48u8 <= b && b <= 57u8
}

/// First index at or after `i` whose byte is not a space (or the end).
pub open spec fn skip_spaces(l: Seq<u8>, i: nat) -> nat
    decreases l.len() - i,
{
    if i < l.len() && is_space(l[i as int]) {
        skip_spaces(l, i + 1)
    } else {
        i
    }
}

/// First index at or after `i` whose byte is a space (or the end).
pub open spec fn word_end(l: Seq<u8>, i: nat) -> nat
    decreases l.len() - i,
{
    if i < l.len() && !is_space(l[i as int]) {
        word_end(l, i + 1)
    } else {
        i
    }
}

/// First index at or after `i` whose byte is not a digit (or the end).
pub open spec fn digit_run(l: Seq<u8>, i: nat) -> nat
    decreases l.len() - i,
{
    if i < l.len() && is_digit(l[i as int]) {
        digit_run(l, i + 1)
    } else {
        i
    }
}

/// The whitespace-separated words of `l` from index `i` on.
pub open spec fn tokens_from(l: Seq<u8>, i: nat) -> Seq<Seq<u8>>
    decreases l.len() + 1 - i,
    via tokens_from_decreases
{
    let s = skip_spaces(l, i);
    if s >= l.len() {
        seq![]
    } else {
        let e = word_end(l, s);
        seq![l.subrange(s as int, e as int)] + tokens_from(l, e)
    }
}

pub open spec fn tokens(l: Seq<u8>) -> Seq<Seq<u8>> {
    tokens_from(l, 0)
}

#[via_fn]
proof fn tokens_from_decreases(l: Seq<u8>, i: nat) {
    lemma_skip_spaces(l, i);
    let s = skip_spaces(l, i);
    if s < l.len() {
        lemma_word_end(l, s);
    }
}

pub proof fn lemma_skip_spaces(l: Seq<u8>, i: nat)
    ensures
        i <= skip_spaces(l, i),
        i <= l.len() ==> skip_spaces(l, i) <= l.len(),
        skip_spaces(l, i) < l.len() ==> !is_space(l[skip_spaces(l, i) as int]),
    decreases l.len() - i,
{
    if i < l.len() && is_space(l[i as int]) {
        lemma_skip_spaces(l, i + 1);
    }
}

pub proof fn lemma_word_end(l: Seq<u8>, i: nat)
    ensures
        i <= word_end(l, i),
        i <= l.len() ==> word_end(l, i) <= l.len(),
        i < l.len() && !is_space(l[i as int]) ==> i < word_end(l, i),
    decreases l.len() - i,
{
    if i < l.len() && !is_space(l[i as int]) {
        lemma_word_end(l, i + 1);
    }
}

pub proof fn lemma_digit_run(l: Seq<u8>, i: nat)
    ensures
        i <= digit_run(l, i),
        i <= l.len() ==> digit_run(l, i) <= l.len(),
        forall|k: int| i <= k < digit_run(l, i) ==> is_digit(#[trigger] l[k]),
        digit_run(l, i) < l.len() ==> !is_digit(l[digit_run(l, i) as int]),
    decreases l.len() - i,
{
    if i < l.len() && is_digit(l[i as int]) {
        lemma_digit_run(l, i + 1);
    }
}

/// The number written in decimal by the digits `s`.
pub open spec fn digits_value(s: Seq<u8>) -> nat
    decreases s.len(),
{
    if s.len() == 0 {
        0
    } else {
        digits_value(s.drop_last()) * 10 + (s.last() - 48) as nat
    }
}

pub open spec fn all_digits(s: Seq<u8>) -> bool {
    forall|k: int| 0 <= k < s.len() ==> is_digit(#[trigger] s[k])
}

pub open spec fn power10(n: nat) -> int
    decreases n,
{
    if n == 0 {
        1
    } else {
        10 * power10((n - 1) as nat)
    }
}

pub proof fn lemma_digits_step(s: Seq<u8>, j: int)
    requires
        0 <= j < s.len(),
    ensures
        digits_value(s.take(j + 1)) == digits_value(s.take(j)) * 10 + (s[j] - 48) as nat,
{
    assert(s.take(j + 1).drop_last() =~= s.take(j));
}

pub proof fn lemma_digits_bound(s: Seq<u8>)
    requires
        all_digits(s),
    ensures
        digits_value(s) < power10(s.len()),
    decreases s.len(),
{
    if s.len() > 0 {
        let t = s.drop_last();
        assert(all_digits(t)) by {
            assert forall|k: int| 0 <= k < t.len() implies is_digit(#[trigger] t[k]) by {
                assert(t[k] == s[k]);
            }
        }
        lemma_digits_bound(t);
        assert(is_digit(s[s.len() - 1]));
        let d = (s.last() - 48) as nat;
        let a = digits_value(t);
        let p = power10(t.len());
        assert(a * 10 + d < 10 * p) by (nonlinear_arith)
            requires
                a < p,
                d <= 9,
        ;
    }
}

/// The first six fractional digits, padded with zeros.
pub open spec fn six_digits(f: Seq<u8>) -> Seq<u8> {
    Seq::new(6, |k: int| if k < f.len() { f[k] } else { 48u8 })
}

/// A fraction's digits in millionths; digits past the sixth are dropped.
pub open spec fn fraction_units(f: Seq<u8>) -> nat {
    digits_value(six_digits(f))
}

/// The magnitude of the unsigned decimal literal `d+` or `d+.d+` that
/// spans `t` from index `start` to its end, in millionths, or `None` if
/// that text is not such a literal.
pub open spec fn magnitude_from(t: Seq<u8>, start: nat) -> Option<int> {
    let k = digit_run(t, start);
    let whole = digits_value(t.subrange(start as int, k as int)) * UNIT;
    if k == start {
        None
    } else if k >= t.len() {
        Some(whole)
    } else if t[k as int] == 46u8 && k + 1 < t.len() && digit_run(t, k + 1) == t.len() {
        Some(whole + fraction_units(t.skip((k + 1) as int)))
    } else {
        None
    }
}

/// The value of a literal `-?d+(.d+)?` in millionths, or `None` if the
/// text is not such a literal.
pub open spec fn decimal_units(tok: Seq<u8>) -> Option<int> {
    if tok.len() > 0 && tok[0] == 45u8 {
        match magnitude_from(tok, 1) {
            Some(m) => Some(-m),
            None => None,
        }
    } else {
        magnitude_from(tok, 0)
    }
}

/// The fixed-point coordinate written by `tok`, if it is a literal whose
/// magnitude is at most `COORD_LIMIT`.
pub open spec fn coordinate(tok: Seq<u8>) -> Option<int> {
    match decimal_units(tok) {
        Some(v) => if -COORD_LIMIT <= v <= COORD_LIMIT {
            Some(v)
        } else {
            None
        },
        None => None,
    }
}

pub fn is_space_byte(b: u8) -> (r: bool)
    ensures
        r == is_space(b),
{
    b == 32u8 || b == 9u8 || b == 13u8
}

pub fn is_digit_byte(b: u8) -> (r: bool)
    ensures
        r == is_digit(b),
{
    48u8 <= b && b <= 57u8
}

fn skip_spaces_at(l: &[u8], i: usize) -> (r: usize)
    requires
        i <= l@.len(),
    ensures
        r == skip_spaces(l@, i as nat),
{
    let mut j: usize = i;
    while j < l.len() && is_space_byte(l[j])
        invariant
            i <= j <= l@.len(),
            skip_spaces(l@, j as nat) == skip_spaces(l@, i as nat),
        decreases l@.len() - j,
    {
        j = j + 1;
    }
    j
}

fn word_end_at(l: &[u8], i: usize) -> (r: usize)
    requires
        i <= l@.len(),
    ensures
        r == word_end(l@, i as nat),
{
    let mut j: usize = i;
    while j < l.len() && !is_space_byte(l[j])
        invariant
            i <= j <= l@.len(),
            word_end(l@, j as nat) == word_end(l@, i as nat),
        decreases l@.len() - j,
    {
        j = j + 1;
    }
    j
}

pub fn digit_run_at(l: &[u8], i: usize) -> (r: usize)
    requires
        i <= l@.len(),
    ensures
        r == digit_run(l@, i as nat),
{
    let mut j: usize = i;
    while j < l.len() && is_digit_byte(l[j])
        invariant
            i <= j <= l@.len(),
            digit_run(l@, j as nat) == digit_run(l@, i as nat),
        decreases l@.len() - j,
    {
        j = j + 1;
    }
    j
}

/// `r` gives, in order, the index range of each word of `l`.
pub open spec fn ranges_of_tokens(l: Seq<u8>, r: Seq<(usize, usize)>) -> bool {
    &&& r.len() == tokens(l).len()
    &&& forall|k: int|
        #![trigger r[k]]
        0 <= k < r.len() ==> r[k].0 <= r[k].1 <= l.len() && l.subrange(r[k].0 as int, r[k].1 as int)
            == tokens(l)[k]
}

/// The words of a line, as half-open index ranges into it.
pub fn token_ranges(l: &[u8]) -> (r: Vec<(usize, usize)>)
    ensures
        ranges_of_tokens(l@, r@),
{
    let mut r: Vec<(usize, usize)> = Vec::new();
    let mut i: usize = 0;
    loop
        invariant
            i <= l@.len(),
            r@.len() + tokens_from(l@, i as nat).len() == tokens(l@).len(),
            forall|k: int|
                #![trigger r@[k]]
                0 <= k < r@.len() ==> r@[k].0 <= r@[k].1 <= l@.len() && l@.subrange(
                    r@[k].0 as int,
                    r@[k].1 as int,
                ) == tokens(l@)[k],
            forall|k: int|
                0 <= k < tokens_from(l@, i as nat).len() ==> #[trigger] tokens_from(
                    l@,
                    i as nat,
                )[k] == tokens(l@)[r@.len() + k],
        decreases l@.len() + 1 - i,
    {
        proof {
            lemma_skip_spaces(l@, i as nat);
        }
        let s = skip_spaces_at(l, i);
        if s >= l.len() {
            assert(tokens_from(l@, i as nat).len() == 0);
            return r;
        }
        proof {
            lemma_word_end(l@, s as nat);
        }
        let e = word_end_at(l, s);
        proof {
            let rest = tokens_from(l@, e as nat);
            assert(tokens_from(l@, i as nat) == seq![l@.subrange(s as int, e as int)] + rest);
            assert(tokens_from(l@, i as nat)[0] == l@.subrange(s as int, e as int));
            assert forall|k: int| 0 <= k < rest.len() implies #[trigger] rest[k] == tokens(
                l@,
            )[r@.len() + 1 + k] by {
                assert(rest[k] == tokens_from(l@, i as nat)[k + 1]);
            }
        }
        let ghost old_r = r@;
        r.push((s, e));
        proof {
            assert(tokens_from(l@, i as nat)[0] == tokens(l@)[old_r.len() as int]);
            assert forall|k: int| 0 <= k < r@.len() implies r@[k].0 <= r@[k].1 <= l@.len()
                && l@.subrange(r@[k].0 as int, r@[k].1 as int) == tokens(l@)[k] by {
                if k < old_r.len() {
                    assert(r@[k] == old_r[k]);
                }
            }
        }
        i = e;
    }
}

/// The number written by the digits `l[lo..hi]`, if it is at most `cap`.
pub fn parse_digits(l: &[u8], lo: usize, hi: usize, cap: u64) -> (r: Option<u64>)
    requires
        lo <= hi <= l@.len(),
        cap <= 1000000000000000000,
        forall|k: int| lo <= k < hi ==> is_digit(#[trigger] l@[k]),
    ensures
        digits_value(l@.subrange(lo as int, hi as int)) <= cap ==> r == Some(
            digits_value(l@.subrange(lo as int, hi as int)) as u64,
        ),
        digits_value(l@.subrange(lo as int, hi as int)) > cap ==> r is None,
{
    let ghost s = l@.subrange(lo as int, hi as int);
    let mut acc: u64 = 0;
    let mut over = false;
    let mut j: usize = lo;
    while j < hi
        invariant
            lo <= j <= hi <= l@.len(),
            s == l@.subrange(lo as int, hi as int),
            cap <= 1000000000000000000,
            forall|k: int| lo <= k < hi ==> is_digit(#[trigger] l@[k]),
            over ==> digits_value(s.take(j - lo)) > cap,
            !over ==> acc == digits_value(s.take(j - lo)) && acc <= cap,
        decreases hi - j,
    {
        proof {
            lemma_digits_step(s, j - lo);
            assert(s[j - lo] == l@[j as int]);
        }
        let d = (l[j] - 48u8) as u64;
        if !over {
            let next = acc * 10 + d;
            if next > cap {
                over = true;
            } else {
                acc = next;
            }
        }
        j = j + 1;
    }
    assert(s.take(hi - lo) =~= s);
    if over {
        None
    } else {
        Some(acc)
    }
}

/// The first six fractional digits starting at `lo`, in millionths.
fn fraction_at(l: &[u8], lo: usize) -> (r: i128)
    requires
        lo <= l@.len(),
        all_digits(l@.skip(lo as int)),
    ensures
        r == fraction_units(l@.skip(lo as int)),
        0 <= r < UNIT,
{
    let ghost f = l@.skip(lo as int);
    let mut buf: Vec<u8> = Vec::new();
    let mut k: usize = 0;
    while k < 6
        invariant
            k <= 6,
            lo <= l@.len(),
            f == l@.skip(lo as int),
            buf@ == six_digits(f).take(k as int),
        decreases 6 - k,
    {
        if k < l.len() - lo {
            buf.push(l[lo + k]);
        } else {
            buf.push(48u8);
        }
        assert(buf@ =~= six_digits(f).take(k + 1));
        k = k + 1;
    }
    proof {
        assert(buf@ =~= six_digits(f));
        assert(buf@.subrange(0, 6) =~= buf@);
        assert(all_digits(six_digits(f))) by {
            assert forall|k: int| 0 <= k < 6 implies is_digit(#[trigger] six_digits(f)[k]) by {
                if k < f.len() {
                    assert(is_digit(f[k]));
                }
            }
        }
        lemma_digits_bound(six_digits(f));
        reveal_with_fuel(power10, 7);
        assert(power10(6) == 1000000);
    }
    let parsed = parse_digits(buf.as_slice(), 0, 6, WHOLE_LIMIT);
    match parsed {
        Some(v) => v as i128,
        None => 0,
    }
}

/// The fixed-point coordinate written by `tok`; `None` where
/// `coordinate(tok@)` is `None`.
pub fn parse_coordinate(tok: &[u8]) -> (r: Option<i128>)
    ensures
        r is Some ==> coordinate(tok@) == Some(r->0 as int),
        r is None ==> coordinate(tok@) is None,
{
    let neg = tok.len() > 0 && tok[0] == 45u8;
    let start: usize = if neg {
        1
    } else {
        0
    };
    proof {
        lemma_digit_run(tok@, start as nat);
    }
    let k = digit_run_at(tok, start);
    if k == start {
        return None;
    }
    let whole = match parse_digits(tok, start, k, WHOLE_LIMIT) {
        Some(w) => w,
        None => {
            return None;
        },
    };
    let mut mag: i128 = whole as i128 * UNIT;
    if k < tok.len() {
        if tok[k] != 46u8 || k + 1 >= tok.len() {
            return None;
        }
        proof {
            lemma_digit_run(tok@, (k + 1) as nat);
        }
        let f_end = digit_run_at(tok, k + 1);
        if f_end != tok.len() {
            return None;
        }
        assert(all_digits(tok@.skip(k + 1))) by {
            assert forall|i: int| 0 <= i < tok@.skip(k + 1).len() implies is_digit(
                #[trigger] tok@.skip(k + 1)[i],
            ) by {
                assert(tok@.skip(k + 1)[i] == tok@[k + 1 + i]);
            }
        }
        let frac = fraction_at(tok, k + 1);
        mag = mag + frac;
    }
    if mag > COORD_LIMIT {
        None
    } else if neg {
        Some(-mag)
    } else {
        Some(mag)
    }
}

} // verus!
