//! Fixed-point numbers and the byte-level lexing shared by every table and
//! format reader: whitespace tokenizing, trimming, substring search, and
//! exact parsers for integers and decimal numbers.
use vstd::prelude::*;

verus! {

/// Scale of all fixed-point quantities: a stored value `v` stands for the
/// real number `v / FP_SCALE`.
pub const FP_SCALE: i128 = 1_000_000_000;

/// Largest magnitude a parsed quantity may take (1e9 in real units).
/// Numbers beyond this bound are rejected as unparsable.
pub const FP_LIM: i128 = 1_000_000_000_000_000_000;

/// Cap on the digit value of a mantissa while parsing (1e30).
pub const DIGITS_LIM: i128 = 1_000_000_000_000_000_000_000_000_000_000;

/// Cap on the magnitude of a decimal exponent while parsing.
pub const EXP_LIM: i128 = 9_999;

/// A fixed-point value within the parse bound.
pub open spec fn fp_ok(v: i128) -> bool {
    -FP_LIM <= v <= FP_LIM
}

pub open spec fn is_ws(b: u8) -> bool {
    b == 32 || b == 9 || b == 10 || b == 13 || b == 12
}

pub open spec fn is_digit(b: u8) -> bool {
    48 <= b && b <= 57
}

pub open spec fn all_digits(s: Seq<u8>) -> bool {
    forall|i: int| 0 <= i < s.len() ==> is_digit(#[trigger] s[i])
}

/// Numeric value of a digit string, most significant digit first.
pub open spec fn digits_val(s: Seq<u8>) -> int
    decreases s.len(),
{
    if s.len() == 0 {
        0
    } else {
        digits_val(s.drop_last()) * 10 + (s.last() - 48)
    }
}

pub open spec fn pow10(n: nat) -> int
    decreases n,
{
    if n == 0 {
        1
    } else {
        10 * pow10((n - 1) as nat)
    }
}

pub proof fn lemma_pow10_pos(n: nat)
    ensures
        pow10(n) >= 1,
    decreases n,
{
    if n > 0 {
        lemma_pow10_pos((n - 1) as nat);
    }
}

pub proof fn lemma_pow10_bound(n: nat)
    requires
        n <= 37,
    ensures
        pow10(n) <= 10000000000000000000000000000000000000,
{
    lemma_pow10_mono(n, 37);
    reveal_with_fuel(pow10, 40);
    assert(pow10(37) == 10000000000000000000000000000000000000);
}

pub proof fn lemma_pow10_mono(m: nat, n: nat)
    requires
        m <= n,
    ensures
        pow10(m) <= pow10(n),
    decreases n,
{
    if m < n {
        lemma_pow10_mono(m, (n - 1) as nat);
        lemma_pow10_pos((n - 1) as nat);
    }
}

pub proof fn lemma_digits_val_nonneg(s: Seq<u8>)
    requires
        all_digits(s),
    ensures
        digits_val(s) >= 0,
    decreases s.len(),
{
    if s.len() > 0 {
        assert(all_digits(s.drop_last()));
        lemma_digits_val_nonneg(s.drop_last());
    }
}

/// Exact power of ten, for exponent shifts that stay in range.
pub fn pow10_i128(n: u32) -> (r: i128)
    requires
        n <= 37,
    ensures
        r == pow10(n as nat),
{
    let mut r: i128 = 1;
    let mut i: u32 = 0;
    while i < n
        invariant
            i <= n,
            n <= 37,
            r == pow10(i as nat),
        decreases n - i,
    {
        proof {
            lemma_pow10_bound(i as nat);
            lemma_pow10_pos(i as nat);
        }
        r = r * 10;
        i = i + 1;
    }
    r
}

/// Value of the digit run `s[from..to]`, or `None` when a byte is not a
/// digit or the value exceeds `lim`.
pub fn digit_run_val(s: &Vec<u8>, from: usize, to: usize, lim: i128) -> (r: Option<i128>)
    requires
        from <= to <= s@.len(),
        0 < lim <= DIGITS_LIM,
    ensures
        ({
            let sub = s@.subrange(from as int, to as int);
            if all_digits(sub) && digits_val(sub) <= lim {
                r is Some && r->0 == digits_val(sub)
            } else {
                r is None
            }
        }),
{
    let ghost sub = s@.subrange(from as int, to as int);
    let mut acc: i128 = 0;
    let mut i: usize = from;
    while i < to
        invariant
            from <= i <= to <= s@.len(),
            0 < lim <= DIGITS_LIM,
            sub == s@.subrange(from as int, to as int),
            all_digits(sub.take(i - from)),
            acc == digits_val(sub.take(i - from)),
            0 <= acc <= lim,
        decreases to - i,
    {
        let b = s[i];
        proof {
            assert(sub[i - from] == s@[i as int]);
        }
        if b < 48 || b > 57 {
            proof {
                assert(!is_digit(sub[i - from]));
                assert(!all_digits(sub));
            }
            return None;
        }
        let d = (b - 48) as i128;
        let nd = acc * 10 + d;
        proof {
            assert(sub.take(i - from + 1).drop_last() =~= sub.take(i - from));
            assert(sub.take(i - from + 1).last() == sub[i - from]);
        }
        if nd > lim {
            proof {
                if all_digits(sub) {
                    lemma_digits_run_prefix_le(sub, (i - from + 1) as int);
                }
            }
            return None;
        }
        acc = nd;
        i = i + 1;
    }
    proof {
        assert(sub.take(to - from) =~= sub);
    }
    Some(acc)
}

/// A longer digit run never has a smaller value: the value of a prefix is a
/// lower bound for the whole run.
proof fn lemma_digits_run_prefix_le(s: Seq<u8>, k: int)
    requires
        0 <= k <= s.len(),
        all_digits(s.take(k)),
        all_digits(s),
    ensures
        digits_val(s.take(k)) <= digits_val(s),
    decreases s.len() - k,
{
    if k < s.len() {
        assert(s.take(k + 1).drop_last() =~= s.take(k));
        assert(is_digit(s[k]));
        lemma_digits_val_nonneg(s.take(k));
        assert(digits_val(s.take(k + 1)) == digits_val(s.take(k)) * 10 + (s[k] - 48));
        lemma_digits_run_prefix_le(s, k + 1);
    } else {
        assert(s.take(k) =~= s);
    }
}

/// Index of the first byte in `s[from..]` that is not ASCII whitespace, or
/// `s.len()` when only whitespace remains.
pub open spec fn first_non_ws(s: Seq<u8>, from: int) -> int
    decreases s.len() - from,
{
    if from < 0 || from >= s.len() {
        s.len() as int
    } else if is_ws(s[from]) {
        first_non_ws(s, from + 1)
    } else {
        from
    }
}

/// Index one past the last byte in `s[..upto]` that is not whitespace, or 0.
pub open spec fn last_non_ws(s: Seq<u8>, upto: int) -> int
    decreases upto,
{
    if upto <= 0 || upto > s.len() {
        0
    } else if is_ws(s[upto - 1]) {
        last_non_ws(s, upto - 1)
    } else {
        upto
    }
}

/// The byte string with leading and trailing ASCII whitespace removed.
pub open spec fn spec_trim(s: Seq<u8>) -> Seq<u8> {
    let lo = first_non_ws(s, 0);
    let hi = last_non_ws(s, s.len() as int);
    if lo <= hi {
        s.subrange(lo, hi)
    } else {
        Seq::empty()
    }
}

pub fn trim(s: &Vec<u8>) -> (r: Vec<u8>)
    ensures
        r@ == spec_trim(s@),
{
    let mut lo: usize = 0;
    while lo < s.len() && (s[lo] == 32 || s[lo] == 9 || s[lo] == 10 || s[lo] == 13 || s[lo] == 12)
        invariant
            0 <= lo <= s@.len(),
            first_non_ws(s@, 0) == first_non_ws(s@, lo as int),
        decreases s@.len() - lo,
    {
        lo = lo + 1;
    }
    proof {
        assert(first_non_ws(s@, lo as int) == lo);
    }
    let mut hi: usize = s.len();
    while hi > lo && (s[hi - 1] == 32 || s[hi - 1] == 9 || s[hi - 1] == 10 || s[hi - 1] == 13
        || s[hi - 1] == 12)
        invariant
            lo <= hi <= s@.len(),
            last_non_ws(s@, s@.len() as int) == last_non_ws(s@, hi as int),
        decreases hi,
    {
        hi = hi - 1;
    }
    let mut r: Vec<u8> = Vec::new();
    let mut i: usize = lo;
    while i < hi
        invariant
            lo <= i <= hi <= s@.len(),
            r@ == s@.subrange(lo as int, i as int),
        decreases hi - i,
    {
        r.push(s[i]);
        proof {
            assert(r@ =~= s@.subrange(lo as int, i + 1));
        }
        i = i + 1;
    }
    proof {
        if hi > lo {
            assert(!is_ws(s@[hi - 1]));
            assert(last_non_ws(s@, hi as int) == hi);
            assert(lo <= hi);
        } else {
            assert(hi == lo);
            lemma_last_non_ws_le(s@, hi as int);
            if first_non_ws(s@, 0) <= last_non_ws(s@, s@.len() as int) {
                assert(s@.subrange(lo as int, last_non_ws(s@, hi as int)) =~= r@);
            }
        }
        assert(r@ =~= spec_trim(s@));
    }
    r
}

proof fn lemma_last_non_ws_le(s: Seq<u8>, upto: int)
    ensures
        last_non_ws(s, upto) <= upto || upto < 0,
    decreases upto,
{
    if 0 < upto <= s.len() && is_ws(s[upto - 1]) {
        lemma_last_non_ws_le(s, upto - 1);
    }
}

/// Length of the leading run of non-whitespace bytes.
pub open spec fn run_len(s: Seq<u8>) -> int
    decreases s.len(),
{
    if s.len() == 0 || is_ws(s[0]) {
        0
    } else {
        1 + run_len(s.drop_first())
    }
}

proof fn lemma_run_len_char(s: Seq<u8>, n: int)
    requires
        0 <= n <= s.len(),
        forall|k: int| 0 <= k < n ==> !is_ws(#[trigger] s[k]),
        n == s.len() || is_ws(s[n]),
    ensures
        run_len(s) == n,
    decreases n,
{
    if n == 0 {
    } else {
        assert(!is_ws(s[0]));
        let t = s.drop_first();
        assert(forall|k: int| 0 <= k < n - 1 ==> s[k + 1] == #[trigger] t[k]);
        lemma_run_len_char(t, n - 1);
    }
}

proof fn lemma_run_len_bounds(s: Seq<u8>)
    ensures
        0 <= run_len(s) <= s.len(),
    decreases s.len(),
{
    if s.len() > 0 && !is_ws(s[0]) {
        lemma_run_len_bounds(s.drop_first());
    }
}

/// The whitespace-separated tokens of a byte string, in order.
pub open spec fn spec_tokens(s: Seq<u8>) -> Seq<Seq<u8>>
    decreases s.len(),
    via spec_tokens_dec
{
    if s.len() == 0 {
        Seq::empty()
    } else if is_ws(s[0]) {
        spec_tokens(s.drop_first())
    } else {
        let n = run_len(s);
        seq![s.take(n)] + spec_tokens(s.skip(n))
    }
}

#[via_fn]
proof fn spec_tokens_dec(s: Seq<u8>) {
    if s.len() > 0 && !is_ws(s[0]) {
        lemma_run_len_bounds(s.drop_first());
        assert(run_len(s) == 1 + run_len(s.drop_first()));
    }
}

proof fn lemma_tokens_skip_ws(s: Seq<u8>, i: int, j: int)
    requires
        0 <= i <= j <= s.len(),
        forall|k: int| i <= k < j ==> is_ws(#[trigger] s[k]),
    ensures
        spec_tokens(s.skip(i)) == spec_tokens(s.skip(j)),
    decreases j - i,
{
    if i < j {
        let t = s.skip(i);
        assert(t[0] == s[i]);
        assert(is_ws(t[0]));
        assert(t.drop_first() =~= s.skip(i + 1));
        lemma_tokens_skip_ws(s, i + 1, j);
    }
}

proof fn lemma_tokens_take_token(s: Seq<u8>, i: int, j: int)
    requires
        0 <= i < j <= s.len(),
        forall|k: int| i <= k < j ==> !is_ws(#[trigger] s[k]),
        j == s.len() || is_ws(s[j]),
    ensures
        spec_tokens(s.skip(i)) == seq![s.subrange(i, j)] + spec_tokens(s.skip(j)),
{
    let t = s.skip(i);
    assert(!is_ws(t[0]));
    assert(forall|k: int| 0 <= k < j - i ==> #[trigger] t[k] == s[k + i]);
    lemma_run_len_char(t, j - i);
    assert(t.take(j - i) =~= s.subrange(i, j));
    assert(t.skip(j - i) =~= s.skip(j));
}

/// Splits a line into its whitespace-separated tokens.
pub fn tokens(s: &Vec<u8>) -> (r: Vec<Vec<u8>>)
    ensures
        r.deep_view() == spec_tokens(s@),
{
    let mut r: Vec<Vec<u8>> = Vec::new();
    let mut i: usize = 0;
    proof {
        assert(s@.skip(0) =~= s@);
        assert(r.deep_view() + spec_tokens(s@) =~= spec_tokens(s@));
    }
    while i < s.len()
        invariant
            0 <= i <= s@.len(),
            spec_tokens(s@) == r.deep_view() + spec_tokens(s@.skip(i as int)),
        decreases s@.len() - i,
    {
        let b = s[i];
        if b == 32 || b == 9 || b == 10 || b == 13 || b == 12 {
            proof {
                lemma_tokens_skip_ws(s@, i as int, i + 1);
            }
            i = i + 1;
        } else {
            let start = i;
            let mut j = i;
            while j < s.len() && !(s[j] == 32 || s[j] == 9 || s[j] == 10 || s[j] == 13 || s[j]
                == 12)
                invariant
                    start <= j <= s@.len(),
                    forall|k: int| start <= k < j ==> !is_ws(#[trigger] s@[k]),
                decreases s@.len() - j,
            {
                j = j + 1;
            }
            let mut tok: Vec<u8> = Vec::new();
            let mut k = start;
            while k < j
                invariant
                    start <= k <= j <= s@.len(),
                    tok@ == s@.subrange(start as int, k as int),
                decreases j - k,
            {
                tok.push(s[k]);
                proof {
                    assert(tok@ =~= s@.subrange(start as int, k + 1));
                }
                k = k + 1;
            }
            let ghost prev = r.deep_view();
            proof {
                lemma_tokens_take_token(s@, start as int, j as int);
                assert(prev.push(tok@) + spec_tokens(s@.skip(j as int)) =~= prev + (seq![
                    s@.subrange(start as int, j as int),
                ] + spec_tokens(s@.skip(j as int))));
            }
            r.push(tok);
            proof {
                assert(r.deep_view() =~~= prev.push(tok@));
            }
            i = j;
        }
    }
    proof {
        assert(s@.skip(s@.len() as int) =~= Seq::<u8>::empty());
        assert(r.deep_view() + spec_tokens(s@.skip(s@.len() as int)) =~= r.deep_view());
    }
    r
}

/// The pattern `p` occurs in `s` starting at index `i`.
pub open spec fn match_at(s: Seq<u8>, p: Seq<u8>, i: int) -> bool {
    0 <= i && i + p.len() <= s.len() && (forall|j: int|
        0 <= j < p.len() ==> s[i + j] == #[trigger] p[j])
}

pub open spec fn spec_find_sub_from(s: Seq<u8>, p: Seq<u8>, i: int) -> Option<int>
    decreases s.len() - i,
{
    if i < 0 || i + p.len() > s.len() {
        None
    } else if match_at(s, p, i) {
        Some(i)
    } else {
        spec_find_sub_from(s, p, i + 1)
    }
}

/// Index of the first occurrence of `p` in `s`, if any.
pub open spec fn spec_find_sub(s: Seq<u8>, p: Seq<u8>) -> Option<int> {
    spec_find_sub_from(s, p, 0)
}

pub proof fn lemma_find_sub_props(s: Seq<u8>, p: Seq<u8>)
    ensures
        spec_find_sub(s, p) is Some ==> match_at(s, p, spec_find_sub(s, p)->0),
{
    lemma_find_sub_from_props(s, p, 0);
}

proof fn lemma_find_sub_from_props(s: Seq<u8>, p: Seq<u8>, i: int)
    ensures
        spec_find_sub_from(s, p, i) is Some ==> match_at(s, p, spec_find_sub_from(s, p, i)->0),
    decreases s.len() - i,
{
    if !(i < 0 || i + p.len() > s.len()) && !match_at(s, p, i) {
        lemma_find_sub_from_props(s, p, i + 1);
    }
}

pub open spec fn spec_starts_with(s: Seq<u8>, p: Seq<u8>) -> bool {
    match_at(s, p, 0)
}

/// Whether `s` begins with the byte pattern `p`.
pub fn starts_with(s: &Vec<u8>, p: &Vec<u8>) -> (r: bool)
    ensures
        r == spec_starts_with(s@, p@),
{
    if p.len() > s.len() {
        return false;
    }
    let mut j: usize = 0;
    while j < p.len()
        invariant
            0 <= j <= p@.len() <= s@.len(),
            forall|k: int| 0 <= k < j ==> s@[k] == #[trigger] p@[k],
        decreases p@.len() - j,
    {
        if s[j] != p[j] {
            return false;
        }
        j = j + 1;
    }
    true
}

/// First index at which `p` occurs in `s`, scanning left to right.
pub fn find_sub(s: &Vec<u8>, p: &Vec<u8>) -> (r: Option<usize>)
    ensures
        match r {
            Some(i) => spec_find_sub(s@, p@) == Some(i as int),
            None => spec_find_sub(s@, p@) is None,
        },
{
    let sn: usize = s.len();
    let pn: usize = p.len();
    if pn > sn {
        return None;
    }
    let mut i: usize = 0;
    while i <= sn - pn
        invariant
            0 <= i,
            sn == s@.len(),
            pn == p@.len(),
            i + p@.len() <= s@.len() + 1,
            p@.len() <= s@.len(),
            spec_find_sub(s@, p@) == spec_find_sub_from(s@, p@, i as int),
        decreases s@.len() - i,
    {
        let mut j: usize = 0;
        let mut ok: bool = true;
        while j < pn
            invariant
                0 <= j <= p@.len(),
                sn == s@.len(),
                pn == p@.len(),
                i + p@.len() <= s@.len(),
                ok == (forall|k: int| 0 <= k < j ==> s@[i + k] == #[trigger] p@[k]),
            decreases p@.len() - j,
        {
            if s[i + j] != p[j] {
                ok = false;
                proof {
                    assert(!(s@[i + j as int] == p@[j as int]));
                }
                j = p.len();
            } else {
                j = j + 1;
            }
        }
        if ok {
            proof {
                assert(match_at(s@, p@, i as int));
            }
            return Some(i);
        }
        proof {
            assert(!match_at(s@, p@, i as int));
        }
        i = i + 1;
    }
    None
}

/// Leading sign of a number token: the sign factor and the rest.
pub open spec fn sign_split(s: Seq<u8>) -> (int, Seq<u8>) {
    if s.len() > 0 && s[0] == 45 {
        (-1int, s.drop_first())
    } else if s.len() > 0 && s[0] == 43 {
        (1int, s.drop_first())
    } else {
        (1int, s)
    }
}

/// First index at or after `i` holding byte `a` or byte `b`, else `s.len()`.
pub open spec fn find_byte2(s: Seq<u8>, a: u8, b: u8, i: int) -> int
    decreases s.len() - i,
{
    if i < 0 || i >= s.len() {
        s.len() as int
    } else if s[i] == a || s[i] == b {
        i
    } else {
        find_byte2(s, a, b, i + 1)
    }
}

proof fn lemma_find_byte2_char(s: Seq<u8>, a: u8, b: u8, n: int)
    requires
        0 <= n <= s.len(),
        forall|k: int| 0 <= k < n ==> #[trigger] s[k] != a && s[k] != b,
        n == s.len() || s[n] == a || s[n] == b,
    ensures
        find_byte2(s, a, b, 0) == n,
{
    lemma_find_byte2_char_from(s, a, b, 0, n);
}

proof fn lemma_find_byte2_char_from(s: Seq<u8>, a: u8, b: u8, i: int, n: int)
    requires
        0 <= i <= n <= s.len(),
        forall|k: int| i <= k < n ==> #[trigger] s[k] != a && s[k] != b,
        n == s.len() || s[n] == a || s[n] == b,
    ensures
        find_byte2(s, a, b, i) == n,
    decreases n - i,
{
    if i < n {
        lemma_find_byte2_char_from(s, a, b, i + 1, n);
    }
}

/// Value of an exponent field: optional sign, then digits.
pub open spec fn spec_parse_exp(s: Seq<u8>) -> Option<int> {
    let (sg, t) = sign_split(s);
    if t.len() >= 1 && all_digits(t) && digits_val(t) <= EXP_LIM {
        Some(sg * digits_val(t))
    } else {
        None
    }
}

/// Fixed-point value of a decimal with digit value `d`, `f` fraction
/// digits and exponent `e`, truncated toward zero; `None` when the
/// magnitude exceeds `FP_LIM`.
pub open spec fn spec_fixed_value(sg: int, d: int, f: int, e: int) -> Option<i128> {
    let sh = e - f + 9;
    if d == 0 {
        Some(0i128)
    } else if sh >= 0 {
        if sh > 18 {
            None
        } else if d <= (FP_LIM as int) / pow10(sh as nat) {
            Some((sg * d * pow10(sh as nat)) as i128)
        } else {
            None
        }
    } else {
        let k = -sh;
        if k > 30 {
            Some(0i128)
        } else {
            let q = d / pow10(k as nat);
            if q <= FP_LIM {
                Some((sg * q) as i128)
            } else {
                None
            }
        }
    }
}

/// Fixed-point reading of a decimal number token: optional sign, digits
/// with an optional fraction part, and an optional power-of-ten exponent.
/// The value is truncated toward zero to 9 fractional digits; `None` for a
/// malformed token or one whose magnitude exceeds `FP_LIM`.
pub open spec fn spec_parse_fixed(s: Seq<u8>) -> Option<i128> {
    let (sg, t) = sign_split(s);
    let ei = find_byte2(t, 101, 69, 0);
    let mant = t.take(ei);
    let eres: Option<int> = if ei == t.len() {
        Some(0int)
    } else {
        spec_parse_exp(t.skip(ei + 1))
    };
    if eres is None {
        None
    } else {
        let e = eres->0;
        let di = find_byte2(mant, 46, 46, 0);
        let ip = mant.take(di);
        let fr = if di == mant.len() {
            Seq::<u8>::empty()
        } else {
            mant.skip(di + 1)
        };
        let ds = ip + fr;
        if ds.len() >= 1 && all_digits(ds) && digits_val(ds) <= DIGITS_LIM {
            spec_fixed_value(sg, digits_val(ds), fr.len() as int, e)
        } else {
            None
        }
    }
}

/// Signed 64-bit reading of an integer token.
pub open spec fn spec_parse_i64(s: Seq<u8>) -> Option<i64> {
    let (sg, t) = sign_split(s);
    if t.len() >= 1 && all_digits(t) && i64::MIN <= sg * digits_val(t) <= i64::MAX {
        Some((sg * digits_val(t)) as i64)
    } else {
        None
    }
}

/// Unsigned reading of an integer token (a leading `+` is accepted).
pub open spec fn spec_parse_usize(s: Seq<u8>) -> Option<usize> {
    let (sg, t) = sign_split(s);
    if sg == 1 && t.len() >= 1 && all_digits(t) && digits_val(t) <= usize::MAX {
        Some(digits_val(t) as usize)
    } else {
        None
    }
}

/// Reads a signed 64-bit integer token.
pub fn parse_i64(s: &Vec<u8>) -> (r: Option<i64>)
    ensures
        r == spec_parse_i64(s@),
{
    let sn: usize = s.len();
    let mut start: usize = 0;
    let mut neg: bool = false;
    if sn > 0 && s[0] == 45 {
        start = 1;
        neg = true;
    } else if sn > 0 && s[0] == 43 {
        start = 1;
    }
    let ghost t = sign_split(s@).1;
    proof {
        assert(t =~= s@.subrange(start as int, sn as int));
        assert(sign_split(s@).0 == if neg {
            -1int
        } else {
            1int
        });
        lemma_digits_val_nonneg_if(t);
    }
    if sn == start {
        return None;
    }
    let r: Option<i64> = match digit_run_val(s, start, sn, 9223372036854775808i128) {
        None => None,
        Some(v) => {
            if neg {
                Some((-v) as i64)
            } else {
                if v <= 9223372036854775807i128 {
                    Some(v as i64)
                } else {
                    None
                }
            }
        },
    };
    proof {
        if r is None {
            assert(spec_parse_i64(s@) is None);
        } else {
            assert(spec_parse_i64(s@) is Some && spec_parse_i64(s@)->0 == r->0);
        }
    }
    r
}

proof fn lemma_digits_val_nonneg_if(s: Seq<u8>)
    ensures
        all_digits(s) ==> digits_val(s) >= 0,
{
    if all_digits(s) {
        lemma_digits_val_nonneg(s);
    }
}

/// Reads an unsigned integer token into a `usize`.
pub fn parse_usize(s: &Vec<u8>) -> (r: Option<usize>)
    ensures
        r == spec_parse_usize(s@),
{
    let sn: usize = s.len();
    if sn > 0 && s[0] == 45 {
        return None;
    }
    let mut start: usize = 0;
    if sn > 0 && s[0] == 43 {
        start = 1;
    }
    let ghost t = sign_split(s@).1;
    proof {
        assert(t =~= s@.subrange(start as int, sn as int));
        lemma_digits_val_nonneg_if(t);
    }
    if sn == start {
        return None;
    }
    match digit_run_val(s, start, sn, usize::MAX as i128) {
        None => None,
        Some(v) => Some(v as usize),
    }
}

/// Reads the exponent field `s[from..]`: optional sign, then digits.
fn parse_exp_part(s: &Vec<u8>, from: usize) -> (r: Option<i128>)
    requires
        from <= s@.len(),
    ensures
        ({
            let sub = s@.subrange(from as int, s@.len() as int);
            match r {
                Some(v) => spec_parse_exp(sub) == Some(v as int) && -EXP_LIM <= v <= EXP_LIM,
                None => spec_parse_exp(sub) is None,
            }
        }),
{
    let sn: usize = s.len();
    let ghost sub = s@.subrange(from as int, sn as int);
    let mut es: usize = from;
    let mut eneg: bool = false;
    if es < sn && s[es] == 45 {
        eneg = true;
        es = es + 1;
    } else if es < sn && s[es] == 43 {
        es = es + 1;
    }
    let ghost tes = sign_split(sub).1;
    proof {
        assert(tes =~= s@.subrange(es as int, sn as int));
        assert(sign_split(sub).0 == if eneg {
            -1int
        } else {
            1int
        });
        lemma_digits_val_nonneg_if(tes);
    }
    if es == sn {
        return None;
    }
    match digit_run_val(s, es, sn, EXP_LIM) {
        None => None,
        Some(v) => Some(
            if eneg {
                -v
            } else {
                v
            },
        ),
    }
}

/// Reads the mantissa `s[start..ep]`: integer digits, an optional decimal
/// point, and fraction digits. Yields the digit value and the count of
/// fraction digits.
fn parse_mantissa(s: &Vec<u8>, start: usize, ep: usize) -> (r: Option<(i128, usize)>)
    requires
        start <= ep <= s@.len(),
    ensures
        ({
            let mant = s@.subrange(start as int, ep as int);
            let di = find_byte2(mant, 46, 46, 0);
            let ip = mant.take(di);
            let fr = if di == mant.len() {
                Seq::<u8>::empty()
            } else {
                mant.skip(di + 1)
            };
            let ds = ip + fr;
            match r {
                Some(p) => ds.len() >= 1 && all_digits(ds) && digits_val(ds) == p.0 && 0 <= p.0
                    <= DIGITS_LIM && p.1 == fr.len(),
                None => !(ds.len() >= 1 && all_digits(ds) && digits_val(ds) <= DIGITS_LIM),
            }
        }),
{
    let sn: usize = s.len();
    let ghost mant = s@.subrange(start as int, ep as int);
    let mut dp: usize = start;
    while dp < ep && s[dp] != 46
        invariant
            start <= dp <= ep <= sn,
            sn == s@.len(),
            forall|k: int| start <= k < dp ==> #[trigger] s@[k] != 46,
        decreases ep - dp,
    {
        dp = dp + 1;
    }
    let ghost di = dp - start;
    proof {
        assert(forall|k: int| 0 <= k < mant.len() ==> #[trigger] mant[k] == s@[k + start]);
        lemma_find_byte2_char(mant, 46, 46, di);
    }
    let ghost ip = mant.take(di);
    let ghost fr = if di == mant.len() {
        Seq::<u8>::empty()
    } else {
        mant.skip(di + 1)
    };
    let mut buf: Vec<u8> = Vec::new();
    let mut i: usize = start;
    while i < dp
        invariant
            start <= i <= dp <= sn,
            sn == s@.len(),
            buf@ == s@.subrange(start as int, i as int),
        decreases dp - i,
    {
        buf.push(s[i]);
        proof {
            assert(buf@ =~= s@.subrange(start as int, i + 1));
        }
        i = i + 1;
    }
    proof {
        assert(buf@ =~= ip);
    }
    let mut f: usize = 0;
    if dp < ep {
        let mut j: usize = dp + 1;
        while j < ep
            invariant
                dp + 1 <= j <= ep <= sn,
                sn == s@.len(),
                ip == mant.take(di),
                buf@ == ip + s@.subrange(dp + 1, j as int),
            decreases ep - j,
        {
            buf.push(s[j]);
            proof {
                assert(buf@ =~= ip + s@.subrange(dp + 1, j + 1));
            }
            j = j + 1;
        }
        f = ep - dp - 1;
        proof {
            assert(fr =~= s@.subrange(dp + 1, ep as int));
        }
    }
    proof {
        assert(buf@ =~= ip + fr);
        assert(f as int == fr.len());
    }
    let bn = buf.len();
    if bn == 0 {
        proof {
            assert((ip + fr).len() == 0);
        }
        return None;
    }
    let dres = digit_run_val(&buf, 0, bn, DIGITS_LIM);
    proof {
        assert(buf@.subrange(0, bn as int) =~= ip + fr);
        lemma_digits_val_nonneg_if(ip + fr);
    }
    match dres {
        None => None,
        Some(d) => Some((d, f)),
    }
}

/// Reads a decimal number token to fixed point, per `spec_parse_fixed`.
pub fn parse_fixed(s: &Vec<u8>) -> (r: Option<i128>)
    ensures
        r == spec_parse_fixed(s@),
{
    let sn: usize = s.len();
    let mut start: usize = 0;
    let mut neg: bool = false;
    if sn > 0 && s[0] == 45 {
        start = 1;
        neg = true;
    } else if sn > 0 && s[0] == 43 {
        start = 1;
    }
    let ghost t = sign_split(s@).1;
    let ghost sg = sign_split(s@).0;
    proof {
        assert(t =~= s@.subrange(start as int, sn as int));
        assert(sg == if neg {
            -1int
        } else {
            1int
        });
    }
    // Position of the exponent marker, if any.
    let mut ep: usize = start;
    while ep < sn && s[ep] != 101 && s[ep] != 69
        invariant
            start <= ep <= sn,
            sn == s@.len(),
            forall|k: int| start <= k < ep ==> #[trigger] s@[k] != 101 && s@[k] != 69,
        decreases sn - ep,
    {
        ep = ep + 1;
    }
    let ghost ei = ep - start;
    proof {
        assert(forall|k: int| 0 <= k < t.len() ==> #[trigger] t[k] == s@[k + start]);
        lemma_find_byte2_char(t, 101, 69, ei);
    }
    // Exponent value.
    let mut eval: i128 = 0;
    if ep < sn {
        proof {
            assert(t.skip(ei + 1) =~= s@.subrange(ep + 1, sn as int));
        }
        match parse_exp_part(s, ep + 1) {
            None => {
                return None;
            },
            Some(v) => {
                eval = v;
            },
        }
    }
    proof {
        assert(t.take(ei) =~= s@.subrange(start as int, ep as int));
    }
    match parse_mantissa(s, start, ep) {
        None => None,
        Some((d, f)) => {
            let r = fixed_value(neg, d, f, eval);
            r
        },
    }
}

/// Combines a mantissa digit value `d`, fraction length `f` and exponent
/// `eval` into the fixed-point value, per `spec_fixed_value`.
fn fixed_value(neg: bool, d: i128, f: usize, eval: i128) -> (r: Option<i128>)
    requires
        0 <= d <= DIGITS_LIM,
        -EXP_LIM <= eval <= EXP_LIM,
    ensures
        ({
            let sg = if neg {
                -1int
            } else {
                1int
            };
            r == spec_fixed_value(sg, d as int, f as int, eval as int)
        }),
{
    let sh: i128 = eval - (f as i128) + 9;
    let mag: i128;
    if d == 0 {
        mag = 0;
    } else if sh >= 0 {
        if sh > 18 {
            return None;
        }
        let p = pow10_i128(sh as u32);
        proof {
            lemma_pow10_pos(sh as nat);
            lemma_pow10_bound(sh as nat);
        }
        let lim_div = ((FP_LIM as u128) / (p as u128)) as i128;
        proof {
            assert(lim_div == (FP_LIM as int) / (p as int));
        }
        if d <= lim_div {
            proof {
                lemma_mul_le_from_div(d as int, p as int, FP_LIM as int);
                vstd::arithmetic::mul::lemma_mul_is_associative(-1, d as int, p as int);
                vstd::arithmetic::mul::lemma_mul_is_associative(1, d as int, p as int);
            }
            mag = d * p;
        } else {
            return None;
        }
    } else {
        let k = -sh;
        if k > 30 {
            mag = 0;
        } else {
            let p = pow10_i128(k as u32);
            proof {
                lemma_pow10_pos(k as nat);
                lemma_pow10_bound(k as nat);
            }
            let q = ((d as u128) / (p as u128)) as i128;
            proof {
                assert(q == (d as int) / (p as int));
            }
            if q <= FP_LIM {
                mag = q;
            } else {
                return None;
            }
        }
    }
    Some(
        if neg {
            -mag
        } else {
            mag
        },
    )
}

/// Any value the decimal parser yields is within the parse bound.
pub proof fn lemma_parse_fixed_bounds(s: Seq<u8>)
    ensures
        spec_parse_fixed(s) is Some ==> fp_ok(spec_parse_fixed(s)->0),
{
    if spec_parse_fixed(s) is Some {
        let (sg, t) = sign_split(s);
        let ei = find_byte2(t, 101, 69, 0);
        let mant = t.take(ei);
        let di = find_byte2(mant, 46, 46, 0);
        let ip = mant.take(di);
        let fr = if di == mant.len() {
            Seq::<u8>::empty()
        } else {
            mant.skip(di + 1)
        };
        let ds = ip + fr;
        if all_digits(ds) {
            lemma_digits_val_nonneg(ds);
        }
        let e: int = if ei == t.len() {
            0
        } else {
            spec_parse_exp(t.skip(ei + 1))->0
        };
        lemma_fixed_value_bounds(sg, digits_val(ds), fr.len() as int, e);
    }
}

proof fn lemma_fixed_value_bounds(sg: int, d: int, f: int, e: int)
    requires
        sg == 1 || sg == -1,
        0 <= d,
    ensures
        spec_fixed_value(sg, d, f, e) is Some ==> fp_ok(spec_fixed_value(sg, d, f, e)->0),
{
    let sh = e - f + 9;
    if d == 0 {
    } else if sh >= 0 {
        if sh <= 18 && d <= (FP_LIM as int) / pow10(sh as nat) {
            lemma_pow10_pos(sh as nat);
            lemma_mul_le_from_div(d, pow10(sh as nat), FP_LIM as int);
            assert(d * pow10(sh as nat) >= 0) by (nonlinear_arith)
                requires
                    d >= 0,
                    pow10(sh as nat) >= 1,
            ;
            assert(sg * d * pow10(sh as nat) == sg * (d * pow10(sh as nat))) by (nonlinear_arith);
        }
    } else {
        let k = -sh;
        if k <= 30 {
            lemma_pow10_pos(k as nat);
            vstd::arithmetic::div_mod::lemma_div_is_ordered(0, d, pow10(k as nat));
        }
    }
}

/// For positive `p`: `d <= lim / p` implies `d * p <= lim`.
proof fn lemma_mul_le_from_div(d: int, p: int, lim: int)
    requires
        0 <= d,
        1 <= p,
        0 <= lim,
        d <= lim / p,
    ensures
        d * p <= lim,
{
    vstd::arithmetic::div_mod::lemma_fundamental_div_mod(lim, p);
    vstd::arithmetic::mul::lemma_mul_inequality(d, lim / p, p);
    vstd::arithmetic::div_mod::lemma_mod_bound(lim, p);
}

/// Decimal digits of a nonnegative number, most significant first.
pub open spec fn spec_dec_digits(n: int) -> Seq<u8>
    decreases n,
{
    if n < 0 {
        Seq::empty()
    } else if n < 10 {
        seq![(n + 48) as u8]
    } else {
        spec_dec_digits(n / 10).push((n % 10 + 48) as u8)
    }
}

/// Formats a nonnegative number in decimal.
pub fn fmt_u128(n: u128) -> (r: Vec<u8>)
    ensures
        r@ == spec_dec_digits(n as int),
    decreases n,
{
    if n < 10 {
        let mut v: Vec<u8> = Vec::new();
        v.push((n as u8) + 48);
        proof {
            assert(v@ =~= seq![(n + 48) as u8]);
        }
        v
    } else {
        let mut v = fmt_u128(n / 10);
        v.push(((n % 10) as u8) + 48);
        proof {
            assert(v@ =~= spec_dec_digits(n as int / 10).push((n as int % 10 + 48) as u8));
        }
        v
    }
}

/// Drops trailing zero digits, keeping at least one digit.
pub open spec fn spec_trim_zeros(s: Seq<u8>) -> Seq<u8>
    decreases s.len(),
{
    if s.len() > 1 && s.last() == 48 {
        spec_trim_zeros(s.drop_last())
    } else {
        s
    }
}

/// The nine decimal digits of a fraction numerator `fr < FP_SCALE`.
pub open spec fn spec_frac9(fr: int) -> Seq<u8> {
    Seq::new(9, |i: int| ((fr / pow10((8 - i) as nat)) % 10 + 48) as u8)
}

/// Decimal rendering of a fixed-point value: integer part, a point, and
/// the fraction digits with trailing zeros dropped.
pub open spec fn spec_fmt_fp(v: int) -> Seq<u8> {
    let a = if v < 0 {
        -v
    } else {
        v
    };
    let sign: Seq<u8> = if v < 0 {
        seq![45u8]
    } else {
        Seq::empty()
    };
    sign + spec_dec_digits(a / (FP_SCALE as int)) + seq![46u8] + spec_trim_zeros(
        spec_frac9(a % (FP_SCALE as int)),
    )
}

/// Formats a fixed-point value in decimal.
pub fn fmt_fp(v: i128) -> (r: Vec<u8>)
    requires
        v > i128::MIN,
    ensures
        r@ == spec_fmt_fp(v as int),
{
    let mut r: Vec<u8> = Vec::new();
    if v < 0 {
        r.push(45);
    }
    let a: i128 = if v < 0 {
        -v
    } else {
        v
    };
    let au = a as u128;
    let ipart = au / 1_000_000_000u128;
    let frac = au % 1_000_000_000u128;
    let mut d = fmt_u128(ipart);
    r.append(&mut d);
    r.push(46);
    let ghost sign: Seq<u8> = if v < 0 {
        seq![45u8]
    } else {
        Seq::empty()
    };
    proof {
        assert(r@ =~= sign + spec_dec_digits(a as int / (FP_SCALE as int)) + seq![46u8]);
    }
    let mut fd: Vec<u8> = Vec::new();
    let mut k: usize = 0;
    while k < 9
        invariant
            0 <= k <= 9,
            frac == a as int % (FP_SCALE as int),
            0 <= frac < FP_SCALE,
            fd@ == spec_frac9(frac as int).take(k as int),
        decreases 9 - k,
    {
        let p = pow10_i128((8 - k) as u32) as u128;
        proof {
            lemma_pow10_pos((8 - k) as nat);
            lemma_pow10_bound((8 - k) as nat);
        }
        fd.push((((frac / p) % 10) as u8) + 48);
        proof {
            assert(fd@ =~= spec_frac9(frac as int).take(k + 1));
        }
        k = k + 1;
    }
    proof {
        assert(fd@ =~= spec_frac9(frac as int));
    }
    while fd.len() > 1 && fd[fd.len() - 1] == 48
        invariant
            fd@.len() >= 1,
            spec_trim_zeros(spec_frac9(frac as int)) == spec_trim_zeros(fd@),
        decreases fd@.len(),
    {
        let ghost prev = fd@;
        fd.pop();
        proof {
            assert(fd@ =~= prev.drop_last());
        }
    }
    r.append(&mut fd);
    proof {
        assert(r@ =~= spec_fmt_fp(v as int));
    }
    r
}

/// Decimal rendering of a plain integer.
pub open spec fn spec_fmt_int(v: int) -> Seq<u8> {
    if v < 0 {
        seq![45u8] + spec_dec_digits(-v)
    } else {
        spec_dec_digits(v)
    }
}

/// Formats a plain integer in decimal.
pub fn fmt_int(v: i128) -> (r: Vec<u8>)
    requires
        v > i128::MIN,
    ensures
        r@ == spec_fmt_int(v as int),
{
    if v < 0 {
        let mut r: Vec<u8> = Vec::new();
        r.push(45);
        let mut d = fmt_u128((-v) as u128);
        r.append(&mut d);
        proof {
            assert(r@ =~= seq![45u8] + spec_dec_digits(-(v as int)));
        }
        r
    } else {
        fmt_u128(v as u128)
    }
}

/// Every byte of a formatted integer is printable ASCII.
pub proof fn lemma_fmt_int_ascii(v: int)
    ensures
        ascii_bytes(spec_fmt_int(v)),
{
    if v < 0 {
        lemma_dec_digits_ascii(-v);
        let whole = seq![45u8] + spec_dec_digits(-v);
        assert forall|i: int| 0 <= i < whole.len() implies #[trigger] whole[i] < 128 by {
            if i > 0 {
                assert(whole[i] == spec_dec_digits(-v)[i - 1]);
            }
        }
    } else {
        lemma_dec_digits_ascii(v);
        assert forall|i: int| 0 <= i < spec_fmt_int(v).len() implies #[trigger] spec_fmt_int(
            v,
        )[i] < 128 by {
            assert(spec_fmt_int(v)[i] == spec_dec_digits(v)[i]);
        }
    }
}

/// The characters of an ASCII byte string.
pub open spec fn ascii_chars(b: Seq<u8>) -> Seq<char> {
    Seq::new(b.len(), |i: int| b[i] as char)
}

pub open spec fn ascii_bytes(b: Seq<u8>) -> bool {
    forall|i: int| 0 <= i < b.len() ==> #[trigger] b[i] < 128
}

/// Relies on String::from_utf8: ASCII bytes decode to the string with the
/// same characters.
#[verifier::external_body]
pub fn ascii_string(b: &Vec<u8>) -> (r: String)
    requires
        ascii_bytes(b@),
    ensures
        r@ == ascii_chars(b@),
{
    String::from_utf8(b.clone()).unwrap_or_default()
}

/// Whether a vector of codes holds `x`.
pub fn contains_i64(v: &Vec<i64>, x: i64) -> (r: bool)
    ensures
        r == v@.contains(x),
{
    let n = v.len();
    let mut i: usize = 0;
    while i < n
        invariant
            0 <= i <= n,
            n == v@.len(),
            forall|j: int| 0 <= j < i ==> v@[j] != x,
        decreases n - i,
    {
        if v[i] == x {
            return true;
        }
        i = i + 1;
    }
    proof {
        assert(!v@.contains(x));
    }
    false
}

proof fn lemma_dec_digits_ascii(n: int)
    ensures
        forall|i: int|
            0 <= i < spec_dec_digits(n).len() ==> 48 <= #[trigger] spec_dec_digits(n)[i] <= 57,
    decreases n,
{
    if n >= 10 {
        lemma_dec_digits_ascii(n / 10);
        assert(0 <= n % 10 < 10);
        assert forall|i: int| 0 <= i < spec_dec_digits(n).len() implies 48 <= #[trigger] spec_dec_digits(
            n,
        )[i] <= 57 by {
            if i < spec_dec_digits(n / 10).len() {
                assert(spec_dec_digits(n)[i] == spec_dec_digits(n / 10)[i]);
            }
        }
    }
}

proof fn lemma_trim_zeros_ascii(s: Seq<u8>)
    requires
        forall|i: int| 0 <= i < s.len() ==> 48 <= #[trigger] s[i] <= 57,
    ensures
        forall|i: int|
            0 <= i < spec_trim_zeros(s).len() ==> 48 <= #[trigger] spec_trim_zeros(s)[i] <= 57,
    decreases s.len(),
{
    if s.len() > 1 && s.last() == 48 {
        assert(forall|i: int|
            0 <= i < s.drop_last().len() ==> 48 <= #[trigger] s.drop_last()[i] <= 57);
        lemma_trim_zeros_ascii(s.drop_last());
        assert(spec_trim_zeros(s) == spec_trim_zeros(s.drop_last()));
    } else {
        assert(spec_trim_zeros(s) == s);
    }
}

/// Every byte of a formatted fixed-point value is printable ASCII.
pub proof fn lemma_fmt_fp_ascii(v: int)
    ensures
        ascii_bytes(spec_fmt_fp(v)),
{
    let a = if v < 0 {
        -v
    } else {
        v
    };
    let sign: Seq<u8> = if v < 0 {
        seq![45u8]
    } else {
        Seq::empty()
    };
    let digs = spec_dec_digits(a / (FP_SCALE as int));
    let fr = a % (FP_SCALE as int);
    let frs = spec_frac9(fr);
    lemma_dec_digits_ascii(a / (FP_SCALE as int));
    assert(forall|i: int| 0 <= i < frs.len() ==> 48 <= #[trigger] frs[i] <= 57);
    lemma_trim_zeros_ascii(frs);
    let whole = sign + digs + seq![46u8] + spec_trim_zeros(frs);
    assert forall|i: int| 0 <= i < whole.len() implies #[trigger] whole[i] < 128 by {
        if i < sign.len() {
        } else if i < sign.len() + digs.len() {
            assert(whole[i] == digs[i - sign.len()]);
        } else if i < sign.len() + digs.len() + 1 {
            assert(whole[i] == 46u8);
        } else {
            assert(whole[i] == spec_trim_zeros(frs)[i - sign.len() - digs.len() - 1]);
        }
    }
}

} // verus!
