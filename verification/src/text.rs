//! Character-level helpers: the whitespace of `str::trim`, decimal
//! numbers as `u64::from_str` and `f64::from_str` read them, and the
//! string operations that the conversion needs.

use vstd::prelude::*;

verus! {

// ---------------------------------------------------------------------
// Specifications
// ---------------------------------------------------------------------

/// The Unicode `White_Space` property, which `char::is_whitespace` and
/// `str::trim` use.
pub open spec fn is_white_space(c: char) -> bool {
    ||| ('\u{9}' <= c && c <= '\u{d}')
    ||| c == ' '
    ||| c == '\u{85}'
    ||| c == '\u{a0}'
    ||| c == '\u{1680}'
    ||| ('\u{2000}' <= c && c <= '\u{200a}')
    ||| c == '\u{2028}'
    ||| c == '\u{2029}'
    ||| c == '\u{202f}'
    ||| c == '\u{205f}'
    ||| c == '\u{3000}'
}

/// `s` without its leading whitespace.
pub open spec fn trim_start(s: Seq<char>) -> Seq<char>
    decreases s.len(),
{
    if s.len() > 0 && is_white_space(s[0]) {
        trim_start(s.drop_first())
    } else {
        s
    }
}

/// `s` without its trailing whitespace.
pub open spec fn trim_end(s: Seq<char>) -> Seq<char>
    decreases s.len(),
{
    if s.len() > 0 && is_white_space(s.last()) {
        trim_end(s.drop_last())
    } else {
        s
    }
}

/// `s` without leading and trailing whitespace, as `str::trim` gives it.
pub open spec fn trimmed(s: Seq<char>) -> Seq<char> {
    trim_end(trim_start(s))
}

pub open spec fn is_digit(c: char) -> bool {
    '0' <= c && c <= '9'
}

pub open spec fn digit_value(c: char) -> nat {
    (c as int - '0' as int) as nat
}

/// The number that the decimal digits `d` spell.
pub open spec fn decimal_value(d: Seq<char>) -> nat
    decreases d.len(),
{
    if d.len() == 0 {
        0
    } else {
        decimal_value(d.drop_last()) * 10 + digit_value(d.last())
    }
}

pub open spec fn all_digits(d: Seq<char>) -> bool {
    forall|i: int| 0 <= i < d.len() ==> is_digit(#[trigger] d[i])
}

/// `s` without one leading `+`.
pub open spec fn without_plus(s: Seq<char>) -> Seq<char> {
    if s.len() > 0 && s[0] == '+' {
        s.drop_first()
    } else {
        s
    }
}

/// What `u64::from_str` accepts: an optional `+`, then at least one
/// decimal digit, spelling a number that fits in a `u64`.
pub open spec fn parse_u64_spec(s: Seq<char>) -> Option<u64> {
    let d = without_plus(s);
    if d.len() > 0 && all_digits(d) && decimal_value(d) <= u64::MAX {
        Some(decimal_value(d) as u64)
    } else {
        None
    }
}

/// The number of decimal digits at the start of `s`.
pub open spec fn lead_digits(s: Seq<char>) -> nat
    decreases s.len(),
{
    if s.len() > 0 && is_digit(s[0]) {
        1 + lead_digits(s.drop_first())
    } else {
        0
    }
}

/// `s` without one leading `+` or `-`.
pub open spec fn without_sign(s: Seq<char>) -> Seq<char> {
    if s.len() > 0 && (s[0] == '+' || s[0] == '-') {
        s.drop_first()
    } else {
        s
    }
}

/// An exponent: `e` or `E`, an optional sign, at least one digit.
pub open spec fn is_exponent(s: Seq<char>) -> bool {
    &&& s.len() > 0
    &&& (s[0] == 'e' || s[0] == 'E')
    &&& without_sign(s.drop_first()).len() > 0
    &&& lead_digits(without_sign(s.drop_first())) == without_sign(s.drop_first()).len()
}

/// The decimal numbers of the grammar of `f64::from_str`:
/// `Sign? (Digit+ | Digit+ '.' Digit* | Digit* '.' Digit+) Exp?`.
/// (The words `inf`, `infinity` and `nan` of that grammar are not among
/// them: they do not name finite numbers.)
pub open spec fn is_decimal_float(s: Seq<char>) -> bool {
    let t = without_sign(s);
    let m = lead_digits(t);
    let r = t.skip(m as int);
    if r.len() > 0 && r[0] == '.' {
        let f = lead_digits(r.drop_first());
        let e = r.drop_first().skip(f as int);
        m + f >= 1 && (e.len() == 0 || is_exponent(e))
    } else {
        m >= 1 && (r.len() == 0 || is_exponent(r))
    }
}

// ---------------------------------------------------------------------
// Lemmas
// ---------------------------------------------------------------------

proof fn lemma_trim_start_skip(s: Seq<char>, i: int)
    requires
        0 <= i < s.len(),
        is_white_space(s[i]),
    ensures
        trim_start(s.skip(i)) == trim_start(s.skip(i + 1)),
{
    assert(s.skip(i).drop_first() =~= s.skip(i + 1));
}

proof fn lemma_trim_end_take(s: Seq<char>, j: int)
    requires
        0 < j <= s.len(),
        is_white_space(s[j - 1]),
    ensures
        trim_end(s.take(j)) == trim_end(s.take(j - 1)),
{
    assert(s.take(j).drop_last() =~= s.take(j - 1));
}

proof fn lemma_trim_start_shape(s: Seq<char>)
    ensures
        trim_start(s).len() > 0 ==> !is_white_space(trim_start(s)[0]),
    decreases s.len(),
{
    if s.len() > 0 && is_white_space(s[0]) {
        lemma_trim_start_shape(s.drop_first());
    }
}

proof fn lemma_trim_end_shape(s: Seq<char>)
    ensures
        trim_end(s).len() <= s.len(),
        trim_end(s) == s.take(trim_end(s).len() as int),
        trim_end(s).len() > 0 ==> !is_white_space(trim_end(s).last()),
    decreases s.len(),
{
    if s.len() > 0 && is_white_space(s.last()) {
        lemma_trim_end_shape(s.drop_last());
        let t = trim_end(s.drop_last());
        assert(s.drop_last().take(t.len() as int) =~= s.take(t.len() as int));
    } else {
        assert(s.take(s.len() as int) =~= s);
    }
}

/// Trimming twice trims no more than once.
pub proof fn lemma_trimmed_idempotent(s: Seq<char>)
    ensures
        trimmed(trimmed(s)) == trimmed(s),
{
    let u = trim_start(s);
    let w = trim_end(u);
    lemma_trim_start_shape(s);
    lemma_trim_end_shape(u);
    if w.len() > 0 {
        assert(w[0] == u[0]);
    }
    assert(trim_start(w) == w);
}

proof fn lemma_lead_digits_step(s: Seq<char>, i: int)
    requires
        0 <= i < s.len(),
        is_digit(s[i]),
    ensures
        lead_digits(s.skip(i)) == 1 + lead_digits(s.skip(i + 1)),
{
    assert(s.skip(i).drop_first() =~= s.skip(i + 1));
}

proof fn lemma_decimal_value_prefix_grows(d: Seq<char>, k: int)
    requires
        0 <= k <= d.len(),
    ensures
        decimal_value(d.take(k)) <= decimal_value(d),
    decreases d.len() - k,
{
    if k < d.len() {
        lemma_decimal_value_prefix_grows(d, k + 1);
        assert(d.take(k + 1).drop_last() =~= d.take(k));
        assert(decimal_value(d.take(k + 1)) == decimal_value(d.take(k)) * 10 + digit_value(
            d.take(k + 1).last(),
        ));
    } else {
        assert(d.take(k) =~= d);
    }
}

// ---------------------------------------------------------------------
// Executable functions
// ---------------------------------------------------------------------

/// The characters of `s`, in order.
pub fn chars_of(s: &str) -> (res: Vec<char>)
    ensures
        res@ == s@,
{
    let mut res: Vec<char> = Vec::new();
    for c in it: s.chars()
        invariant
            res@ == it.seq().take(it.index() as int),
    {
        res.push(c);
    }
    res
}

/// Whether `c` is whitespace, as `char::is_whitespace` says.
pub fn is_whitespace_char(c: char) -> (res: bool)
    ensures
        res == is_white_space(c),
{
    ('\u{9}' <= c && c <= '\u{d}') || c == ' ' || c == '\u{85}' || c == '\u{a0}' || c == '\u{1680}'
        || ('\u{2000}' <= c && c <= '\u{200a}') || c == '\u{2028}' || c == '\u{2029}' || c
        == '\u{202f}' || c == '\u{205f}' || c == '\u{3000}'
}

/// `s` without leading and trailing whitespace.
pub fn trim(s: &str) -> (res: &str)
    ensures
        res@ == trimmed(s@),
{
    let cs = chars_of(s);
    let n = cs.len();
    let mut i: usize = 0;
    assert(s@.skip(0) =~= s@);
    while i < n && is_whitespace_char(cs[i])
        invariant
            cs@ == s@,
            n == cs.len(),
            i <= n,
            trim_start(s@) == trim_start(s@.skip(i as int)),
        decreases n - i,
    {
        proof {
            lemma_trim_start_skip(s@, i as int);
        }
        i = i + 1;
    }
    let ghost mid = s@.skip(i as int);
    assert(trim_start(mid) == mid) by {
        if mid.len() > 0 {
            assert(mid[0] == s@[i as int]);
        }
    }
    let mut j: usize = n;
    assert(mid.take(n - i) =~= mid);
    while j > i && is_whitespace_char(cs[j - 1])
        invariant
            cs@ == s@,
            n == cs.len(),
            i <= j <= n,
            mid == s@.skip(i as int),
            trim_end(mid) == trim_end(mid.take(j - i)),
        decreases j,
    {
        proof {
            assert(mid[j - i - 1] == s@[j - 1]);
            lemma_trim_end_take(mid, j - i);
        }
        j = j - 1;
    }
    assert(trim_end(mid.take(j - i)) == mid.take(j - i)) by {
        if j > i {
            assert(mid.take(j - i).last() == s@[j - 1]);
        }
    }
    assert(mid.take(j - i) =~= s@.subrange(i as int, j as int));
    assert(mid.take(n - i) =~= mid);
    s.substring_char(i, j)
}

/// The decimal digits at `cs[start..]`: the position of the first
/// character after them.
fn skip_digits(cs: &Vec<char>, start: usize) -> (end: usize)
    requires
        start <= cs.len(),
    ensures
        end == start + lead_digits(cs@.skip(start as int)),
        end <= cs.len(),
{
    let mut i = start;
    while i < cs.len() && '0' <= cs[i] && cs[i] <= '9'
        invariant
            start <= i <= cs.len(),
            lead_digits(cs@.skip(start as int)) == (i - start) + lead_digits(cs@.skip(i as int)),
        decreases cs.len() - i,
    {
        proof {
            lemma_lead_digits_step(cs@, i as int);
        }
        i = i + 1;
    }
    proof {
        if i < cs.len() {
            assert(cs@.skip(i as int)[0] == cs@[i as int]);
        }
        assert(lead_digits(cs@.skip(i as int)) == 0);
    }
    i
}

/// `s` read as `u64::from_str` reads it.
pub fn parse_u64(s: &str) -> (res: Option<u64>)
    ensures
        res == parse_u64_spec(s@),
{
    let cs = chars_of(s);
    let start: usize = if cs.len() > 0 && cs[0] == '+' {
        1
    } else {
        0
    };
    let ghost d = without_plus(s@);
    assert(d =~= s@.skip(start as int));
    if start == cs.len() {
        return None;
    }
    let mut acc: u64 = 0;
    let mut i = start;
    while i < cs.len()
        invariant
            cs@ == s@,
            start <= i <= cs.len(),
            d == without_plus(s@),
            d == cs@.skip(start as int),
            all_digits(d.take(i - start)),
            acc as nat == decimal_value(d.take(i - start)),
        decreases cs.len() - i,
    {
        let c = cs[i];
        let k = i - start;
        assert(d[k as int] == c);
        if !('0' <= c && c <= '9') {
            assert(!all_digits(d)) by {
                assert(!is_digit(d[k as int]));
            }
            return None;
        }
        let dv = (c as u32 - '0' as u32) as u64;
        assert(d.take(k + 1).drop_last() =~= d.take(k as int));
        assert(d.take(k + 1).last() == c);
        if acc > (u64::MAX - dv) / 10 {
            proof {
                assert(acc * 10 + dv > u64::MAX) by (nonlinear_arith)
                    requires
                        acc > (u64::MAX - dv) / 10,
                        dv <= 9,
                ;
                lemma_decimal_value_prefix_grows(d, k + 1);
            }
            return None;
        }
        assert(acc * 10 + dv <= u64::MAX) by (nonlinear_arith)
            requires
                acc <= (u64::MAX - dv) / 10,
                dv <= 9,
        ;
        acc = acc * 10 + dv;
        i = i + 1;
        assert forall|j: int| 0 <= j < (i - start) implies is_digit(#[trigger] d.take(i - start)[j]) by {
            if j < k {
                assert(d.take(i - start)[j] == d.take(k as int)[j]);
            }
        }
    }
    assert(d.take(cs.len() - start) =~= d);
    Some(acc)
}

/// Whether `cs[k..]` is an exponent.
fn exponent_at(cs: &Vec<char>, k: usize) -> (res: bool)
    requires
        k <= cs.len(),
    ensures
        res == is_exponent(cs@.skip(k as int)),
{
    let n = cs.len();
    let ghost e = cs@.skip(k as int);
    if k == n {
        return false;
    }
    assert(e[0] == cs@[k as int]);
    if !(cs[k] == 'e' || cs[k] == 'E') {
        return false;
    }
    let mut j = k + 1;
    assert(e.drop_first() =~= cs@.skip(k + 1));
    if j < n && (cs[j] == '+' || cs[j] == '-') {
        assert(e.drop_first()[0] == cs@[j as int]);
        j = j + 1;
    }
    let ghost u = without_sign(e.drop_first());
    assert(u =~= cs@.skip(j as int));
    if j == n {
        return false;
    }
    let d_end = skip_digits(cs, j);
    d_end == n
}

/// Whether `s` is a decimal number in the grammar of `f64::from_str`.
pub fn is_decimal_float_text(s: &str) -> (res: bool)
    ensures
        res == is_decimal_float(s@),
{
    let cs = chars_of(s);
    let n = cs.len();
    let st: usize = if n > 0 && (cs[0] == '+' || cs[0] == '-') {
        1
    } else {
        0
    };
    let ghost t = without_sign(s@);
    assert(t =~= cs@.skip(st as int));
    let m_end = skip_digits(&cs, st);
    let ghost m = lead_digits(t);
    let ghost r = t.skip(m as int);
    assert(r =~= cs@.skip(m_end as int));
    if m_end < n && cs[m_end] == '.' {
        assert(r[0] == cs@[m_end as int]);
        let f_end = skip_digits(&cs, m_end + 1);
        assert(r.drop_first() =~= cs@.skip(m_end + 1));
        assert(r.drop_first().skip(lead_digits(r.drop_first()) as int) =~= cs@.skip(
            f_end as int,
        ));
        let digits_ok = m_end - st + (f_end - m_end - 1) >= 1;
        let exp_ok = f_end == n || exponent_at(&cs, f_end);
        digits_ok && exp_ok
    } else {
        proof {
            if r.len() > 0 {
                assert(r[0] == cs@[m_end as int]);
            }
        }
        let digits_ok = m_end > st;
        let exp_ok = m_end == n || exponent_at(&cs, m_end);
        digits_ok && exp_ok
    }
}

/// Whether the strings `a` and `b` hold the same characters.
pub fn str_eq(a: &str, b: &str) -> (res: bool)
    ensures
        res == (a@ == b@),
{
    let ca = chars_of(a);
    let cb = chars_of(b);
    if ca.len() != cb.len() {
        return false;
    }
    let mut i: usize = 0;
    while i < ca.len()
        invariant
            ca@ == a@,
            cb@ == b@,
            ca.len() == cb.len(),
            i <= ca.len(),
            forall|j: int| 0 <= j < i ==> ca@[j] == cb@[j],
        decreases ca.len() - i,
    {
        if ca[i] != cb[i] {
            return false;
        }
        i = i + 1;
    }
    assert(ca@ =~= cb@);
    true
}

/// Whether `s` begins with the character `c`.
pub fn starts_with_char(s: &str, c: char) -> (res: bool)
    ensures
        res == (s@.len() > 0 && s@[0] == c),
{
    let n = s.unicode_len();
    n > 0 && s.get_char(0) == c
}

/// `a` followed by `b`.
pub fn concat(a: &str, b: &str) -> (res: String)
    ensures
        res@ == a@ + b@,
{
    let mut r = a.to_owned();
    r.append(b);
    r
}

/// `a`, `b` and `c`, one after the other.
pub fn concat3(a: &str, b: &str, c: &str) -> (res: String)
    ensures
        res@ == a@ + b@ + c@,
{
    let mut r = a.to_owned();
    r.append(b);
    r.append(c);
    r
}

} // verus!
