//! Character-level helpers shared by the protocol code: Unicode whitespace,
//! trimming, ASCII case-insensitive matching and decimal numbers.

use vstd::prelude::*;
use vstd::string::*;

verus! {

/// The characters that `char::is_whitespace` accepts (Unicode White_Space).
pub open spec fn is_space(c: char) -> bool {
    ||| c == '\t' || c == '\n' || c == '\u{0B}' || c == '\u{0C}' || c == '\r' || c == ' '
    ||| c == '\u{85}' || c == '\u{A0}' || c == '\u{1680}'
    ||| ('\u{2000}' as u32 <= c as u32 && c as u32 <= '\u{200A}' as u32)
    ||| c == '\u{2028}' || c == '\u{2029}' || c == '\u{202F}' || c == '\u{205F}'
    ||| c == '\u{3000}'
}

pub fn is_space_char(c: char) -> (r: bool)
    ensures
        r == is_space(c),
{
    let u = c as u32;
    c == '\t' || c == '\n' || c == '\u{0B}' || c == '\u{0C}' || c == '\r' || c == ' ' || c
        == '\u{85}' || c == '\u{A0}' || c == '\u{1680}' || (0x2000u32 <= u && u <= 0x200Au32) || c
        == '\u{2028}' || c == '\u{2029}' || c == '\u{202F}' || c == '\u{205F}' || c == '\u{3000}'
}

/// `s` without its leading whitespace.
pub open spec fn trim_start(s: Seq<char>) -> Seq<char>
    decreases s.len(),
{
    if s.len() > 0 && is_space(s[0]) {
        trim_start(s.drop_first())
    } else {
        s
    }
}

/// `s` without its trailing whitespace.
pub open spec fn trim_end(s: Seq<char>) -> Seq<char>
    decreases s.len(),
{
    if s.len() > 0 && is_space(s.last()) {
        trim_end(s.drop_last())
    } else {
        s
    }
}

/// `s` without whitespace at either end, as `str::trim` gives it.
pub open spec fn trim(s: Seq<char>) -> Seq<char> {
    trim_end(trim_start(s))
}

proof fn lemma_trim_start_skip(s: Seq<char>, i: int)
    requires
        0 <= i <= s.len(),
        forall|k: int| 0 <= k < i ==> is_space(#[trigger] s[k]),
    ensures
        trim_start(s) == trim_start(s.skip(i)),
    decreases i,
{
    if i > 0 {
        assert(s.drop_first().skip(i - 1) =~= s.skip(i));
        lemma_trim_start_skip(s.drop_first(), i - 1);
    } else {
        assert(s.skip(0) =~= s);
    }
}

proof fn lemma_trim_end_take(s: Seq<char>, j: int)
    requires
        0 <= j <= s.len(),
        forall|k: int| j <= k < s.len() ==> is_space(#[trigger] s[k]),
    ensures
        trim_end(s) == trim_end(s.take(j)),
    decreases s.len() - j,
{
    if j < s.len() {
        assert(s.drop_last().take(j) =~= s.take(j));
        lemma_trim_end_take(s.drop_last(), j);
    } else {
        assert(s.take(j) =~= s);
    }
}

/// A copy of `s` without whitespace at either end.
pub fn trimmed(s: &str) -> (r: String)
    ensures
        r@ == trim(s@),
{
    let n = s.unicode_len();
    let mut i: usize = 0;
    while i < n && is_space_char(s.get_char(i))
        invariant
            n == s@.len(),
            0 <= i <= n,
            forall|k: int| 0 <= k < i ==> is_space(#[trigger] s@[k]),
        decreases n - i,
    {
        i = i + 1;
    }
    proof {
        lemma_trim_start_skip(s@, i as int);
    }
    let ghost t = s@.skip(i as int);
    assert(i == n || !is_space(t[0]));
    assert(trim_start(t) == t);
    let mut j: usize = n;
    while j > i && is_space_char(s.get_char(j - 1))
        invariant
            n == s@.len(),
            i <= j <= n,
            forall|k: int| j <= k < n ==> is_space(#[trigger] s@[k]),
        decreases j,
    {
        j = j - 1;
    }
    proof {
        let tj = (j - i) as int;
        assert forall|k: int| tj <= k < t.len() implies is_space(#[trigger] t[k]) by {
            assert(t[k] == s@[k + i]);
        }
        lemma_trim_end_take(t, tj);
        assert(t.take(tj) =~= s@.subrange(i as int, j as int));
    }
    s.substring_char(i, j).to_owned()
}

/// Whether `c` and `p` are equal when ASCII letters are compared without case.
pub open spec fn ascii_ci_eq(c: char, p: char) -> bool {
    ||| c == p
    ||| ('A' <= p <= 'Z' && c as u32 == p as u32 + 32)
    ||| ('a' <= p <= 'z' && c as u32 + 32 == p as u32)
}

pub fn ascii_ci_eq_char(c: char, p: char) -> (r: bool)
    ensures
        r == ascii_ci_eq(c, p),
{
    c == p || ('A' <= p && p <= 'Z' && c as u32 == p as u32 + 32) || ('a' <= p && p <= 'z'
        && c as u32 + 32 == p as u32)
}

/// Whether `s` begins with `p`, ASCII letters compared without case.
pub open spec fn ci_starts_with(s: Seq<char>, p: Seq<char>) -> bool {
    p.len() <= s.len() && forall|k: int| 0 <= k < p.len() ==> ascii_ci_eq(#[trigger] s[k], p[k])
}

pub fn starts_with_ci(s: &str, p: &str) -> (r: bool)
    ensures
        r == ci_starts_with(s@, p@),
{
    let n = s.unicode_len();
    let m = p.unicode_len();
    if m > n {
        return false;
    }
    let mut k: usize = 0;
    while k < m
        invariant
            n == s@.len(),
            m == p@.len(),
            m <= n,
            k <= m,
            forall|q: int| 0 <= q < k ==> ascii_ci_eq(#[trigger] s@[q], p@[q]),
        decreases m - k,
    {
        if !ascii_ci_eq_char(s.get_char(k), p.get_char(k)) {
            return false;
        }
        k = k + 1;
    }
    true
}

/// Whether `s` begins with `p`.
pub open spec fn has_prefix(s: Seq<char>, p: Seq<char>) -> bool {
    p.len() <= s.len() && s.take(p.len() as int) == p
}

pub fn starts_with(s: &str, p: &str) -> (r: bool)
    ensures
        r == has_prefix(s@, p@),
{
    let n = s.unicode_len();
    let m = p.unicode_len();
    if m > n {
        return false;
    }
    let mut k: usize = 0;
    while k < m
        invariant
            n == s@.len(),
            m == p@.len(),
            m <= n,
            k <= m,
            forall|q: int| 0 <= q < k ==> s@[q] == p@[q],
        decreases m - k,
    {
        if s.get_char(k) != p.get_char(k) {
            assert(s@.take(m as int)[k as int] != p@[k as int]);
            return false;
        }
        k = k + 1;
    }
    assert(s@.take(m as int) =~= p@);
    true
}

/// Whether `s` and `t` hold the same characters.
pub fn same_text(s: &str, t: &str) -> (r: bool)
    ensures
        r == (s@ == t@),
{
    let n = s.unicode_len();
    if n != t.unicode_len() {
        return false;
    }
    let mut k: usize = 0;
    while k < n
        invariant
            n == s@.len(),
            n == t@.len(),
            k <= n,
            forall|q: int| 0 <= q < k ==> s@[q] == t@[q],
        decreases n - k,
    {
        if s.get_char(k) != t.get_char(k) {
            return false;
        }
        k = k + 1;
    }
    assert(s@ =~= t@);
    true
}

pub open spec fn is_digit(c: char) -> bool {
    '0' <= c <= '9'
}

pub open spec fn digit_value(c: char) -> nat {
    (c as u32 - '0' as u32) as nat
}

pub open spec fn all_digits(d: Seq<char>) -> bool {
    forall|k: int| 0 <= k < d.len() ==> is_digit(#[trigger] d[k])
}

/// The value of a string of decimal digits, most significant first.
pub open spec fn digits_value(d: Seq<char>) -> nat
    decreases d.len(),
{
    if d.len() == 0 {
        0
    } else {
        digits_value(d.drop_last()) * 10 + digit_value(d.last())
    }
}

/// An unsigned decimal number as `str::parse` reads it: an optional `+`,
/// then at least one digit.
pub open spec fn is_number(d: Seq<char>) -> bool {
    ||| (d.len() > 0 && all_digits(d))
    ||| (d.len() > 1 && d[0] == '+' && all_digits(d.drop_first()))
}

/// The value of a string that `is_number` accepts.
pub open spec fn number_value(d: Seq<char>) -> nat {
    if d.len() > 0 && d[0] == '+' {
        digits_value(d.drop_first())
    } else {
        digits_value(d)
    }
}

pub fn is_number_str(d: &str) -> (r: bool)
    ensures
        r == is_number(d@),
{
    let n = d.unicode_len();
    if n == 0 {
        return false;
    }
    let c0 = d.get_char(0);
    let start: usize = if c0 == '+' { 1 } else { 0 };
    if start >= n {
        return false;
    }
    let mut k: usize = start;
    while k < n
        invariant
            n == d@.len(),
            start <= k <= n,
            start == 1 <==> d@[0] == '+',
            start <= 1,
            forall|q: int| start <= q < k ==> is_digit(#[trigger] d@[q]),
        decreases n - k,
    {
        let c = d.get_char(k);
        if !('0' <= c && c <= '9') {
            proof {
                assert(d@[k as int] == c);
                assert(!is_digit(d@[k as int]));
                assert(!all_digits(d@));
                if start == 1 {
                    assert(d@[0] == '+');
                    assert(d@.drop_first()[k - 1] == c);
                    assert(!is_digit(d@.drop_first()[k - 1]));
                } else {
                    assert(d@[0] != '+');
                }
            }
            return false;
        }
        k = k + 1;
    }
    proof {
        if start == 1 {
            assert forall|q: int| 0 <= q < d@.drop_first().len() implies is_digit(
                #[trigger] d@.drop_first()[q],
            ) by {
                assert(d@.drop_first()[q] == d@[q + 1]);
            }
        }
    }
    true
}

proof fn lemma_digits_value_step(d: Seq<char>, k: int)
    requires
        0 <= k < d.len(),
    ensures
        digits_value(d.take(k + 1)) == digits_value(d.take(k)) * 10 + digit_value(d[k]),
{
    assert(d.take(k + 1).drop_last() =~= d.take(k));
}

/// The value of the number `d`, or `cap` where the value reaches `cap`.
pub fn number_capped(d: &str, cap: u64) -> (r: u64)
    requires
        is_number(d@),
    ensures
        r as nat == if number_value(d@) < cap {
            number_value(d@)
        } else {
            cap as nat
        },
{
    let n = d.unicode_len();
    let start: usize = if d.get_char(0) == '+' { 1 } else { 0 };
    let ghost ds = if start == 1 {
        d@.drop_first()
    } else {
        d@
    };
    assert(all_digits(ds));
    assert(number_value(d@) == digits_value(ds));
    let mut v: u64 = 0;
    let mut k: usize = start;
    assert(ds.take(0) =~= Seq::<char>::empty());
    while k < n
        invariant
            n == d@.len(),
            start <= k <= n,
            ds.len() == n - start,
            forall|q: int| 0 <= q < ds.len() ==> ds[q] == d@[q + start],
            all_digits(ds),
            v as nat == if digits_value(ds.take(k - start)) < cap {
                digits_value(ds.take(k - start))
            } else {
                cap as nat
            },
        decreases n - k,
    {
        let c = d.get_char(k);
        let ghost i = k - start;
        assert(ds[i] == c);
        proof {
            lemma_digits_value_step(ds, i);
        }
        if v < cap {
            let w: u128 = (v as u128) * 10 + ((c as u32 - '0' as u32) as u128);
            if w >= cap as u128 {
                v = cap;
            } else {
                v = w as u64;
            }
        }
        k = k + 1;
    }
    assert(ds.take(n - start) =~= ds);
    v
}

/// The decimal digits of `n`, most significant first, without leading zeros.
pub open spec fn decimal(n: nat) -> Seq<char>
    decreases n,
{
    if n < 10 {
        seq![digit_char(n)]
    } else {
        decimal(n / 10).push(digit_char(n % 10))
    }
}

pub open spec fn digit_char(d: nat) -> char {
    if d == 0 {
        '0'
    } else if d == 1 {
        '1'
    } else if d == 2 {
        '2'
    } else if d == 3 {
        '3'
    } else if d == 4 {
        '4'
    } else if d == 5 {
        '5'
    } else if d == 6 {
        '6'
    } else if d == 7 {
        '7'
    } else if d == 8 {
        '8'
    } else {
        '9'
    }
}

fn digit_text(d: u64) -> (r: &'static str)
    requires
        d < 10,
    ensures
        r@ == seq![digit_char(d as nat)],
{
    let all = "0123456789";
    proof {
        reveal_strlit("0123456789");
    }
    let r = all.substring_char(d as usize, d as usize + 1);
    assert(r@ =~= seq![digit_char(d as nat)]);
    r
}

/// `n` written in decimal.
pub fn decimal_string(n: u64) -> (r: String)
    ensures
        r@ == decimal(n as nat),
    decreases n,
{
    if n < 10 {
        digit_text(n).to_owned()
    } else {
        let mut s = decimal_string(n / 10);
        s.append(digit_text(n % 10));
        s
    }
}

/// The whitespace-separated words of `s`, as `str::split_whitespace` yields
/// them; `cur` is a word already begun.
pub open spec fn words_from(s: Seq<char>, cur: Seq<char>) -> Seq<Seq<char>>
    decreases s.len(),
{
    if s.len() == 0 {
        if cur.len() == 0 {
            seq![]
        } else {
            seq![cur]
        }
    } else if is_space(s[0]) {
        if cur.len() == 0 {
            words_from(s.drop_first(), cur)
        } else {
            seq![cur] + words_from(s.drop_first(), seq![])
        }
    } else {
        words_from(s.drop_first(), cur.push(s[0]))
    }
}

/// The whitespace-separated words of `s`.
pub open spec fn words(s: Seq<char>) -> Seq<Seq<char>> {
    words_from(s, seq![])
}

pub open spec fn views(v: Seq<String>) -> Seq<Seq<char>> {
    v.map_values(|t: String| t@)
}

/// The whitespace-separated words of `s`, in order.
pub fn split_words(s: &str) -> (r: Vec<String>)
    ensures
        views(r@) == words(s@),
{
    let n = s.unicode_len();
    let mut out: Vec<String> = Vec::new();
    let mut start: usize = 0;
    let mut k: usize = 0;
    assert(s@.skip(0) =~= s@);
    assert(s@.subrange(0, 0) =~= Seq::<char>::empty());
    while k < n
        invariant
            n == s@.len(),
            start <= k <= n,
            words(s@) == views(out@) + words_from(s@.skip(k as int), s@.subrange(
                start as int,
                k as int,
            )),
        decreases n - k,
    {
        let c = s.get_char(k);
        let ghost cur = s@.subrange(start as int, k as int);
        let ghost rest = s@.skip(k as int);
        assert(rest.drop_first() =~= s@.skip(k + 1));
        assert(rest[0] == c);
        let ghost tail = words_from(rest.drop_first(), seq![]);
        if is_space_char(c) {
            if start < k {
                let ghost prev = out@;
                out.push(s.substring_char(start, k).to_owned());
                assert(views(out@) =~= views(prev).push(cur));
                assert(words_from(rest, cur) == seq![cur] + tail);
                assert(views(prev) + (seq![cur] + tail) =~= views(prev).push(cur) + tail);
            } else {
                assert(cur =~= Seq::<char>::empty());
            }
            start = k + 1;
            assert(s@.subrange(start as int, k + 1) =~= Seq::<char>::empty());
        } else {
            assert(cur.push(c) =~= s@.subrange(start as int, k + 1));
        }
        k = k + 1;
    }
    assert(s@.skip(n as int).len() == 0);
    if start < n {
        let ghost prev = out@;
        out.push(s.substring_char(start, n).to_owned());
        assert(views(out@) =~= views(prev).push(s@.subrange(start as int, n as int)));
    }
    assert(views(out@) =~= words(s@));
    out
}

} // verus!
