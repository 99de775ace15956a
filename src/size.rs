use vstd::prelude::*;

verus! {

/// The Unicode `White_Space` characters, which `str::trim` removes.
pub open spec fn white_space(c: char) -> bool {
    ('\u{9}' <= c && c <= '\u{d}') || c == ' ' || c == '\u{85}' || c == '\u{a0}' || c == '\u{1680}'
        || ('\u{2000}' <= c && c <= '\u{200a}') || c == '\u{2028}' || c == '\u{2029}' || c == '\u{202f}'
        || c == '\u{205f}' || c == '\u{3000}'
}

/// Whether `c` is a Unicode `White_Space` character.
fn is_white(c: char) -> (r: bool)
    ensures
        r == white_space(c),
{
    ('\u{9}' <= c && c <= '\u{d}') || c == ' ' || c == '\u{85}' || c == '\u{a0}' || c == '\u{1680}'
        || ('\u{2000}' <= c && c <= '\u{200a}') || c == '\u{2028}' || c == '\u{2029}' || c == '\u{202f}'
        || c == '\u{205f}' || c == '\u{3000}'
}

/// `s` without leading and trailing white space, as `str::trim` leaves it.
pub open spec fn trim_white(s: Seq<char>) -> Seq<char>
    decreases s.len(),
{
    if s.len() > 0 && white_space(s[0]) {
        trim_white(s.drop_first())
    } else if s.len() > 0 && white_space(s.last()) {
        trim_white(s.drop_last())
    } else {
        s
    }
}

pub open spec fn is_digit(c: char) -> bool {
    '0' <= c && c <= '9'
}

pub open spec fn all_digits(d: Seq<char>) -> bool {
    forall|i: int| 0 <= i < d.len() ==> is_digit(#[trigger] d[i])
}

/// `s` without one leading `+`.
pub open spec fn unsigned_part(s: Seq<char>) -> Seq<char> {
    if s.len() > 0 && s[0] == '+' { s.drop_first() } else { s }
}

/// The number that a string of decimal digits writes.
pub open spec fn digits_value(s: Seq<char>) -> int
    decreases s.len(),
{
    if s.len() == 0 {
        0
    } else {
        digits_value(s.drop_last()) * 10 + (s.last() as int - '0' as int)
    }
}

/// What `u64`'s `from_str` gives for `s`: an optional `+` and at least one
/// decimal digit, whose value fits in 64 bits.
pub open spec fn parse_u64(s: Seq<char>) -> Option<u64> {
    let d = unsigned_part(s);
    if d.len() > 0 && all_digits(d) && digits_value(d) <= u64::MAX {
        Some(digits_value(d) as u64)
    } else {
        None
    }
}

/// The first position at or after `i` where `..` begins.
pub open spec fn find_dots(s: Seq<char>, i: int) -> Option<int>
    decreases s.len() - i,
{
    if i < 0 || i + 1 >= s.len() {
        None
    } else if s[i] == '.' && s[i + 1] == '.' {
        Some(i)
    } else {
        find_dots(s, i + 1)
    }
}

pub open spec fn bound_of(s: Seq<char>) -> Option<u64> {
    if s.len() == 0 { None } else { parse_u64(s) }
}

/// The bounds `(min, max)` that a size range such as `"10..20"`, `"..20"`,
/// `"10.."` or a bare `"10"` (meaning `"10.."`) sets, once trimmed; a bound
/// that is not a number is absent.
pub open spec fn range_bounds(s: Seq<char>) -> (Option<u64>, Option<u64>) {
    if s.len() == 0 {
        (None, None)
    } else {
        match find_dots(s, 0) {
            Some(i) => (bound_of(s.take(i)), bound_of(s.skip(i + 2))),
            None => match parse_u64(s) {
                Some(n) => (Some(n), None),
                None => (None, None),
            },
        }
    }
}

/// The bounds that an optional size range sets, surrounding white space
/// ignored.
pub open spec fn size_bounds(input: Option<Seq<char>>) -> (Option<u64>, Option<u64>) {
    match input {
        None => (None, None),
        Some(raw) => range_bounds(trim_white(raw)),
    }
}

proof fn lemma_digits_grow(s: Seq<char>)
    requires
        s.len() > 0,
        is_digit(s.last()),
        digits_value(s.drop_last()) >= 0,
    ensures
        digits_value(s) >= digits_value(s.drop_last()),
        digits_value(s) >= 0,
{
    let v = digits_value(s.drop_last());
    assert(v * 10 >= v) by (nonlinear_arith)
        requires v >= 0;
}

/// `s` read as a `u64`, as `parse_u64` describes it.
pub(crate) fn parse_number(s: &str) -> (r: Option<u64>)
    ensures
        r == parse_u64(s@),
{
    let n = s.unicode_len();
    let start: usize = if n > 0 && s.get_char(0) == '+' { 1 } else { 0 };
    let ghost d = unsigned_part(s@);
    assert(d =~= s@.skip(start as int));
    if start == n {
        return None;
    }
    let mut acc: u64 = 0;
    let mut i: usize = start;
    assert(d.take(0) =~= Seq::<char>::empty());
    while i < n
        invariant
            n == s@.len(),
            start <= i <= n,
            d == s@.skip(start as int),
            d == unsigned_part(s@),
            forall|j: int| 0 <= j < i - start ==> is_digit(#[trigger] d[j]),
            acc == digits_value(d.take(i - start)),
        decreases n - i,
    {
        let c = s.get_char(i);
        assert(d[i - start] == c);
        if !('0' <= c && c <= '9') {
            assert(!is_digit(d[i - start]));
            assert(!all_digits(d));
            return None;
        }
        let ghost t = d.take(i - start + 1);
        assert(t.drop_last() =~= d.take(i - start));
        proof {
            lemma_digits_nonneg(d.take(i - start));
            lemma_digits_grow(t);
        }
        let dig = (c as u32 - '0' as u32) as u64;
        if acc > (u64::MAX - dig) / 10 {
            proof {
                let m = u64::MAX as int;
                let a = acc as int;
                let g = dig as int;
                assert(a * 10 + g > m) by (nonlinear_arith)
                    requires a > (m - g) / 10, 0 <= g <= 9, m > 9;
                assert(digits_value(t) == a * 10 + g);
                lemma_digits_too_big(d, (i - start + 1) as int);
            }

            return None;
        }
        acc = acc * 10 + dig;
        i = i + 1;
    }
    assert(d.take(n - start) =~= d);
    Some(acc)
}

proof fn lemma_digits_nonneg(s: Seq<char>)
    requires
        forall|j: int| 0 <= j < s.len() ==> is_digit(#[trigger] s[j]),
    ensures
        digits_value(s) >= 0,
    decreases s.len(),
{
    if s.len() > 0 {
        let p = s.drop_last();
        assert forall|j: int| 0 <= j < p.len() implies is_digit(#[trigger] p[j]) by {
            assert(p[j] == s[j]);
        }
        lemma_digits_nonneg(p);
    }
}

/// Once a prefix of digits is beyond 64 bits, so is any longer prefix.
proof fn lemma_digits_too_big(d: Seq<char>, k: int)
    requires
        0 < k <= d.len(),
        digits_value(d.take(k)) > u64::MAX,
        forall|j: int| 0 <= j < k ==> is_digit(#[trigger] d[j]),
    ensures
        !(d.len() > 0 && all_digits(d) && digits_value(d) <= u64::MAX),
    decreases d.len() - k,
{
    if k < d.len() && all_digits(d) {
        let t = d.take(k + 1);
        assert(t.drop_last() =~= d.take(k));
        lemma_digits_grow(t);
        lemma_digits_too_big(d, k + 1);
    } else if k == d.len() {
        assert(d.take(k) =~= d);
    }
}


/// `s` without leading and trailing white space.
fn trim_str(s: &str) -> (r: &str)
    ensures
        r@ == trim_white(s@),
{
    let n = s.unicode_len();
    let mut i: usize = 0;
    assert(s@.subrange(0, n as int) =~= s@);
    while i < n && is_white(s.get_char(i))
        invariant
            n == s@.len(),
            i <= n,
            trim_white(s@) == trim_white(s@.subrange(i as int, n as int)),
        decreases n - i,
    {
        assert(s@.subrange(i as int, n as int).drop_first() =~= s@.subrange(i + 1, n as int));
        i = i + 1;
    }
    let mut j: usize = n;
    while j > i && is_white(s.get_char(j - 1))
        invariant
            n == s@.len(),
            i <= j <= n,
            i < j ==> !white_space(s@[i as int]),
            trim_white(s@) == trim_white(s@.subrange(i as int, j as int)),
        decreases j,
    {
        let ghost sub = s@.subrange(i as int, j as int);
        assert(sub[0] == s@[i as int]);
        assert(sub.last() == s@[j - 1]);
        assert(sub.drop_last() =~= s@.subrange(i as int, j - 1));
        j = j - 1;
    }
    proof {
        let sub = s@.subrange(i as int, j as int);
        if i < j {
            assert(sub[0] == s@[i as int]);
            assert(sub.last() == s@[j - 1]);
        }
    }
    s.substring_char(i, j)
}

proof fn lemma_find_dots_bound(s: Seq<char>, i: int)
    ensures
        find_dots(s, i) matches Some(k) ==> i <= k && k + 1 < s.len(),
    decreases s.len() - i,
{
    if !(i < 0 || i + 1 >= s.len()) && !(s[i] == '.' && s[i + 1] == '.') {
        lemma_find_dots_bound(s, i + 1);
    }
}

/// The first position where `..` begins.
fn find_range_dots(s: &str) -> (r: Option<usize>)
    ensures
        match r {
            Some(i) => find_dots(s@, 0) == Some(i as int),
            None => find_dots(s@, 0) is None,
        },
{
    let n = s.unicode_len();
    let mut i: usize = 0;
    while i < n
        invariant
            n == s@.len(),
            i <= n,
            find_dots(s@, 0) == find_dots(s@, i as int),
        decreases n - i,
    {
        if i + 1 < n && s.get_char(i) == '.' && s.get_char(i + 1) == '.' {
            return Some(i);
        }
        i = i + 1;
    }
    None
}

fn parse_bound(s: &str) -> (r: Option<u64>)
    ensures
        r == bound_of(s@),
{
    if s.unicode_len() == 0 {
        None
    } else {
        parse_number(s)
    }
}

/// The bounds `(min, max)` in bytes of a size range without surrounding
/// white space; see `range_bounds`.
pub fn parse_trimmed_size(s: &str) -> (r: (Option<u64>, Option<u64>))
    ensures
        r == range_bounds(s@),
{
    let n = s.unicode_len();
    if n == 0 {
        return (None, None);
    }
    match find_range_dots(s) {
        Some(i) => {
            proof {
                lemma_find_dots_bound(s@, 0);
            }
            let a = s.substring_char(0, i);
            let b = s.substring_char(i + 2, n);
            assert(a@ =~= s@.take(i as int));
            assert(b@ =~= s@.skip(i + 2));
            (parse_bound(a), parse_bound(b))
        },
        None => match parse_number(s) {
            Some(v) => (Some(v), None),
            None => (None, None),
        },
    }
}

/// The bounds `(min, max)` in bytes that an optional size range sets; see
/// `size_bounds`.
pub fn parse_size_filter(input: Option<&str>) -> (r: (Option<u64>, Option<u64>))
    ensures
        r == size_bounds(match input {
            Some(s) => Some(s@),
            None => None,
        }),
{
    match input {
        None => (None, None),
        Some(raw) => parse_trimmed_size(trim_str(raw)),
    }
}

} // verus!
