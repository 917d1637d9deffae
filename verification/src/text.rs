//! Character-level helpers: the views of script text are `Seq<char>`.
use vstd::prelude::*;

verus! {

/// The characters that `char::is_whitespace` accepts (Unicode `White_Space`).
pub open spec fn is_ws(c: char) -> bool {
    ||| ('\u{9}' <= c && c <= '\u{d}')
    ||| c == ' '
    ||| c == '\u{85}'
    ||| c == '\u{a0}'
    ||| c == '\u{1680}'
    ||| ('\u{2000}' <= c && c <= '\u{200a}')
    ||| c == '\u{2028}'
    ||| c == '\u{2029}'
    ||| c == '\u{202f}'
    ||| c == '\u{205f}'
    ||| c == '\u{3000}'
}

pub fn is_whitespace(c: char) -> (r: bool)
    ensures
        r == is_ws(c),
{
    ('\u{9}' <= c && c <= '\u{d}') || c == ' ' || c == '\u{85}' || c == '\u{a0}' || c == '\u{1680}'
        || ('\u{2000}' <= c && c <= '\u{200a}') || c == '\u{2028}' || c == '\u{2029}' || c
        == '\u{202f}' || c == '\u{205f}' || c == '\u{3000}'
}

/// Appends one character to a `String` (std's `String::push`); the contract
/// states that the text grows by exactly that character.
#[verifier::external_body]
pub(crate) fn push_char(s: &mut String, c: char)
    ensures
        final(s)@ == old(s)@.push(c),
{
    s.push(c)
}

/// Whether a character is uppercase, as std's `char::is_uppercase` decides it
/// (the Unicode `Uppercase` property).
pub uninterp spec fn is_upper(c: char) -> bool;

/// std's `char::is_uppercase`; the contract names the result and states the
/// ASCII part of it, which std documents: among ASCII characters exactly
/// `'A'..='Z'` are uppercase.
#[verifier::external_body]
pub(crate) fn char_is_uppercase(c: char) -> (r: bool)
    ensures
        r == is_upper(c),
        (c as u32) < 128 ==> (r <==> ('A' <= c && c <= 'Z')),
{
    c.is_uppercase()
}

/// The characters of a `&str`, in order.
pub fn chars_of(s: &str) -> (r: Vec<char>)
    ensures
        r@ == s@,
{
    let n = s.unicode_len();
    let mut out: Vec<char> = Vec::new();
    let mut i: usize = 0;
    while i < n
        invariant
            n == s@.len(),
            i <= n,
            out@ == s@.take(i as int),
        decreases n - i,
    {
        let c = s.get_char(i);
        out.push(c);
        proof {
            assert(s@.take(i + 1) =~= s@.take(i as int).push(c));
        }
        i += 1;
    }
    assert(s@.take(n as int) =~= s@);
    out
}

/// A `String` holding exactly the given characters.
pub fn string_of(v: &[char]) -> (r: String)
    ensures
        r@ == v@,
{
    let mut out = String::new();
    let mut i: usize = 0;
    while i < v.len()
        invariant
            i <= v@.len(),
            out@ == v@.take(i as int),
        decreases v@.len() - i,
    {
        push_char(&mut out, v[i]);
        proof {
            assert(v@.take(i + 1) =~= v@.take(i as int).push(v@[i as int]));
        }
        i += 1;
    }
    assert(v@.take(v@.len() as int) =~= v@);
    out
}

/// The characters of a `String`.
pub fn chars_of_string(s: &String) -> (r: Vec<char>)
    ensures
        r@ == s@,
{
    chars_of(s.as_str())
}

/// Whether two character sequences are equal.
pub fn chars_eq(a: &[char], b: &[char]) -> (r: bool)
    ensures
        r == (a@ == b@),
{
    if a.len() != b.len() {
        return false;
    }
    let mut i: usize = 0;
    while i < a.len()
        invariant
            a@.len() == b@.len(),
            i <= a@.len(),
            forall|j: int| 0 <= j < i ==> a@[j] == b@[j],
        decreases a@.len() - i,
    {
        if a[i] != b[i] {
            return false;
        }
        i += 1;
    }
    assert(a@ =~= b@);
    true
}

/// Whether a character sequence spells the given literal.
pub fn eq_lit(a: &[char], lit: &str) -> (r: bool)
    ensures
        r == (a@ == lit@),
{
    let l = chars_of(lit);
    chars_eq(a, l.as_slice())
}

/// Whether two strings hold the same text.
pub fn string_eq(a: &String, b: &String) -> (r: bool)
    ensures
        r == (a@ == b@),
{
    let x = chars_of_string(a);
    let y = chars_of_string(b);
    chars_eq(x.as_slice(), y.as_slice())
}

pub open spec fn has_prefix(s: Seq<char>, p: Seq<char>) -> bool {
    p.len() <= s.len() && s.subrange(0, p.len() as int) == p
}

pub open spec fn has_suffix(s: Seq<char>, p: Seq<char>) -> bool {
    p.len() <= s.len() && s.subrange(s.len() - p.len(), s.len() as int) == p
}

/// Whether `a` starts with `p`.
pub fn starts_with(a: &[char], p: &[char]) -> (r: bool)
    ensures
        r == has_prefix(a@, p@),
{
    if p.len() > a.len() {
        return false;
    }
    let mut i: usize = 0;
    while i < p.len()
        invariant
            p@.len() <= a@.len(),
            i <= p@.len(),
            forall|j: int| 0 <= j < i ==> a@[j] == p@[j],
        decreases p@.len() - i,
    {
        if a[i] != p[i] {
            assert(a@.subrange(0, p@.len() as int)[i as int] != p@[i as int]);
            return false;
        }
        i += 1;
    }
    assert(a@.subrange(0, p@.len() as int) =~= p@);
    true
}

/// Whether `a` starts with the literal `lit`.
pub fn starts_with_lit(a: &[char], lit: &str) -> (r: bool)
    ensures
        r == has_prefix(a@, lit@),
{
    let l = chars_of(lit);
    starts_with(a, l.as_slice())
}

/// A copy of the characters `from..to` of `a`.
pub fn copy_range(a: &[char], from: usize, to: usize) -> (r: Vec<char>)
    requires
        from <= to <= a@.len(),
    ensures
        r@ == a@.subrange(from as int, to as int),
{
    let mut out: Vec<char> = Vec::new();
    let mut i: usize = from;
    while i < to
        invariant
            from <= i <= to,
            to <= a@.len(),
            out@ == a@.subrange(from as int, i as int),
        decreases to - i,
    {
        out.push(a[i]);
        proof {
            assert(a@.subrange(from as int, i + 1) =~= a@.subrange(from as int, i as int).push(
                a@[i as int],
            ));
        }
        i += 1;
    }
    out
}

/// The first index at or after `i` that holds `c`.
pub open spec fn find_from(s: Seq<char>, c: char, i: int) -> Option<int>
    decreases s.len() - i,
{
    if i < 0 || i >= s.len() {
        None
    } else if s[i] == c {
        Some(i)
    } else {
        find_from(s, c, i + 1)
    }
}

pub proof fn lemma_find_from(s: Seq<char>, c: char, i: int)
    requires
        0 <= i,
    ensures
        find_from(s, c, i) matches Some(k) ==> i <= k < s.len() && s[k] == c && forall|j: int|
            i <= j < k ==> s[j] != c,
        find_from(s, c, i) is None ==> forall|j: int| i <= j < s.len() ==> s[j] != c,
    decreases s.len() - i,
{
    if i < s.len() && s[i] != c {
        lemma_find_from(s, c, i + 1);
    }
}

/// The first index of `c` in `a`, if any.
pub fn find_char(a: &[char], c: char) -> (r: Option<usize>)
    ensures
        r matches Some(k) ==> find_from(a@, c, 0) == Some(k as int),
        r is None ==> find_from(a@, c, 0) is None,
{
    let mut i: usize = 0;
    while i < a.len()
        invariant
            i <= a@.len(),
            find_from(a@, c, 0) == find_from(a@, c, i as int),
        decreases a@.len() - i,
    {
        if a[i] == c {
            return Some(i);
        }
        i += 1;
    }
    None
}

/// The first index `k` at or after `i` with `s[k] == a` and `s[k + 1] == b`.
pub open spec fn find_pair_from(s: Seq<char>, a: char, b: char, i: int) -> Option<int>
    decreases s.len() - i,
{
    if i < 0 || i + 1 >= s.len() {
        None
    } else if s[i] == a && s[i + 1] == b {
        Some(i)
    } else {
        find_pair_from(s, a, b, i + 1)
    }
}

/// The first place where `a` is directly followed by `b`.
pub fn find_pair(s: &[char], a: char, b: char) -> (r: Option<usize>)
    ensures
        r matches Some(k) ==> find_pair_from(s@, a, b, 0) == Some(k as int) && k + 1 < s@.len(),
        r is None ==> find_pair_from(s@, a, b, 0) is None,
{
    let mut i: usize = 0;
    while s.len() > 1 && i < s.len() - 1
        invariant
            find_pair_from(s@, a, b, 0) == find_pair_from(s@, a, b, i as int),
        decreases s@.len() - i,
    {
        if s[i] == a && s[i + 1] == b {
            return Some(i);
        }
        i += 1;
    }
    None
}

/// Whether `c` occurs in `s`.
pub fn contains_char(s: &[char], c: char) -> (r: bool)
    ensures
        r == s@.contains(c),
{
    let f = find_char(s, c);
    proof {
        lemma_find_from(s@, c, 0);
        if f is Some {
            assert(s@[f->0 as int] == c);
        }
    }
    f.is_some()
}

/// The length of the leading run of whitespace of `s`.
pub open spec fn lead_ws(s: Seq<char>) -> int
    decreases s.len(),
{
    if s.len() > 0 && is_ws(s[0]) {
        1 + lead_ws(s.drop_first())
    } else {
        0
    }
}

/// The length of the trailing run of whitespace of `s`.
pub open spec fn trail_ws(s: Seq<char>) -> int
    decreases s.len(),
{
    if s.len() > 0 && is_ws(s.last()) {
        1 + trail_ws(s.drop_last())
    } else {
        0
    }
}

pub proof fn lemma_lead_ws(s: Seq<char>)
    ensures
        0 <= lead_ws(s) <= s.len(),
        forall|j: int| 0 <= j < lead_ws(s) ==> is_ws(s[j]),
        lead_ws(s) < s.len() ==> !is_ws(s[lead_ws(s)]),
    decreases s.len(),
{
    if s.len() > 0 && is_ws(s[0]) {
        lemma_lead_ws(s.drop_first());
        assert forall|j: int| 0 <= j < lead_ws(s) implies is_ws(s[j]) by {
            if j > 0 {
                assert(s[j] == s.drop_first()[j - 1]);
            }
        }
    }
}

pub proof fn lemma_trail_ws(s: Seq<char>)
    ensures
        0 <= trail_ws(s) <= s.len(),
        forall|j: int| s.len() - trail_ws(s) <= j < s.len() ==> is_ws(s[j]),
        trail_ws(s) < s.len() ==> !is_ws(s[s.len() - 1 - trail_ws(s)]),
    decreases s.len(),
{
    if s.len() > 0 && is_ws(s.last()) {
        lemma_trail_ws(s.drop_last());
        assert forall|j: int| s.len() - trail_ws(s) <= j < s.len() implies is_ws(s[j]) by {
            if j < s.len() - 1 {
                assert(s[j] == s.drop_last()[j]);
            }
        }
    }
}

/// `s` without leading and trailing whitespace, as `str::trim` gives it.
pub open spec fn trim(s: Seq<char>) -> Seq<char> {
    let t = s.skip(lead_ws(s));
    t.take(t.len() - trail_ws(t))
}

fn lead_ws_exec(s: &[char]) -> (r: usize)
    ensures
        r == lead_ws(s@),
{
    let mut i: usize = 0;
    assert(s@.skip(0) =~= s@);
    while i < s.len() && is_whitespace(s[i])
        invariant
            i <= s@.len(),
            lead_ws(s@) == i + lead_ws(s@.skip(i as int)),
        decreases s@.len() - i,
    {
        proof {
            assert(s@.skip(i as int).drop_first() =~= s@.skip(i + 1));
        }
        i += 1;
    }
    i
}

fn trail_ws_exec(s: &[char]) -> (r: usize)
    ensures
        r == trail_ws(s@),
{
    let mut i: usize = 0;
    assert(s@.take(s@.len() as int) =~= s@);
    while i < s.len() && is_whitespace(s[s.len() - 1 - i])
        invariant
            i <= s@.len(),
            trail_ws(s@) == i + trail_ws(s@.take(s@.len() - i)),
        decreases s@.len() - i,
    {
        proof {
            assert(s@.take(s@.len() - i).drop_last() =~= s@.take(s@.len() - (i + 1)));
            assert(s@.take(s@.len() - i).last() == s@[s@.len() - 1 - i]);
        }
        i += 1;
    }
    i
}

/// `a` without leading and trailing whitespace.
pub fn trim_chars(a: &[char]) -> (r: Vec<char>)
    ensures
        r@ == trim(a@),
{
    let l = lead_ws_exec(a);
    proof {
        lemma_lead_ws(a@);
    }
    let t = copy_range(a, l, a.len());
    let k = trail_ws_exec(t.as_slice());
    proof {
        assert(t@ =~= a@.skip(l as int));
        lemma_trail_ws(t@);
    }
    let r = copy_range(t.as_slice(), 0, t.len() - k);
    proof {
        assert(r@ =~= t@.take(t@.len() - trail_ws(t@)));
    }
    r
}

/// The value of a non-empty run of decimal digits.
pub open spec fn digits_value(s: Seq<char>) -> int
    decreases s.len(),
{
    if s.len() == 0 {
        0
    } else {
        digits_value(s.drop_last()) * 10 + (s.last() as int - '0' as int)
    }
}

pub open spec fn all_digits(s: Seq<char>) -> bool {
    forall|i: int| 0 <= i < s.len() ==> '0' <= #[trigger] s[i] <= '9'
}

/// What `str::parse::<isize>` gives: an optional sign, then one or more
/// decimal digits, the value within the range of `isize`.
pub open spec fn parse_isize_spec(s: Seq<char>) -> Option<int> {
    let neg = s.len() > 0 && s[0] == '-';
    let signed = s.len() > 0 && (s[0] == '-' || s[0] == '+');
    let ds = if signed {
        s.drop_first()
    } else {
        s
    };
    let v = if neg {
        -digits_value(ds)
    } else {
        digits_value(ds)
    };
    if ds.len() > 0 && all_digits(ds) && isize::MIN <= v <= isize::MAX {
        Some(v)
    } else {
        None
    }
}

proof fn lemma_digits_value_nonneg(s: Seq<char>)
    requires
        all_digits(s),
    ensures
        digits_value(s) >= 0,
    decreases s.len(),
{
    if s.len() > 0 {
        lemma_digits_value_nonneg(s.drop_last());
    }
}

proof fn lemma_digits_value_mono(s: Seq<char>, i: int)
    requires
        all_digits(s),
        0 <= i <= s.len(),
    ensures
        digits_value(s.take(i)) <= digits_value(s),
    decreases s.len() - i,
{
    if i < s.len() {
        lemma_digits_value_mono(s, i + 1);
        assert(s.take(i + 1).drop_last() =~= s.take(i));
        lemma_digits_value_nonneg(s.take(i));
    } else {
        assert(s.take(i) =~= s);
    }
}

/// Decimal parsing of a signed integer, as `str::parse::<isize>` does it.
pub fn parse_isize(s: &[char]) -> (r: Option<isize>)
    ensures
        r matches Some(v) ==> parse_isize_spec(s@) == Some(v as int),
        r is None ==> parse_isize_spec(s@) is None,
{
    let neg = s.len() > 0 && s[0] == '-';
    let signed = s.len() > 0 && (s[0] == '-' || s[0] == '+');
    let start: usize = if signed {
        1
    } else {
        0
    };
    let ghost ds = if signed {
        s@.drop_first()
    } else {
        s@
    };
    assert(ds =~= s@.skip(start as int));
    if start == s.len() {
        return None;
    }
    let mut acc: i128 = 0;
    let mut i: usize = start;
    let bound: i128 = isize::MAX as i128 + 1;
    assert(ds.take(0) =~= Seq::<char>::empty());
    while i < s.len()
        invariant
            start <= i <= s@.len(),
            ds == s@.skip(start as int),
            ds == (if signed { s@.drop_first() } else { s@ }),
            signed == (s@.len() > 0 && (s@[0] == '-' || s@[0] == '+')),
            neg == (s@.len() > 0 && s@[0] == '-'),
            all_digits(ds.take(i - start)),
            acc == digits_value(ds.take(i - start)),
            0 <= acc <= bound,
            bound == isize::MAX as i128 + 1,
        decreases s@.len() - i,
    {
        let c = s[i];
        assert(ds[i - start] == c);
        if !('0' <= c && c <= '9') {
            assert(!all_digits(ds));
            return None;
        }
        let d = (c as u32 - '0' as u32) as i128;
        proof {
            assert(ds.take(i - start + 1).drop_last() =~= ds.take(i - start));
            assert(ds.take(i - start + 1).last() == c);
            assert forall|k: int| 0 <= k < ds.take(i - start + 1).len() implies '0' <= #[trigger] ds.take(
                i - start + 1,
            )[k] <= '9' by {
                if k < i - start {
                    assert(ds.take(i - start + 1)[k] == ds.take(i - start)[k]);
                }
            }
        }
        acc = acc * 10 + d;
        i += 1;
        if acc > bound {
            proof {
                if all_digits(ds) {
                    lemma_digits_value_mono(ds, i - start);
                }
            }
            return None;
        }
    }
    assert(ds.take(i - start) =~= ds);
    if neg {
        let v: i128 = -acc;
        if v < isize::MIN as i128 {
            return None;
        }
        Some(v as isize)
    } else {
        if acc > isize::MAX as i128 {
            return None;
        }
        Some(acc as isize)
    }
}

/// What `str::parse::<usize>` gives: an optional `+`, then one or more
/// decimal digits, the value within the range of `usize`.
pub open spec fn parse_usize_spec(s: Seq<char>) -> Option<int> {
    let ds = if s.len() > 0 && s[0] == '+' {
        s.drop_first()
    } else {
        s
    };
    if ds.len() > 0 && all_digits(ds) && digits_value(ds) <= usize::MAX {
        Some(digits_value(ds))
    } else {
        None
    }
}

/// Decimal parsing of an unsigned integer, as `str::parse::<usize>` does it.
pub fn parse_usize(s: &[char]) -> (r: Option<usize>)
    ensures
        r matches Some(v) ==> parse_usize_spec(s@) == Some(v as int),
        r is None ==> parse_usize_spec(s@) is None,
{
    let signed = s.len() > 0 && s[0] == '+';
    let start: usize = if signed {
        1
    } else {
        0
    };
    let ghost ds = if signed {
        s@.drop_first()
    } else {
        s@
    };
    assert(ds =~= s@.skip(start as int));
    if start == s.len() {
        return None;
    }
    let mut acc: u128 = 0;
    let mut i: usize = start;
    let bound: u128 = usize::MAX as u128 + 1;
    assert(ds.take(0) =~= Seq::<char>::empty());
    while i < s.len()
        invariant
            start <= i <= s@.len(),
            ds == s@.skip(start as int),
            ds == (if signed { s@.drop_first() } else { s@ }),
            signed == (s@.len() > 0 && s@[0] == '+'),
            all_digits(ds.take(i - start)),
            acc == digits_value(ds.take(i - start)),
            0 <= acc <= bound,
            bound == usize::MAX as u128 + 1,
        decreases s@.len() - i,
    {
        let c = s[i];
        assert(ds[i - start] == c);
        if !('0' <= c && c <= '9') {
            assert(!all_digits(ds));
            return None;
        }
        let d = (c as u32 - '0' as u32) as u128;
        proof {
            assert(ds.take(i - start + 1).drop_last() =~= ds.take(i - start));
            assert(ds.take(i - start + 1).last() == c);
            assert forall|k: int| 0 <= k < ds.take(i - start + 1).len() implies '0' <= #[trigger] ds.take(
                i - start + 1,
            )[k] <= '9' by {
                if k < i - start {
                    assert(ds.take(i - start + 1)[k] == ds.take(i - start)[k]);
                }
            }
        }
        acc = acc * 10 + d;
        i += 1;
        if acc > bound {
            proof {
                if all_digits(ds) {
                    lemma_digits_value_mono(ds, i - start);
                }
            }
            return None;
        }
    }
    assert(ds.take(i - start) =~= ds);
    if acc > usize::MAX as u128 {
        return None;
    }
    Some(acc as usize)
}

/// The decimal text of a non-negative integer.
pub open spec fn decimal_nat(n: nat) -> Seq<char>
    decreases n,
{
    if n < 10 {
        seq![(('0' as int) + n) as char]
    } else {
        decimal_nat(n / 10).push((('0' as int) + n % 10) as char)
    }
}

/// The decimal text of an integer, as `isize::to_string` writes it.
pub open spec fn decimal(n: int) -> Seq<char> {
    if n < 0 {
        seq!['-'].add(decimal_nat((-n) as nat))
    } else {
        decimal_nat(n as nat)
    }
}

fn decimal_u128(n: u128) -> (r: Vec<char>)
    ensures
        r@ == decimal_nat(n as nat),
    decreases n,
{
    if n < 10 {
        let mut v = Vec::new();
        v.push(char_of_digit(n as u32));
        v
    } else {
        let mut v = decimal_u128(n / 10);
        v.push(char_of_digit((n % 10) as u32));
        v
    }
}

fn char_of_digit(d: u32) -> (c: char)
    requires
        d < 10,
    ensures
        c == (('0' as int) + d) as char,
{
    if d == 0 {
        '0'
    } else if d == 1 {
        '1'
    } else if d == 2 {
        '2'
    } else if d == 3 {
        '3'
    } else if d == 4 {
        '4'
    } else if d == 5 {
        '5'
    } else if d == 6 {
        '6'
    } else if d == 7 {
        '7'
    } else if d == 8 {
        '8'
    } else {
        '9'
    }
}

/// The decimal text of a `usize`.
pub fn decimal_usize(n: usize) -> (r: Vec<char>)
    ensures
        r@ == decimal(n as int),
{
    decimal_u128(n as u128)
}

/// The decimal text of `n`.
pub fn decimal_chars(n: isize) -> (r: Vec<char>)
    ensures
        r@ == decimal(n as int),
{
    if n < 0 {
        let m: i128 = -(n as i128);
        let d = decimal_u128(m as u128);
        let mut v = Vec::new();
        v.push('-');
        let mut i: usize = 0;
        while i < d.len()
            invariant
                i <= d@.len(),
                v@ == seq!['-'].add(d@.take(i as int)),
            decreases d@.len() - i,
        {
            v.push(d[i]);
            proof {
                assert(d@.take(i + 1) =~= d@.take(i as int).push(d@[i as int]));
                assert(seq!['-'].add(d@.take(i + 1)) =~= seq!['-'].add(d@.take(i as int)).push(
                    d@[i as int],
                ));
            }
            i += 1;
        }
        assert(d@.take(d@.len() as int) =~= d@);
        v
    } else {
        decimal_u128(n as u128)
    }
}


// ---------------------------------------------------------------------------
// Splitting and joining

/// The pieces of `s` between the occurrences of `c`, as `str::split` gives
/// them: one more piece than there are occurrences, empty pieces included.
pub open spec fn split_on(s: Seq<char>, c: char) -> Seq<Seq<char>>
    decreases s.len(),
{
    if s.len() == 0 {
        seq![Seq::empty()]
    } else {
        let p = split_on(s.drop_last(), c);
        if s.last() == c {
            p.push(Seq::empty())
        } else {
            p.update(p.len() - 1, p.last().push(s.last()))
        }
    }
}

pub proof fn lemma_split_on_len(s: Seq<char>, c: char)
    ensures
        split_on(s, c).len() >= 1,
    decreases s.len(),
{
    if s.len() > 0 {
        lemma_split_on_len(s.drop_last(), c);
    }
}

/// The pieces joined, with `c` between each two.
pub open spec fn join_with(parts: Seq<Seq<char>>, c: char) -> Seq<char>
    decreases parts.len(),
{
    if parts.len() == 0 {
        Seq::empty()
    } else if parts.len() == 1 {
        parts[0]
    } else {
        join_with(parts.drop_last(), c).push(c) + parts.last()
    }
}

/// The texts of a list of character vectors.
pub open spec fn pieces_view(v: Seq<Vec<char>>) -> Seq<Seq<char>> {
    v.map_values(|x: Vec<char>| x@)
}

/// Splits the characters at each `c` (see [`split_on`]).
pub fn split_chars(s: &[char], c: char) -> (r: Vec<Vec<char>>)
    ensures
        pieces_view(r@) == split_on(s@, c),
{
    let mut done: Vec<Vec<char>> = Vec::new();
    let mut cur: Vec<char> = Vec::new();
    let mut i: usize = 0;
    while i < s.len()
        invariant
            i <= s@.len(),
            pieces_view(done@).push(cur@) == split_on(s@.take(i as int), c),
        decreases s@.len() - i,
    {
        let ghost before = pieces_view(done@).push(cur@);
        let x = s[i];
        proof {
            assert(s@.take(i + 1).drop_last() =~= s@.take(i as int));
            lemma_split_on_len(s@.take(i as int), c);
        }
        if x == c {
            let piece = cur;
            done.push(piece);
            cur = Vec::new();
            proof {
                assert(pieces_view(done@) =~= before);
                assert(pieces_view(done@).push(cur@) =~= before.push(Seq::empty()));
            }
        } else {
            cur.push(x);
            proof {
                assert(pieces_view(done@).push(cur@) =~= before.update(
                    before.len() - 1,
                    before.last().push(x),
                ));
            }
        }
        i += 1;
    }
    proof {
        assert(s@.take(s@.len() as int) =~= s@);
    }
    done.push(cur);
    proof {
        assert(pieces_view(done@) =~= split_on(s@, c));
    }
    done
}

/// Joins the pieces with `c` between each two (see [`join_with`]).
pub fn join_chars(parts: &Vec<Vec<char>>, c: char) -> (r: Vec<char>)
    ensures
        r@ == join_with(pieces_view(parts@), c),
{
    let mut out: Vec<char> = Vec::new();
    let mut i: usize = 0;
    while i < parts.len()
        invariant
            i <= parts@.len(),
            out@ == join_with(pieces_view(parts@).take(i as int), c),
        decreases parts@.len() - i,
    {
        let ghost before = out@;
        proof {
            let t = pieces_view(parts@).take(i + 1);
            assert(t.drop_last() =~= pieces_view(parts@).take(i as int));
        }
        if i > 0 {
            out.push(c);
        }
        let p = &parts[i];
        let mut j: usize = 0;
        let ghost mid = out@;
        while j < p.len()
            invariant
                j <= p@.len(),
                out@ == mid + p@.take(j as int),
            decreases p@.len() - j,
        {
            out.push(p[j]);
            proof {
                assert(p@.take(j + 1) =~= p@.take(j as int).push(p@[j as int]));
                assert(mid + p@.take(j + 1) =~= (mid + p@.take(j as int)).push(p@[j as int]));
            }
            j += 1;
        }
        proof {
            assert(p@.take(p@.len() as int) =~= p@);
            if i == 0 {
                assert(out@ =~= pieces_view(parts@).take(1)[0]);
            }
        }
        i += 1;
    }
    proof {
        assert(pieces_view(parts@).take(parts@.len() as int) =~= pieces_view(parts@));
    }
    out
}

} // verus!
