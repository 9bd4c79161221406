//! Character-level building blocks shared by every text producer: decimal
//! rendering of integers, literal appends, and string/char conversions.

use vstd::prelude::*;
use vstd::std_specs::iter::IteratorSpec;

verus! {

/// Decimal digits of a natural number, most significant first.
pub open spec fn decimal(n: nat) -> Seq<char>
    decreases n,
{
    if n < 10 {
        seq![digit_char(n)]
    } else {
        decimal(n / 10).push(digit_char(n % 10))
    }
}

/// The ASCII digit for `d` (0..=9).
pub open spec fn digit_char(d: nat) -> char {
    ((d + 48) as u8) as char
}

/// Signed decimal rendering: a leading `-` for negative values.
pub open spec fn int_text(i: int) -> Seq<char> {
    if i < 0 {
        seq!['-'] + decimal((-i) as nat)
    } else {
        decimal(i as nat)
    }
}

/// Zero-padded two-digit rendering (`{:02}`) of a value below 100.
pub open spec fn two_digits(n: nat) -> Seq<char> {
    if n < 10 {
        seq!['0'] + decimal(n)
    } else {
        decimal(n)
    }
}

proof fn lemma_decimal_nonempty(n: nat)
    ensures
        decimal(n).len() >= 1,
    decreases n,
{
    if n >= 10 {
        lemma_decimal_nonempty(n / 10);
    }
}

/// The characters of a string slice, in order.
pub fn chars_of(s: &str) -> (out: Vec<char>)
    ensures
        out@ == s@,
{
    let mut out: Vec<char> = Vec::new();
    push_str(&mut out, s);
    assert(out@ =~= s@);
    out
}

/// std's `String::push`: appends one character.
#[verifier::external_body]
fn push_char(s: &mut String, c: char)
    ensures
        final(s)@ == old(s)@.push(c),
{
    s.push(c);
}

/// An owned `String` holding `chars`, in order.
pub fn string_from_chars(chars: &[char]) -> (s: String)
    ensures
        s@ == chars@,
{
    let mut s = String::new();
    let mut k: usize = 0;
    while k < chars.len()
        invariant
            k <= chars@.len(),
            s@ == chars@.take(k as int),
        decreases chars.len() - k,
    {
        push_char(&mut s, chars[k]);
        k = k + 1;
        assert(s@ =~= chars@.take(k as int));
    }
    assert(chars@.take(chars@.len() as int) =~= chars@);
    s
}

/// Appends the characters of `s` to `out`.
pub fn push_str(out: &mut Vec<char>, s: &str)
    ensures
        final(out)@ == old(out)@ + s@,
{
    broadcast use vstd::string::group_string_axioms;
    let ghost start = out@;
    let mut it = s.chars();
    loop
        invariant
            it.obeys_prophetic_iter_laws(),
            it.decrease() is Some,
            start + s@ == out@ + it.remaining(),
        ensures
            out@ == start + s@,
        decreases it.decrease()->0,
    {
        match it.next() {
            Some(c) => {
                out.push(c);
                proof {
                    assert(out@ + it.remaining() =~= start + s@);
                }
            },
            None => {
                assert(out@ =~= start + s@);
                break;
            },
        }
    }
}

/// Appends the characters of `s` to `out`.
pub fn push_chars(out: &mut Vec<char>, s: &Vec<char>)
    ensures
        final(out)@ == old(out)@ + s@,
{
    let ghost start = out@;
    let mut i: usize = 0;
    while i < s.len()
        invariant
            i <= s.len(),
            out@ == start + s@.take(i as int),
        decreases s.len() - i,
    {
        out.push(s[i]);
        i = i + 1;
        proof {
            assert(start + s@.take(i as int) =~= out@);
        }
    }
    proof {
        assert(s@.take(s.len() as int) =~= s@);
    }
}

/// Appends the decimal digits of `n`.
pub fn push_nat(out: &mut Vec<char>, n: u64)
    ensures
        final(out)@ == old(out)@ + decimal(n as nat),
    decreases n,
{
    if n >= 10 {
        push_nat(out, n / 10);
    }
    let d: u64 = n % 10;
    let c: char = ((d as u8) + 48u8) as char;
    out.push(c);
    proof {
        if n >= 10 {
            assert(decimal(n as nat) == decimal((n / 10) as nat).push(digit_char((n % 10) as nat)));
        }
    }
}

/// Appends the signed decimal rendering of `i`.
pub fn push_int(out: &mut Vec<char>, i: i64)
    ensures
        final(out)@ == old(out)@ + int_text(i as int),
{
    if i < 0 {
        out.push('-');
        let magnitude: u64 = if i == i64::MIN {
            9_223_372_036_854_775_808u64
        } else {
            (-i) as u64
        };
        push_nat(out, magnitude);
    } else {
        push_nat(out, i as u64);
    }
}

/// Appends a zero-padded two-digit rendering (`{:02}`).
pub fn push_two_digits(out: &mut Vec<char>, n: u64)
    requires
        n < 100,
    ensures
        final(out)@ == old(out)@ + two_digits(n as nat),
{
    if n < 10 {
        out.push('0');
    }
    push_nat(out, n);
}

/// Equality of two string slices by content.
pub fn str_eq(a: &str, b: &str) -> (r: bool)
    ensures
        r == (a@ == b@),
{
    let x = chars_of(a);
    let y = chars_of(b);
    chars_eq(&x, &y)
}

/// Equality of two character vectors by content.
pub fn chars_eq(x: &Vec<char>, y: &Vec<char>) -> (r: bool)
    ensures
        r == (x@ == y@),
{
    if x.len() != y.len() {
        return false;
    }
    let mut i: usize = 0;
    while i < x.len()
        invariant
            x.len() == y.len(),
            i <= x.len(),
            forall|k: int| 0 <= k < i ==> x@[k] == y@[k],
        decreases x.len() - i,
    {
        if x[i] != y[i] {
            return false;
        }
        i = i + 1;
    }
    assert(x@ =~= y@);
    true
}

/// A `String` holding the characters of `chars`.
pub fn to_string(chars: &Vec<char>) -> (s: String)
    ensures
        s@ == chars@,
{
    string_from_chars(chars.as_slice())
}


/// Unicode `White_Space`, as `char::is_whitespace` defines it.
pub open spec fn is_space(c: char) -> bool {
    let u = c as u32;
    (0x09 <= u <= 0x0d) || u == 0x20 || u == 0x85 || u == 0xa0 || u == 0x1680
        || (0x2000 <= u <= 0x200a) || u == 0x2028 || u == 0x2029 || u == 0x202f
        || u == 0x205f || u == 0x3000
}

pub open spec fn trim_start(s: Seq<char>) -> Seq<char>
    decreases s.len(),
{
    if s.len() > 0 && is_space(s[0]) { trim_start(s.drop_first()) } else { s }
}

pub open spec fn trim_end(s: Seq<char>) -> Seq<char>
    decreases s.len(),
{
    if s.len() > 0 && is_space(s.last()) { trim_end(s.drop_last()) } else { s }
}

/// The text without leading and trailing whitespace (`str::trim`).
pub open spec fn trim(s: Seq<char>) -> Seq<char> {
    trim_end(trim_start(s))
}

pub open spec fn is_digit(c: char) -> bool {
    48 <= c as u32 <= 57
}

/// The value of a run of decimal digits.
pub open spec fn digits_value(d: Seq<char>) -> int
    decreases d.len(),
{
    if d.len() == 0 { 0 } else { 10 * digits_value(d.drop_last()) + (d.last() as u32 - 48) }
}

/// Whether `s` opens with a sign character.
pub open spec fn signed(s: Seq<char>) -> bool {
    s.len() > 0 && (s[0] == '-' || s[0] == '+')
}

/// The characters after an optional sign.
pub open spec fn unsigned_part(s: Seq<char>) -> Seq<char> {
    if signed(s) { s.drop_first() } else { s }
}

pub open spec fn all_digits(d: Seq<char>) -> bool {
    forall|k: int| 0 <= k < d.len() ==> is_digit(#[trigger] d[k])
}

/// `str::parse::<i32>`: an optional `+`/`-`, then at least one ASCII
/// digit, and a value that fits in `i32`.
pub open spec fn parse_i32(s: Seq<char>) -> Option<int> {
    let digits = unsigned_part(s);
    let v = if s.len() > 0 && s[0] == '-' { -digits_value(digits) } else { digits_value(digits) };
    if digits.len() == 0 || !all_digits(digits) {
        None
    } else if v < i32::MIN || v > i32::MAX {
        None
    } else {
        Some(v)
    }
}

pub fn char_is_space(c: char) -> (b: bool)
    ensures
        b == is_space(c),
{
    let u = c as u32;
    (0x09 <= u && u <= 0x0d) || u == 0x20 || u == 0x85 || u == 0xa0 || u == 0x1680
        || (0x2000 <= u && u <= 0x200a) || u == 0x2028 || u == 0x2029 || u == 0x202f
        || u == 0x205f || u == 0x3000
}

proof fn lemma_trim_start_skip(s: Seq<char>, a: int)
    requires
        0 <= a <= s.len(),
        forall|k: int| 0 <= k < a ==> is_space(#[trigger] s[k]),
    ensures
        trim_start(s) == trim_start(s.subrange(a, s.len() as int)),
    decreases a,
{
    if a > 0 {
        assert(s.drop_first().subrange(a - 1, s.drop_first().len() as int) =~= s.subrange(a, s.len() as int));
        lemma_trim_start_skip(s.drop_first(), a - 1);
    } else {
        assert(s.subrange(0, s.len() as int) =~= s);
    }
}

proof fn lemma_trim_end_skip(s: Seq<char>, b: int)
    requires
        0 <= b <= s.len(),
        forall|k: int| b <= k < s.len() ==> is_space(#[trigger] s[k]),
    ensures
        trim_end(s) == trim_end(s.subrange(0, b)),
    decreases s.len() - b,
{
    if b < s.len() {
        assert(s.drop_last().subrange(0, b) =~= s.subrange(0, b));
        lemma_trim_end_skip(s.drop_last(), b);
    } else {
        assert(s.subrange(0, b) =~= s);
    }
}

/// The characters of `s` without leading and trailing whitespace.
pub fn trim_chars(s: &Vec<char>) -> (r: Vec<char>)
    ensures
        r@ == trim(s@),
{
    let n = s.len();
    let mut a: usize = 0;
    while a < n && char_is_space(s[a])
        invariant
            a <= n,
            n == s@.len(),
            forall|k: int| 0 <= k < a ==> is_space(#[trigger] s@[k]),
        decreases n - a,
    {
        a = a + 1;
    }
    let ghost t = s@.subrange(a as int, n as int);
    proof {
        lemma_trim_start_skip(s@, a as int);
        assert(!(t.len() > 0 && is_space(t[0])));
        assert(trim_start(t) == t);
    }
    let mut b: usize = n;
    while b > a && char_is_space(s[b - 1])
        invariant
            a <= b <= n,
            n == s@.len(),
            forall|k: int| b <= k < n ==> is_space(#[trigger] s@[k]),
        decreases b,
    {
        b = b - 1;
    }
    let mut r: Vec<char> = Vec::new();
    let mut k: usize = a;
    while k < b
        invariant
            a <= k <= b <= n,
            n == s@.len(),
            r@ == s@.subrange(a as int, k as int),
        decreases b - k,
    {
        r.push(s[k]);
        k = k + 1;
        assert(r@ =~= s@.subrange(a as int, k as int));
    }
    proof {
        let tt = t;
        assert forall|k: int| b - a <= k < tt.len() implies is_space(#[trigger] tt[k]) by {
            assert(tt[k] == s@[k + a]);
        }
        lemma_trim_end_skip(tt, b - a);
        assert(tt.subrange(0, b - a) =~= r@);
        assert(!(r@.len() > 0 && is_space(r@.last())));
    }
    r
}

/// Parses a decimal `i32` (`str::parse::<i32>` on the characters).
pub fn parse_i32_chars(s: &Vec<char>) -> (r: Option<i32>)
    ensures
        match r {
            Some(v) => parse_i32(s@) == Some(v as int),
            None => parse_i32(s@) is None,
        },
{
    let n = s.len();
    let neg = n > 0 && s[0] == '-';
    let start: usize = if n > 0 && (s[0] == '-' || s[0] == '+') { 1 } else { 0 };
    let ghost digits = unsigned_part(s@);
    assert(digits =~= s@.subrange(start as int, n as int));
    if start >= n {
        return None;
    }
    let cap: i64 = 0x1_0000_0000;
    let mut acc: i64 = 0;
    let mut k: usize = start;
    while k < n
        invariant
            start <= k <= n,
            n == s@.len(),
            cap == 0x1_0000_0000,
            digits == s@.subrange(start as int, n as int),
            digits == unsigned_part(s@),
            forall|t: int| start <= t < k ==> is_digit(#[trigger] s@[t]),
            0 <= acc <= cap,
            acc < cap ==> acc as int == digits_value(s@.subrange(start as int, k as int)),
            acc == cap ==> digits_value(s@.subrange(start as int, k as int)) >= cap,
        decreases n - k,
    {
        let c = s[k];
        let u = c as u32;
        if !(48 <= u && u <= 57) {
            proof {
                assert(digits[k - start] == c);
                assert(!is_digit(digits[k - start]));
                assert(!all_digits(digits));
                assert(parse_i32(s@) is None);
            }
            return None;
        }
        let d: i64 = (u - 48) as i64;
        proof {
            let p = s@.subrange(start as int, k + 1);
            assert(p.drop_last() =~= s@.subrange(start as int, k as int));
            assert(p.last() == c);
            lemma_digits_nonneg(s@.subrange(start as int, k as int));
        }
        if acc < cap {
            let next = 10 * acc + d;
            acc = if next >= cap { cap } else { next };
        }
        k = k + 1;
    }
    proof {
        assert(s@.subrange(start as int, n as int) == digits);
        assert forall|t: int| 0 <= t < digits.len() implies is_digit(#[trigger] digits[t]) by {
            assert(digits[t] == s@[t + start]);
        }
        assert(all_digits(digits));
    }
    if acc >= cap {
        return None;
    }
    if neg {
        if acc > 0x8000_0000 {
            return None;
        }
        Some((-acc) as i32)
    } else {
        if acc > 0x7fff_ffff {
            return None;
        }
        Some(acc as i32)
    }
}

proof fn lemma_digits_nonneg(d: Seq<char>)
    requires
        forall|k: int| 0 <= k < d.len() ==> is_digit(#[trigger] d[k]),
    ensures
        digits_value(d) >= 0,
    decreases d.len(),
{
    if d.len() > 0 {
        assert forall|k: int| 0 <= k < d.drop_last().len() implies is_digit(#[trigger] d.drop_last()[k]) by {
            assert(d.drop_last()[k] == d[k]);
        }
        lemma_digits_nonneg(d.drop_last());
        assert(is_digit(d[d.len() - 1]));
    }
}

/// The first position at or after `i` where `pat` occurs in `s`.
pub open spec fn find_from(s: Seq<char>, pat: Seq<char>, i: int) -> Option<int>
    decreases s.len() + 1 - i,
{
    if i < 0 || i + pat.len() > s.len() {
        None
    } else if s.subrange(i, i + pat.len()) == pat {
        Some(i)
    } else {
        find_from(s, pat, i + 1)
    }
}


/// `s` with every occurrence of `pat` (left to right, not overlapping)
/// replaced by `rep`.
pub open spec fn replace_all(s: Seq<char>, pat: Seq<char>, rep: Seq<char>) -> Seq<char>
    decreases s.len(),
{
    if pat.len() == 0 {
        s
    } else {
        match find_from(s, pat, 0) {
            None => s,
            Some(at) => if at + pat.len() > s.len() || at < 0 {
                s
            } else {
                s.subrange(0, at) + rep + replace_all(s.subrange(at + pat.len(), s.len() as int), pat, rep)
            },
        }
    }
}


pub proof fn lemma_find_from_bounds(s: Seq<char>, pat: Seq<char>, i: int)
    ensures
        match find_from(s, pat, i) {
            Some(at) => i <= at && at + pat.len() <= s.len() && s.subrange(at, at + pat.len()) == pat,
            None => true,
        },
    decreases s.len() + 1 - i,
{
    if i < 0 || i + pat.len() > s.len() {
    } else if s.subrange(i, i + pat.len()) == pat {
    } else {
        lemma_find_from_bounds(s, pat, i + 1);
    }
}


/// Whether `pat` occurs in `s` at `i`.
pub fn matches_at(s: &Vec<char>, pat: &Vec<char>, i: usize) -> (b: bool)
    requires
        i + pat@.len() <= s@.len(),
    ensures
        b == (s@.subrange(i as int, i + pat@.len()) == pat@),
{
    let mut k: usize = 0;
    while k < pat.len()
        invariant
            k <= pat@.len(),
            i + pat@.len() <= s.len(),
            forall|t: int| 0 <= t < k ==> s@[i + t] == pat@[t],
        decreases pat.len() - k,
    {
        assert(i + k < s@.len());
        if s[i + k] != pat[k] {
            assert(s@.subrange(i as int, i + pat@.len())[k as int] != pat@[k as int]);
            return false;
        }
        k = k + 1;
    }
    assert(s@.subrange(i as int, i + pat@.len()) =~= pat@);
    true
}

/// The first position at or after `i` where `pat` occurs.
pub fn find_at_or_after(s: &Vec<char>, pat: &Vec<char>, i: usize) -> (r: Option<usize>)
    requires
        pat@.len() > 0,
    ensures
        match r {
            Some(at) => find_from(s@, pat@, i as int) == Some(at as int),
            None => find_from(s@, pat@, i as int) is None,
        },
{
    if pat.len() > s.len() {
        return None;
    }
    let mut j: usize = i;
    while j <= s.len() - pat.len()
        invariant
            i <= j,
            pat@.len() > 0,
            pat@.len() <= s@.len(),
            find_from(s@, pat@, i as int) == find_from(s@, pat@, j as int),
        decreases s.len() - j,
    {
        if matches_at(s, pat, j) {
            return Some(j);
        }
        j = j + 1;
    }
    None
}


/// The characters of `s` from `from` up to `to`.
pub fn slice_chars(s: &Vec<char>, from: usize, to: usize) -> (out: Vec<char>)
    requires
        from <= to <= s@.len(),
    ensures
        out@ == s@.subrange(from as int, to as int),
{
    let mut out: Vec<char> = Vec::new();
    let mut k: usize = from;
    while k < to
        invariant
            from <= k <= to <= s@.len(),
            out@ == s@.subrange(from as int, k as int),
        decreases to - k,
    {
        out.push(s[k]);
        k = k + 1;
        assert(out@ =~= s@.subrange(from as int, k as int));
    }
    out
}

/// `s` with every `pat` replaced by `rep`.
pub fn replace_chars(s: &Vec<char>, pat: &Vec<char>, rep: &Vec<char>) -> (out: Vec<char>)
    requires
        pat@.len() > 0,
    ensures
        out@ == replace_all(s@, pat@, rep@),
{
    let mut out: Vec<char> = Vec::new();
    let mut pos: usize = 0;
    assert(s@.subrange(0, s@.len() as int) =~= s@);
    while pos <= s.len()
        invariant
            pat@.len() > 0,
            pos <= s@.len(),
            out@ + replace_all(s@.subrange(pos as int, s@.len() as int), pat@, rep@) == replace_all(s@, pat@, rep@),
        decreases s.len() - pos,
    {
        let ghost rest = s@.subrange(pos as int, s@.len() as int);
        match find_at_or_after(s, pat, pos) {
            None => {
                proof {
                    lemma_find_shift(s@, pat@, pos as int, 0);
                }
                let tail = slice_chars(s, pos, s.len());
                push_chars(&mut out, &tail);
                assert(out@ =~= replace_all(s@, pat@, rep@));
                return out;
            },
            Some(at) => {
                proof {
                    lemma_find_from_bounds(s@, pat@, pos as int);
                    lemma_find_shift(s@, pat@, pos as int, 0);
                }
                let head = slice_chars(s, pos, at);
                push_chars(&mut out, &head);
                push_chars(&mut out, rep);
                let ghost next = (at + pat.len()) as int;
                proof {
                    assert(rest.subrange(0, at - pos) =~= s@.subrange(pos as int, at as int));
                    assert(rest.subrange(at - pos + pat@.len(), rest.len() as int) =~= s@.subrange(next, s@.len() as int));
                }
                pos = at + pat.len();
            },
        }
    }
    out
}

/// Searching a suffix finds the match the whole text has there, shifted.
pub proof fn lemma_find_shift(s: Seq<char>, pat: Seq<char>, pos: int, i: int)
    requires
        0 <= pos <= s.len(),
        0 <= i,
    ensures
        match find_from(s.subrange(pos, s.len() as int), pat, i) {
            Some(at) => find_from(s, pat, pos + i) == Some(at + pos),
            None => find_from(s, pat, pos + i) is None,
        },
    decreases s.len() + 1 - pos - i,
{
    let t = s.subrange(pos, s.len() as int);
    if i + pat.len() > t.len() {
    } else {
        assert(t.subrange(i, i + pat.len()) =~= s.subrange(pos + i, pos + i + pat.len()));
        if t.subrange(i, i + pat.len()) != pat {
            lemma_find_shift(s, pat, pos, i + 1);
        }
    }
}


/// A decimal rendering is a non-empty run of digits with the value it
/// renders.
pub proof fn lemma_decimal_digits(n: nat)
    ensures
        decimal(n).len() >= 1,
        all_digits(decimal(n)),
        digits_value(decimal(n)) == n,
    decreases n,
{
    let c = digit_char(n % 10);
    assert((n % 10 + 48) as u8 as int == n % 10 + 48);
    assert(c as u32 == n % 10 + 48);
    if n < 10 {
        assert(decimal(n) =~= seq![c]);
        assert(decimal(n).drop_last() =~= Seq::<char>::empty());
        assert(decimal(n).last() == c);
        assert(digits_value(decimal(n)) == 10 * digits_value(decimal(n).drop_last()) + (c as u32 - 48));
    } else {
        lemma_decimal_digits(n / 10);
        assert(decimal(n).drop_last() =~= decimal(n / 10));
        assert(decimal(n).last() == c);
        assert(digits_value(decimal(n)) == 10 * digits_value(decimal(n / 10)) + (c as u32 - 48));
        assert forall|k: int| 0 <= k < decimal(n).len() implies is_digit(#[trigger] decimal(n)[k]) by {
            if k < decimal(n / 10).len() {
                assert(decimal(n)[k] == decimal(n / 10)[k]);
            }
        }
    }
}

/// Trimming and parsing a signed decimal rendering gives its value back.
pub proof fn lemma_int_text_parses(i: int)
    requires
        i32::MIN <= i <= i32::MAX,
    ensures
        trim(int_text(i)) == int_text(i),
        parse_i32(int_text(i)) == Some(i),
{
    let n: nat = if i < 0 { (-i) as nat } else { i as nat };
    lemma_decimal_digits(n);
    let d = decimal(n);
    let t = int_text(i);
    assert(!is_space(d[0])) by {
        assert(is_digit(d[0]));
    }
    assert(!is_space(d.last())) by {
        assert(is_digit(d[d.len() - 1]));
    }
    if i < 0 {
        assert(t =~= seq!['-'] + d);
        assert(t[0] == '-');
        assert(!is_space(t[0]));
        assert(t.last() == d.last());
        assert(unsigned_part(t) =~= d);
    } else {
        assert(t == d);
        assert(!signed(t)) by {
            assert(is_digit(d[0]));
        }
    }
    assert(trim_start(t) == t);
    assert(trim_end(t) == t);
}


/// What `str::to_lowercase` makes of a text (Unicode lowercase mapping).
pub uninterp spec fn lowercase(s: Seq<char>) -> Seq<char>;

/// std's `str::to_lowercase`: the text with every character mapped to its
/// Unicode lowercase, which this contract names `lowercase`.
#[verifier::external_body]
pub fn to_lowercase(s: &str) -> (r: String)
    ensures
        r@ == lowercase(s@),
{
    s.to_lowercase()
}

/// Whether `a` comes strictly before `b` in character order (the order
/// of `String`'s comparison: UTF-8 bytes order as their characters do).
pub open spec fn chars_before(a: Seq<char>, b: Seq<char>) -> bool
    decreases a.len(),
{
    if a.len() == 0 {
        b.len() > 0
    } else if b.len() == 0 {
        false
    } else if a[0] != b[0] {
        (a[0] as int) < (b[0] as int)
    } else {
        chars_before(a.drop_first(), b.drop_first())
    }
}

/// Character order is a strict total order: irreflexive, asymmetric,
/// total on distinct texts and transitive.
pub proof fn lemma_chars_before_total(a: Seq<char>, b: Seq<char>)
    ensures
        !chars_before(a, a),
        chars_before(a, b) ==> !chars_before(b, a),
        a != b ==> chars_before(a, b) || chars_before(b, a),
    decreases a.len(),
{
    if a.len() > 0 && b.len() > 0 {
        lemma_chars_before_total(a.drop_first(), b.drop_first());
        lemma_chars_before_total(a.drop_first(), a.drop_first());
        if a[0] == b[0] && a.drop_first() == b.drop_first() {
            assert(a =~= seq![a[0]] + a.drop_first());
            assert(b =~= seq![b[0]] + b.drop_first());
        }
        if a[0] != b[0] {
            assert(a[0] as int != b[0] as int);
        }
    } else if a.len() == 0 && b.len() == 0 {
        assert(a =~= b);
    } else if a.len() > 0 {
        lemma_chars_before_total(a.drop_first(), a.drop_first());
    }
}

pub proof fn lemma_chars_before_transitive(a: Seq<char>, b: Seq<char>, c: Seq<char>)
    requires
        chars_before(a, b),
        chars_before(b, c),
    ensures
        chars_before(a, c),
    decreases a.len(),
{
    if a.len() > 0 && b.len() > 0 && c.len() > 0 && a[0] == b[0] && b[0] == c[0] {
        lemma_chars_before_transitive(a.drop_first(), b.drop_first(), c.drop_first());
    }
}

/// Whether `a` comes strictly before `b` in character order.
pub fn chars_less(a: &Vec<char>, b: &Vec<char>) -> (r: bool)
    ensures
        r == chars_before(a@, b@),
{
    let mut i: usize = 0;
    assert(a@.skip(0) =~= a@ && b@.skip(0) =~= b@);
    while i < a.len() && i < b.len() && a[i] == b[i]
        invariant
            i <= a@.len(),
            i <= b@.len(),
            chars_before(a@, b@) == chars_before(a@.skip(i as int), b@.skip(i as int)),
        decreases a.len() - i,
    {
        proof {
            assert(a@.skip(i as int).drop_first() =~= a@.skip(i + 1));
            assert(b@.skip(i as int).drop_first() =~= b@.skip(i + 1));
        }
        i = i + 1;
    }
    if i == a.len() {
        assert(a@.skip(i as int).len() == 0);
        assert(b@.skip(i as int).len() == b@.len() - i);
        i < b.len()
    } else if i == b.len() {
        assert(b@.skip(i as int).len() == 0);
        assert(a@.skip(i as int).len() > 0);
        false
    } else {
        proof {
            assert(a@.skip(i as int)[0] == a@[i as int] && b@.skip(i as int)[0] == b@[i as int]);
            assert(a@.skip(i as int).len() > 0 && b@.skip(i as int).len() > 0);
        }
        a[i] < b[i]
    }
}

} // verus!
