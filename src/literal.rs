use vstd::prelude::*;

verus! {

pub open spec fn is_digit(c: char) -> bool {
    '0' <= c && c <= '9'
}

pub open spec fn is_sign(c: char) -> bool {
    c == '+' || c == '-'
}

pub open spec fn all_digits(s: Seq<char>) -> bool {
    forall|i: int| 0 <= i < s.len() ==> #[trigger] is_digit(s[i])
}

pub open spec fn digit_value(c: char) -> int {
    (c as u32) as int - ('0' as u32) as int
}

/// The number that a run of decimal digits denotes.
pub open spec fn digits_value(s: Seq<char>) -> int
    decreases s.len(),
{
    if s.len() == 0 {
        0
    } else {
        digits_value(s.drop_last()) * 10 + digit_value(s.last())
    }
}

/// A decimal integer: an optional sign, then at least one digit.
pub open spec fn int_text_value(s: Seq<char>) -> Option<int> {
    if s.len() > 0 && is_sign(s[0]) {
        let d = s.drop_first();
        if d.len() > 0 && all_digits(d) {
            Some(if s[0] == '-' { -digits_value(d) } else { digits_value(d) })
        } else {
            None
        }
    } else if s.len() > 0 && all_digits(s) {
        Some(digits_value(s))
    } else {
        None
    }
}

/// What the text parses to as an `i64`: a decimal integer within range.
pub open spec fn i64_of(s: Seq<char>) -> Option<i64> {
    match int_text_value(s) {
        Some(v) => if i64::MIN <= v <= i64::MAX { Some(v as i64) } else { None },
        None => None,
    }
}

/// What the text parses to as a `usize`: an optional `+`, digits, within range.
pub open spec fn usize_of(s: Seq<char>) -> Option<usize> {
    let d = if s.len() > 0 && s[0] == '+' { s.drop_first() } else { s };
    if d.len() > 0 && all_digits(d) && digits_value(d) <= usize::MAX {
        Some(digits_value(d) as usize)
    } else {
        None
    }
}

proof fn lemma_digits_value_nonneg(s: Seq<char>)
    requires
        all_digits(s),
    ensures
        digits_value(s) >= 0,
    decreases s.len(),
{
    if s.len() > 0 {
        assert(is_digit(s[s.len() - 1]));
        lemma_digits_value_nonneg(s.drop_last());
    }
}

/// A longer run of digits never denotes a smaller number.
proof fn lemma_digits_value_grows(s: Seq<char>, i: int)
    requires
        all_digits(s),
        0 <= i <= s.len(),
    ensures
        digits_value(s.subrange(0, i)) <= digits_value(s),
    decreases s.len() - i,
{
    if i < s.len() {
        let t = s.subrange(0, i + 1);
        assert(t.drop_last() =~= s.subrange(0, i));
        assert(is_digit(s[i]));
        assert(all_digits(s.subrange(0, i))) by {
            assert forall|k: int| 0 <= k < i implies #[trigger] is_digit(s.subrange(0, i)[k]) by {
                assert(is_digit(s[k]));
            }
        }
        lemma_digits_value_nonneg(s.subrange(0, i));
        lemma_digits_value_grows(s, i + 1);
    } else {
        assert(s.subrange(0, i) =~= s);
    }
}

/// The digits of `s` from `from` on, if they are all digits, there is at least
/// one, and they denote at most `limit`.
fn digits_upto(s: &str, from: usize, limit: u64) -> (r: Option<u64>)
    requires
        from <= s@.len(),
    ensures
        ({
            let d = s@.subrange(from as int, s@.len() as int);
            match r {
                Some(v) => d.len() > 0 && all_digits(d) && v as int == digits_value(d)
                    && v <= limit,
                None => !(d.len() > 0 && all_digits(d) && digits_value(d) <= limit),
            }
        }),
{
    let n = s.unicode_len();
    if from == n {
        return None;
    }
    let ghost d = s@.subrange(from as int, n as int);
    let mut acc: u128 = 0;
    let mut i: usize = from;
    while i < n
        invariant
            n == s@.len(),
            from <= i <= n,
            from < n,
            d == s@.subrange(from as int, n as int),
            all_digits(d.subrange(0, i - from)),
            acc as int == digits_value(d.subrange(0, i - from)),
            acc <= limit,
        decreases n - i,
    {
        let c = s.get_char(i);
        if !('0' <= c && c <= '9') {
            assert(!is_digit(d[i - from]));
            return None;
        }
        let ghost k = i - from;
        proof {
            assert(d.subrange(0, k + 1).drop_last() =~= d.subrange(0, k));
            assert(d.subrange(0, k + 1).last() == c);
            assert(all_digits(d.subrange(0, k + 1))) by {
                assert forall|j: int| 0 <= j < k + 1 implies #[trigger] is_digit(
                    d.subrange(0, k + 1)[j],
                ) by {
                    if j < k {
                        assert(d.subrange(0, k + 1)[j] == d.subrange(0, k)[j]);
                    }
                }
            }
        }
        let dv = (c as u32 - '0' as u32) as u128;
        acc = acc * 10 + dv;
        if acc > limit as u128 {
            proof {
                if all_digits(d) {
                    lemma_digits_value_grows(d, k + 1);
                }
            }
            return None;
        }
        i = i + 1;
    }
    assert(d.subrange(0, n - from) =~= d);
    Some(acc as u64)
}

/// Reads a decimal `i64` the way `i64::from_str` does.
pub fn parse_i64(s: &str) -> (r: Option<i64>)
    ensures
        r == i64_of(s@),
{
    let n = s.unicode_len();
    if n == 0 {
        return None;
    }
    let c = s.get_char(0);
    if c == '+' || c == '-' {
        let neg = c == '-';
        let limit: u64 = if neg { 0x8000_0000_0000_0000 } else { 0x7fff_ffff_ffff_ffff };
        let r = digits_upto(s, 1, limit);
        proof {
            assert(s@.subrange(1, s@.len() as int) =~= s@.drop_first());
        }
        match r {
            Some(v) => {
                if neg {
                    if v == 0x8000_0000_0000_0000 {
                        Some(i64::MIN)
                    } else {
                        Some(-(v as i64))
                    }
                } else {
                    Some(v as i64)
                }
            },
            None => None,
        }
    } else {
        let r = digits_upto(s, 0, 0x7fff_ffff_ffff_ffff);
        proof {
            assert(s@.subrange(0, s@.len() as int) =~= s@);
        }
        match r {
            Some(v) => Some(v as i64),
            None => None,
        }
    }
}

/// Reads a decimal `usize` the way `usize::from_str` does.
pub fn parse_usize(s: &str) -> (r: Option<usize>)
    ensures
        r == usize_of(s@),
{
    let n = s.unicode_len();
    let from: usize = if n > 0 && s.get_char(0) == '+' { 1 } else { 0 };
    proof {
        if from == 1 {
            assert(s@.subrange(1, s@.len() as int) =~= s@.drop_first());
        } else {
            assert(s@.subrange(0, s@.len() as int) =~= s@);
        }
    }
    match digits_upto(s, from, usize::MAX as u64) {
        Some(v) => Some(v as usize),
        None => None,
    }
}

/// How many digits stand in a row from position `i` on.
pub open spec fn digit_run(s: Seq<char>, i: int) -> int
    decreases s.len() - i,
{
    if 0 <= i < s.len() && is_digit(s[i]) {
        1 + digit_run(s, i + 1)
    } else {
        0
    }
}

/// `Exp ::= ('e' | 'E') Sign? Digit+`, filling `s` from `m` to its end.
pub open spec fn exponent_from(s: Seq<char>, m: int) -> bool {
    m < s.len() && (s[m] == 'e' || s[m] == 'E') && {
        let k = if m + 1 < s.len() && is_sign(s[m + 1]) { m + 2 } else { m + 1 };
        digit_run(s, k) > 0 && k + digit_run(s, k) == s.len()
    }
}

/// `Number ::= (Digit+ | Digit+ '.' Digit* | Digit* '.' Digit+) Exp?`
pub open spec fn decimal_number(s: Seq<char>) -> bool {
    let a = digit_run(s, 0);
    let dot = a < s.len() && s[a] == '.';
    let m = if dot { a + 1 + digit_run(s, a + 1) } else { a };
    let mantissa = if dot { a + digit_run(s, a + 1) > 0 } else { a > 0 };
    mantissa && (m == s.len() || exponent_from(s, m))
}

pub open spec fn ascii_lower(c: char) -> char {
    if 'A' <= c && c <= 'Z' {
        ((c as u8) + 32) as char
    } else {
        c
    }
}

pub open spec fn same_ignoring_case(s: Seq<char>, word: Seq<char>) -> bool {
    s.len() == word.len() && forall|i: int| 0 <= i < s.len() ==> ascii_lower(#[trigger] s[i]) == word[i]
}

/// Text that `f64::from_str` accepts: an optional sign, then a decimal number
/// or one of `inf`, `infinity`, `nan` in any case.
pub open spec fn is_float_text(s: Seq<char>) -> bool {
    let b = if s.len() > 0 && is_sign(s[0]) { s.drop_first() } else { s };
    decimal_number(b) || same_ignoring_case(b, seq!['i', 'n', 'f'])
        || same_ignoring_case(b, seq!['i', 'n', 'f', 'i', 'n', 'i', 't', 'y'])
        || same_ignoring_case(b, seq!['n', 'a', 'n'])
}

fn count_digits(s: &str, n: usize, i: usize) -> (r: usize)
    requires
        n == s@.len(),
        i <= n,
    ensures
        r == digit_run(s@, i as int),
        i + r <= n,
{
    let mut j: usize = i;
    while j < n
        invariant
            n == s@.len(),
            i <= j <= n,
            digit_run(s@, i as int) == (j - i) + digit_run(s@, j as int),
        decreases n - j,
    {
        let c = s.get_char(j);
        if !('0' <= c && c <= '9') {
            return j - i;
        }
        j = j + 1;
    }
    j - i
}

fn lower_char(c: char) -> (r: char)
    ensures
        r == ascii_lower(c),
{
    if 'A' <= c && c <= 'Z' {
        ((c as u8) + 32) as char
    } else {
        c
    }
}

/// Whether `s` from `from` on spells `word`, ignoring the case of ASCII letters.
fn tail_is_word(s: &str, n: usize, from: usize, word: &str) -> (r: bool)
    requires
        n == s@.len(),
        from <= n,
    ensures
        r == same_ignoring_case(s@.subrange(from as int, n as int), word@),
{
    let ghost b = s@.subrange(from as int, n as int);
    let w = word.unicode_len();
    if n - from != w {
        return false;
    }
    let mut i: usize = 0;
    while i < w
        invariant
            n == s@.len(),
            from <= n,
            w == word@.len(),
            n - from == w,
            b == s@.subrange(from as int, n as int),
            i <= w,
            forall|k: int| 0 <= k < i ==> ascii_lower(#[trigger] b[k]) == word@[k],
        decreases w - i,
    {
        if lower_char(s.get_char(from + i)) != word.get_char(i) {
            assert(ascii_lower(b[i as int]) != word@[i as int]);
            return false;
        }
        i = i + 1;
    }
    true
}

/// Whether the text is one that `f64::from_str` would accept.
pub fn is_float_literal(s: &str) -> (r: bool)
    ensures
        r == is_float_text(s@),
{
    let n = s.unicode_len();
    let from: usize = if n > 0 && (s.get_char(0) == '+' || s.get_char(0) == '-') { 1 } else { 0 };
    let ghost b = s@.subrange(from as int, n as int);
    proof {
        if from == 1 {
            assert(b =~= s@.drop_first());
        } else {
            assert(b =~= s@);
        }
        reveal_strlit("inf");
        reveal_strlit("infinity");
        reveal_strlit("nan");
        assert("inf"@ =~= seq!['i', 'n', 'f']);
        assert("infinity"@ =~= seq!['i', 'n', 'f', 'i', 'n', 'i', 't', 'y']);
        assert("nan"@ =~= seq!['n', 'a', 'n']);
    }
    if tail_is_word(s, n, from, "inf") || tail_is_word(s, n, from, "infinity") || tail_is_word(
        s,
        n,
        from,
        "nan",
    ) {
        return true;
    }
    let r = decimal_tail(s, n, from);
    r
}

proof fn lemma_run_shift(s: Seq<char>, from: int, i: int)
    requires
        0 <= from <= s.len(),
        from <= i,
    ensures
        digit_run(s.subrange(from, s.len() as int), i - from) == digit_run(s, i),
    decreases s.len() - i,
{
    let b = s.subrange(from, s.len() as int);
    if i < s.len() {
        assert(b[i - from] == s[i]);
        lemma_run_shift(s, from, i + 1);
    }
}

/// Whether `s` from `from` on is a decimal number with an optional exponent.
fn decimal_tail(s: &str, n: usize, from: usize) -> (r: bool)
    requires
        n == s@.len(),
        from <= n,
    ensures
        r == decimal_number(s@.subrange(from as int, n as int)),
{
    let ghost b = s@.subrange(from as int, n as int);
    let a = count_digits(s, n, from);
    proof {
        lemma_run_shift(s@, from as int, from as int);
    }
    let dot = from + a < n && s.get_char(from + a) == '.';
    let mut m = from + a;
    let mantissa: bool;
    if dot {
        let c = count_digits(s, n, from + a + 1);
        proof {
            lemma_run_shift(s@, from as int, from + a + 1);
        }
        m = from + a + 1 + c;
        mantissa = a + c > 0;
    } else {
        mantissa = a > 0;
    }
    if !mantissa {
        return false;
    }
    if m == n {
        return true;
    }
    let e = s.get_char(m);
    if !(e == 'e' || e == 'E') {
        return false;
    }
    let k: usize = if m + 1 < n && (s.get_char(m + 1) == '+' || s.get_char(m + 1) == '-') {
        m + 2
    } else {
        m + 1
    };
    let d = count_digits(s, n, k);
    proof {
        lemma_run_shift(s@, from as int, k as int);
    }
    d > 0 && k + d == n
}

} // verus!
