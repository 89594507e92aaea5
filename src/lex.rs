//! The lexical layer of the .obj / .mtl readers: whitespace-separated words,
//! '/'-separated index fields, decimal integers and decimal number literals.
use vstd::prelude::*;

verus! {

/// The characters with the Unicode White_Space property.
pub open spec fn is_white_space(c: char) -> bool {
    let u = c as u32;
    (9 <= u <= 13) || u == 32 || u == 0x85 || u == 0xa0 || u == 0x1680 || (0x2000 <= u <= 0x200a)
        || u == 0x2028 || u == 0x2029 || u == 0x202f || u == 0x205f || u == 0x3000
}

/// The words of s: its maximal runs of characters that are not white space,
/// in order.
pub open spec fn words(s: Seq<char>) -> Seq<Seq<char>>
    decreases s.len(),
{
    if s.len() == 0 {
        Seq::empty()
    } else {
        let w = words(s.drop_last());
        let c = s.last();
        if is_white_space(c) {
            w
        } else if s.len() >= 2 && !is_white_space(s[s.len() - 2]) {
            w.update(w.len() - 1, w.last().push(c))
        } else {
            w.push(seq![c])
        }
    }
}

/// The pieces of s between occurrences of sep, empty ones included; there
/// is always at least one.
pub open spec fn pieces(s: Seq<char>, sep: char) -> Seq<Seq<char>>
    decreases s.len(),
{
    if s.len() == 0 {
        seq![Seq::empty()]
    } else {
        let p = pieces(s.drop_last(), sep);
        if s.last() == sep {
            p.push(Seq::empty())
        } else {
            p.update(p.len() - 1, p.last().push(s.last()))
        }
    }
}

pub open spec fn is_digit(c: char) -> bool {
    '0' <= c <= '9'
}

/// The value of a run of decimal digits.
pub open spec fn digits_value(s: Seq<char>) -> int
    decreases s.len(),
{
    if s.len() == 0 {
        0
    } else {
        digits_value(s.drop_last()) * 10 + (s.last() as int - '0' as int)
    }
}

pub open spec fn all_digits(s: Seq<char>) -> bool {
    s.len() > 0 && forall|j: int| 0 <= j < s.len() ==> is_digit(#[trigger] s[j])
}

/// A decimal integer: an optional '+' or '-', then at least one digit.
pub open spec fn integer_literal(s: Seq<char>) -> Option<int> {
    if s.len() > 0 && (s[0] == '+' || s[0] == '-') {
        if all_digits(s.drop_first()) {
            if s[0] == '-' {
                Some(-digits_value(s.drop_first()))
            } else {
                Some(digits_value(s.drop_first()))
            }
        } else {
            None
        }
    } else if all_digits(s) {
        Some(digits_value(s))
    } else {
        None
    }
}

/// A decimal integer whose value fits in 32 signed bits.
pub open spec fn i32_literal(s: Seq<char>) -> Option<i32> {
    match integer_literal(s) {
        Some(v) => if i32::MIN <= v <= i32::MAX {
            Some(v as i32)
        } else {
            None
        },
        None => None,
    }
}

/// Relies on str::split_whitespace: the maximal runs of characters without
/// the Unicode White_Space property, in order.
#[verifier::external_body]
pub(crate) fn split_words(line: &str) -> (r: Vec<String>)
    ensures
        r@.len() == words(line@).len(),
        forall|j: int| 0 <= j < r@.len() ==> #[trigger] r@[j]@ == words(line@)[j],
{
    line.split_whitespace().map(String::from).collect()
}

/// The pieces of s between occurrences of sep, empty ones included.
pub(crate) fn split_on(s: &str, sep: char) -> (r: Vec<String>)
    ensures
        r@.len() == pieces(s@, sep).len(),
        forall|j: int| 0 <= j < r@.len() ==> #[trigger] r@[j]@ == pieces(s@, sep)[j],
{
    let n = s.unicode_len();
    let mut r: Vec<String> = Vec::new();
    let mut start: usize = 0;
    let mut i: usize = 0;
    assert(s@.take(0) =~= Seq::<char>::empty());
    assert(r@.map_values(|t: String| t@).push(s@.subrange(0, 0)) =~= pieces(s@.take(0), sep));
    while i < n
        invariant
            n == s@.len(),
            start <= i <= n,
            r@.map_values(|t: String| t@).push(s@.subrange(start as int, i as int)) == pieces(s@.take(i as int), sep),
        decreases n - i,
    {
        let c = s.get_char(i);
        let ghost before = r@.map_values(|t: String| t@);
        assert(s@.take(i + 1).drop_last() =~= s@.take(i as int));
        assert(s@.take(i + 1).last() == c);
        if c == sep {
            let piece = s.substring_char(start, i).to_owned();
            r.push(piece);
            proof {
                assert(r@.map_values(|t: String| t@) =~= before.push(s@.subrange(start as int, i as int)));
                assert(s@.subrange(i + 1, i + 1) =~= Seq::<char>::empty());
            }
            start = i + 1;
        } else {
            proof {
                assert(s@.subrange(start as int, i + 1) =~= s@.subrange(start as int, i as int).push(c));
                assert(before.push(s@.subrange(start as int, i + 1)) =~= before.push(
                    s@.subrange(start as int, i as int),
                ).update(before.len() as int, s@.subrange(start as int, i as int).push(c)));
            }
        }
        i = i + 1;
    }
    let last = s.substring_char(start, n).to_owned();
    let ghost before = r@.map_values(|t: String| t@);
    r.push(last);
    proof {
        assert(s@.take(n as int) =~= s@);
        assert(r@.map_values(|t: String| t@) =~= before.push(s@.subrange(start as int, n as int)));
        assert forall|j: int| 0 <= j < r@.len() implies #[trigger] r@[j]@ == pieces(s@, sep)[j] by {
            assert(r@.map_values(|t: String| t@)[j] == r@[j]@);
        }
    }
    r
}

proof fn lemma_digits_value_grows(s: Seq<char>, k: int)
    requires
        forall|j: int| 0 <= j < s.len() ==> is_digit(#[trigger] s[j]),
        0 <= k <= s.len(),
    ensures
        digits_value(s) >= digits_value(s.take(k)),
        digits_value(s) >= 0,
    decreases s.len(),
{
    if s.len() > 0 {
        let p = s.drop_last();
        assert forall|j: int| 0 <= j < p.len() implies is_digit(#[trigger] p[j]) by {
            assert(p[j] == s[j]);
        }
        if k == s.len() {
            assert(s.take(k) =~= s);
            lemma_digits_value_grows(p, 0);
        } else {
            assert(p.take(k) =~= s.take(k));
            lemma_digits_value_grows(p, k);
        }
    }
}

/// The decimal integer s, where it is one and fits in 32 signed bits.
pub(crate) fn parse_i32(s: &str) -> (r: Option<i32>)
    ensures
        r == i32_literal(s@),
{
    let n = s.unicode_len();
    if n == 0 {
        return None;
    }
    let c0 = s.get_char(0);
    let signed = c0 == '+' || c0 == '-';
    let start: usize = if signed {
        1
    } else {
        0
    };
    let ghost body = s@.subrange(start as int, n as int);
    proof {
        if signed {
            assert(body =~= s@.drop_first());
        } else {
            assert(body =~= s@);
        }
    }
    if start == n {
        return None;
    }
    let mut v: i64 = 0;
    let mut i = start;
    assert(body.take(0) =~= Seq::<char>::empty());
    while i < n
        invariant
            n == s@.len(),
            start < n,
            start <= i <= n,
            body == s@.subrange(start as int, n as int),
            c0 == s@[0],
            signed == (c0 == '+' || c0 == '-'),
            signed ==> body == s@.drop_first(),
            !signed ==> body == s@,
            v == digits_value(body.take(i - start)),
            0 <= v <= 0x8000_0000,
            forall|j: int| 0 <= j < i - start ==> is_digit(#[trigger] body[j]),
        decreases n - i,
    {
        let c = s.get_char(i);
        assert(body[i - start] == c);
        if !('0' <= c && c <= '9') {
            assert(!all_digits(body));
            assert(integer_literal(s@) is None);
            return None;
        }
        assert(body.take(i - start + 1).drop_last() =~= body.take(i - start));
        v = v * 10 + (c as u32 - '0' as u32) as i64;
        if v > 0x8000_0000 {
            proof {
                if all_digits(body) {
                    lemma_digits_value_grows(body, i - start + 1);
                    assert(digits_value(body) > 0x8000_0000);
                }
                assert(i32_literal(s@) is None);
            }
            return None;
        }
        i = i + 1;
    }
    assert(body.take(n - start) =~= body);
    if c0 == '-' {
        Some((-v) as i32)
    } else if v > 0x7fff_ffff {
        None
    } else {
        Some(v as i32)
    }
}

pub open spec fn is_sign(c: char) -> bool {
    c == '+' || c == '-'
}

pub open spec fn is_exp_mark(c: char) -> bool {
    c == 'e' || c == 'E'
}

/// Every character of s is a digit (s may be empty).
pub open spec fn digits_only(s: Seq<char>) -> bool {
    forall|j: int| 0 <= j < s.len() ==> is_digit(#[trigger] s[j])
}

/// The mantissa of a number: digits, or digits with one point among them,
/// with at least one digit ("1", "1.", ".5", "1.5").
pub open spec fn mantissa(m: Seq<char>) -> bool {
    (m.len() > 0 && digits_only(m)) || exists|i: int|
        0 <= i < m.len() && m[i] == '.' && m.len() >= 2 && digits_only(m.subrange(0, i))
            && digits_only(m.subrange(i + 1, m.len() as int))
}

/// An exponent: 'e' or 'E', an optional sign, at least one digit.
pub open spec fn exponent(e: Seq<char>) -> bool {
    e.len() >= 2 && is_exp_mark(e[0]) && if is_sign(e[1]) {
        e.len() >= 3 && digits_only(e.subrange(2, e.len() as int))
    } else {
        digits_only(e.subrange(1, e.len() as int))
    }
}

/// A mantissa, optionally followed by an exponent.
pub open spec fn unsigned_number(b: Seq<char>) -> bool {
    mantissa(b) || exists|i: int|
        0 < i < b.len() && mantissa(b.subrange(0, i)) && exponent(b.subrange(i, b.len() as int))
}

/// A finite decimal number literal:
///   [sign] (digits | digits '.' [digits] | '.' digits) [('e' | 'E') [sign] digits]
pub open spec fn number_literal(s: Seq<char>) -> bool {
    if s.len() > 0 && is_sign(s[0]) {
        unsigned_number(s.subrange(1, s.len() as int))
    } else {
        unsigned_number(s)
    }
}

/// Whether s[from..to) holds only digits.
fn digits_between(s: &str, from: usize, to: usize) -> (r: bool)
    requires
        from <= to <= s@.len(),
    ensures
        r == digits_only(s@.subrange(from as int, to as int)),
{
    let mut i = from;
    while i < to
        invariant
            from <= i <= to,
            to <= s@.len(),
            forall|j: int| from <= j < i ==> is_digit(#[trigger] s@[j]),
        decreases to - i,
    {
        let c = s.get_char(i);
        if !('0' <= c && c <= '9') {
            assert(s@.subrange(from as int, to as int)[i - from] == c);
            return false;
        }
        i = i + 1;
    }
    assert forall|j: int| 0 <= j < to - from implies is_digit(#[trigger] s@.subrange(from as int, to as int)[j]) by {
        assert(s@.subrange(from as int, to as int)[j] == s@[from + j]);
    }
    true
}

/// The first index in [from, to) whose character is c (or an exponent mark,
/// for `exp`), or `to` where there is none.
fn find_mark(s: &str, from: usize, to: usize, c: char, exp: bool) -> (r: usize)
    requires
        from <= to <= s@.len(),
    ensures
        from <= r <= to,
        forall|j: int| from <= j < r ==> !(if exp { is_exp_mark(#[trigger] s@[j]) } else { s@[j] == c }),
        r < to ==> (if exp { is_exp_mark(s@[r as int]) } else { s@[r as int] == c }),
{
    let mut i = from;
    while i < to
        invariant
            from <= i <= to,
            to <= s@.len(),
            forall|j: int| from <= j < i ==> !(if exp { is_exp_mark(#[trigger] s@[j]) } else { s@[j] == c }),
        decreases to - i,
    {
        let d = s.get_char(i);
        let hit = if exp {
            d == 'e' || d == 'E'
        } else {
            d == c
        };
        if hit {
            return i;
        }
        i = i + 1;
    }
    to
}

/// Whether s[from..to) is a mantissa.
fn is_mantissa(s: &str, from: usize, to: usize) -> (r: bool)
    requires
        from <= to <= s@.len(),
    ensures
        r == mantissa(s@.subrange(from as int, to as int)),
{
    let ghost m = s@.subrange(from as int, to as int);
    let d = find_mark(s, from, to, '.', false);
    if d == to {
        let r = to > from && digits_between(s, from, to);
        proof {
            if exists|i: int| 0 <= i < m.len() && m[i] == '.' && m.len() >= 2 && digits_only(m.subrange(0, i))
                && digits_only(m.subrange(i + 1, m.len() as int)) {
                let i = choose|i: int| 0 <= i < m.len() && m[i] == '.' && m.len() >= 2 && digits_only(m.subrange(0, i))
                    && digits_only(m.subrange(i + 1, m.len() as int));
                assert(m[i] == s@[from + i]);
            }
        }
        r
    } else {
        let ghost k = (d - from) as int;
        assert(m[k] == '.');
        let before = digits_between(s, from, d);
        let after = digits_between(s, d + 1, to);
        let r = to - from >= 2 && before && after;
        proof {
            assert(m.subrange(0, k) =~= s@.subrange(from as int, d as int));
            assert(m.subrange(k + 1, m.len() as int) =~= s@.subrange(d + 1, to as int));
            assert(!digits_only(m)) by {
                assert(!is_digit(m[k]));
            }
            if exists|i: int| 0 <= i < m.len() && m[i] == '.' && m.len() >= 2 && digits_only(m.subrange(0, i))
                && digits_only(m.subrange(i + 1, m.len() as int)) {
                let i = choose|i: int| 0 <= i < m.len() && m[i] == '.' && m.len() >= 2 && digits_only(m.subrange(0, i))
                    && digits_only(m.subrange(i + 1, m.len() as int));
                if i < k {
                    assert(m[i] == s@[from + i]);
                } else if i > k {
                    assert(m.subrange(0, i)[k] == m[k]);
                }
            }
        }
        r
    }
}

/// Whether s[from..to) is an exponent.
fn is_exponent(s: &str, from: usize, to: usize) -> (r: bool)
    requires
        from <= to <= s@.len(),
    ensures
        r == exponent(s@.subrange(from as int, to as int)),
{
    let ghost e = s@.subrange(from as int, to as int);
    if to - from < 2 {
        return false;
    }
    let c0 = s.get_char(from);
    let c1 = s.get_char(from + 1);
    assert(e[0] == c0 && e[1] == c1);
    if !(c0 == 'e' || c0 == 'E') {
        return false;
    }
    if c1 == '+' || c1 == '-' {
        assert(e.subrange(2, e.len() as int) =~= s@.subrange(from + 2, to as int));
        to - from >= 3 && digits_between(s, from + 2, to)
    } else {
        assert(e.subrange(1, e.len() as int) =~= s@.subrange(from + 1, to as int));
        digits_between(s, from + 1, to)
    }
}

proof fn lemma_mantissa_has_no_mark(m: Seq<char>, j: int)
    requires
        mantissa(m),
        0 <= j < m.len(),
    ensures
        !is_exp_mark(m[j]),
{
    if !(m.len() > 0 && digits_only(m)) {
        let i = choose|i: int| 0 <= i < m.len() && m[i] == '.' && m.len() >= 2 && digits_only(m.subrange(0, i))
            && digits_only(m.subrange(i + 1, m.len() as int));
        if j < i {
            assert(m.subrange(0, i)[j] == m[j]);
        } else if j > i {
            assert(m.subrange(i + 1, m.len() as int)[j - i - 1] == m[j]);
        }
    }
}

/// Whether s[from..n) is a mantissa with an optional exponent.
fn is_unsigned_number(s: &str, from: usize, n: usize) -> (r: bool)
    requires
        from <= n,
        n == s@.len(),
    ensures
        r == unsigned_number(s@.subrange(from as int, n as int)),
{
    let ghost b = s@.subrange(from as int, n as int);
    let p = find_mark(s, from, n, 'e', true);
    if p == n {
        let r = is_mantissa(s, from, n);
        proof {
            if exists|i: int| 0 < i < b.len() && mantissa(b.subrange(0, i)) && exponent(b.subrange(i, b.len() as int)) {
                let i = choose|i: int| 0 < i < b.len() && mantissa(b.subrange(0, i)) && exponent(b.subrange(i, b.len() as int));
                assert(b.subrange(i, b.len() as int)[0] == s@[from + i]);
            }
        }
        r
    } else {
        let ghost k = (p - from) as int;
        let head = is_mantissa(s, from, p);
        let tail = is_exponent(s, p, n);
        let r = p > from && head && tail;
        proof {
            assert(b.subrange(0, k) =~= s@.subrange(from as int, p as int));
            assert(b.subrange(k, b.len() as int) =~= s@.subrange(p as int, n as int));
            assert(is_exp_mark(b[k]));
            if mantissa(b) {
                lemma_mantissa_has_no_mark(b, k);
            }
            if exists|i: int| 0 < i < b.len() && mantissa(b.subrange(0, i)) && exponent(b.subrange(i, b.len() as int)) {
                let i = choose|i: int| 0 < i < b.len() && mantissa(b.subrange(0, i)) && exponent(b.subrange(i, b.len() as int));
                if i < k {
                    assert(b.subrange(i, b.len() as int)[0] == s@[from + i]);
                } else if i > k {
                    lemma_mantissa_has_no_mark(b.subrange(0, i), k);
                    assert(b.subrange(0, i)[k] == b[k]);
                }
            }
        }
        r
    }
}

/// Whether s is a finite decimal number literal.
pub fn is_number(s: &str) -> (r: bool)
    ensures
        r == number_literal(s@),
{
    let n = s.unicode_len();
    if n > 0 {
        let c = s.get_char(0);
        if c == '+' || c == '-' {
            return is_unsigned_number(s, 1, n);
        }
    }
    assert(s@.subrange(0, n as int) =~= s@);
    is_unsigned_number(s, 0, n)
}

} // verus!
