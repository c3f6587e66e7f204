//! Numbers as text: decimal digits and the grammar of floating-point literals.

use vstd::prelude::*;
use crate::text::{chars_of, trimmed};

verus! {

pub open spec fn is_digit(c: char) -> bool {
    '0' <= c <= '9'
}

pub open spec fn all_digits(s: Seq<char>) -> bool {
    forall|i: int| 0 <= i < s.len() ==> is_digit(#[trigger] s[i])
}

/// The number that a run of decimal digits stands for.
pub open spec fn digits_value(s: Seq<char>) -> nat
    decreases s.len(),
{
    if s.len() == 0 {
        0
    } else {
        digits_value(s.drop_last()) * 10 + (s.last() as int - '0' as int) as nat
    }
}

/// `s` without one leading plus sign.
pub open spec fn without_plus(s: Seq<char>) -> Seq<char> {
    if s.len() > 0 && s[0] == '+' {
        s.drop_first()
    } else {
        s
    }
}

/// What `s` is as an unsigned number no larger than `max`: an optional plus
/// sign, then at least one digit, and nothing else.
pub open spec fn unsigned(s: Seq<char>, max: nat) -> Option<nat> {
    let d = without_plus(s);
    if d.len() > 0 && all_digits(d) && digits_value(d) <= max {
        Some(digits_value(d))
    } else {
        None
    }
}

/// The decimal digits of `n`, without leading zeros.
pub open spec fn decimal(n: nat) -> Seq<char>
    decreases n,
{
    let last = ('0' as u32 + (n % 10) as u32) as char;
    if n < 10 {
        seq![last]
    } else {
        decimal(n / 10).push(last)
    }
}

/// `s` without one leading sign.
pub open spec fn without_sign(s: Seq<char>) -> Seq<char> {
    if s.len() > 0 && (s[0] == '+' || s[0] == '-') {
        s.drop_first()
    } else {
        s
    }
}

/// `a` is `b`, but for the case of ASCII letters; `b` is in lower case.
pub open spec fn same_letters(a: Seq<char>, b: Seq<char>) -> bool {
    &&& a.len() == b.len()
    &&& forall|i: int| 0 <= i < a.len() ==> (#[trigger] ascii_lower(a[i])) == b[i]
}

pub open spec fn ascii_lower(c: char) -> char {
    if 'A' <= c <= 'Z' {
        (c as u32 + 32) as char
    } else {
        c
    }
}

/// Digits with at most one point among them, and at least one digit.
pub open spec fn is_mantissa(s: Seq<char>) -> bool {
    ||| s.len() > 0 && all_digits(s)
    ||| s.len() > 1 && exists|p: int|
        #![trigger s[p]]
        0 <= p < s.len() && s[p] == '.' && all_digits(s.take(p)) && all_digits(s.skip(p + 1))
}

/// Nothing, or the letter e, an optional sign and at least one digit.
pub open spec fn is_exponent(s: Seq<char>) -> bool {
    ||| s.len() == 0
    ||| (s[0] == 'e' || s[0] == 'E') && without_sign(s.skip(1)).len() > 0 && all_digits(
        without_sign(s.skip(1)),
    )
}

/// A mantissa and an exponent.
pub open spec fn is_number(s: Seq<char>) -> bool {
    exists|m: int|
        0 <= m <= s.len() && #[trigger] is_mantissa(s.take(m)) && is_exponent(s.skip(m))
}

/// `s` is a floating-point literal: an optional sign, then an infinity, a
/// not-a-number or a number.
pub open spec fn is_float_text(s: Seq<char>) -> bool {
    let u = without_sign(s);
    ||| same_letters(u, seq!['i', 'n', 'f'])
    ||| same_letters(u, seq!['i', 'n', 'f', 'i', 'n', 'i', 't', 'y'])
    ||| same_letters(u, seq!['n', 'a', 'n'])
    ||| is_number(u)
}

/// The number that `s` is, as an unsigned number no larger than `max`.
pub fn parse_unsigned(s: &str, max: u64) -> (r: Option<u64>)
    ensures
        r is Some <==> unsigned(s@, max as nat) is Some,
        r matches Some(v) ==> unsigned(s@, max as nat) == Some(v as nat),
{
    let cs = chars_of(s);
    let n: usize = cs.len();
    let start: usize = if n > 0 && cs[0] == '+' {
        1
    } else {
        0
    };
    let ghost d = without_plus(s@);
    assert(d =~= cs@.subrange(start as int, n as int));
    if start == n {
        return None;
    }
    let mut v: u64 = 0;
    let mut over: bool = false;
    assert(d.take(0) =~= Seq::<char>::empty());
    for i in start..n
        invariant
            start <= n == cs@.len(),
            d == cs@.subrange(start as int, n as int),
            d == without_plus(s@),
            all_digits(d.take(i - start)),
            !over ==> v == digits_value(d.take(i - start)) && v <= max,
            over ==> digits_value(d.take(i - start)) > max,
    {
        let c = cs[i];
        let ghost k: int = i - start;
        assert(d[k] == c);
        if c < '0' || '9' < c {
            assert(!is_digit(d[k]));
            return None;
        }
        let x: u64 = (c as u32 - '0' as u32) as u64;
        assert(d.take(k + 1).drop_last() =~= d.take(k));
        assert(d.take(k + 1) =~= d.take(k).push(c));
        assert(d.take(k + 1).last() == c);
        assert(digits_value(d.take(k + 1)) == digits_value(d.take(k)) * 10 + x);
        assert(all_digits(d.take(k + 1)));
        if !over {
            if v > max / 10 || x > max - v * 10 {
                over = true;
            } else {
                v = v * 10 + x;
            }
        }
    }
    assert(d.take(n - start) =~= d);
    if over {
        None
    } else {
        Some(v)
    }
}

/// The decimal digits of `n`.
pub fn decimal_text(n: u64) -> (r: String)
    ensures
        r@ == decimal(n as nat),
    decreases n,
{
    let last: char = (48u8 + (n % 10) as u8) as char;
    let mut s = if n < 10 {
        String::new()
    } else {
        decimal_text(n / 10)
    };
    s.push(last);
    assert(s@ =~= decimal(n as nat));
    s
}

/// Reading the digits of a number gives the number back.
pub proof fn law_decimal_round_trip(n: nat, max: nat)
    requires
        n <= max,
    ensures
        unsigned(decimal(n), max) == Some(n),
{
    lemma_decimal(n);
}

/// A number is written with at least one character, all of them digits.
pub proof fn lemma_decimal(n: nat)
    ensures
        decimal(n).len() > 0,
        all_digits(decimal(n)),
        digits_value(decimal(n)) == n,
    decreases n,
{
    let last = ('0' as u32 + (n % 10) as u32) as char;
    if n < 10 {
        assert(decimal(n).drop_last() =~= Seq::<char>::empty());
    } else {
        lemma_decimal(n / 10);
        assert(decimal(n).drop_last() =~= decimal(n / 10));
    }
    assert(decimal(n).last() == last);
    assert(last as int - '0' as int == n % 10);
    assert(digits_value(decimal(n)) == digits_value(decimal(n).drop_last()) * 10 + n % 10);
}

/// Digits hold no white space: trimming leaves them as they are.
pub proof fn lemma_trimmed_decimal(n: nat)
    ensures
        trimmed(decimal(n)) == decimal(n),
{
    lemma_decimal(n);
    assert(is_digit(decimal(n)[0]));
    assert(is_digit(decimal(n)[decimal(n).len() - 1]));
}

/// The end of the run of digits that begins at `from`.
fn digits_end(cs: &[char], from: usize) -> (r: usize)
    requires
        from <= cs@.len(),
    ensures
        from <= r <= cs@.len(),
        forall|i: int| from <= i < r ==> is_digit(#[trigger] cs@[i]),
        r < cs@.len() ==> !is_digit(cs@[r as int]),
{
    let mut i: usize = from;
    while i < cs.len() && '0' <= cs[i] && cs[i] <= '9'
        invariant
            from <= i <= cs@.len(),
            forall|j: int| from <= j < i ==> is_digit(#[trigger] cs@[j]),
        decreases cs@.len() - i,
    {
        i = i + 1;
    }
    i
}

/// Whether the text of `cs` from index `from` on is `word`, but for the case of ASCII letters.
fn is_word(cs: &[char], from: usize, word: &[char]) -> (r: bool)
    requires
        from <= cs@.len(),
    ensures
        r == same_letters(cs@.skip(from as int), word@),
{
    let n: usize = cs.len();
    if n - from != word.len() {
        return false;
    }
    let ghost u = cs@.skip(from as int);
    for i in 0..word.len()
        invariant
            from + word@.len() == n == cs@.len(),
            u == cs@.skip(from as int),
            forall|j: int| 0 <= j < i ==> (#[trigger] ascii_lower(u[j])) == word@[j],
    {
        let c = cs[from + i];
        assert(u[i as int] == c);
        let d: char = if 'A' <= c && c <= 'Z' {
            (c as u8 + 32) as char
        } else {
            c
        };
        assert(d == ascii_lower(c));
        if d != word[i] {
            assert(ascii_lower(u[i as int]) != word@[i as int]);
            return false;
        }
    }
    true
}

/// The index after one sign at index `from`, if there is one.
fn sign_end(cs: &[char], from: usize) -> (r: usize)
    requires
        from <= cs@.len(),
    ensures
        from <= r <= cs@.len(),
        cs@.skip(r as int) == without_sign(cs@.skip(from as int)),
{
    let r: usize = if from < cs.len() && (cs[from] == '+' || cs[from] == '-') {
        from + 1
    } else {
        from
    };
    assert(cs@.skip(r as int) =~= without_sign(cs@.skip(from as int)));
    r
}

/// Whether the text of `cs` from index `a` on is a mantissa and an exponent.
fn number_from(cs: &[char], a: usize) -> (r: bool)
    requires
        a <= cs@.len(),
    ensures
        r == is_number(cs@.skip(a as int)),
{
    let n: usize = cs.len();
    let ghost u = cs@.skip(a as int);
    let j = digits_end(cs, a);
    let pointed: bool = j < n && cs[j] == '.';
    let k = if pointed {
        digits_end(cs, j + 1)
    } else {
        j
    };
    let ghost m: int = k - a;
    let ghost t = u.take(m);
    let ghost rest = u.skip(m);
    assert(rest =~= cs@.skip(k as int));
    proof {
        assert forall|x: int|
            0 <= x <= u.len() && #[trigger] is_mantissa(u.take(x)) && is_exponent(
                u.skip(x),
            ) implies x == m by {
            lemma_longest(cs@, a as int, j as int, k as int, x);
        }
        assert(is_number(u) <==> is_mantissa(t) && is_exponent(rest));
    }
    let digits: usize = if pointed {
        k - a - 1
    } else {
        k - a
    };
    if digits == 0 {
        proof {
            if pointed {
                assert(t[0] == '.');
            }
        }
        return false;
    }
    proof {
        if pointed {
            let p: int = j - a;
            assert(t[p] == '.');
            assert(all_digits(t.take(p)));
            assert(all_digits(t.skip(p + 1)));
        } else {
            assert(all_digits(t));
        }
        assert(is_mantissa(t));
    }
    if k == n {
        return true;
    }
    assert(rest[0] == cs@[k as int]);
    if cs[k] != 'e' && cs[k] != 'E' {
        return false;
    }
    let b = sign_end(cs, k + 1);
    let e = digits_end(cs, b);
    let ghost tail = cs@.skip(b as int);
    assert(rest.skip(1) =~= cs@.skip(k + 1));
    assert(without_sign(rest.skip(1)) == tail);
    if b < n && e == n {
        assert(all_digits(tail));
        true
    } else {
        if e < n {
            assert(tail[e - b] == cs@[e as int]);
        }
        false
    }
}

/// Whether `s` is a floating-point literal.
pub fn float_text(s: &str) -> (r: bool)
    ensures
        r == is_float_text(s@),
{
    let v = chars_of(s);
    let cs = v.as_slice();
    assert(cs@.skip(0) =~= s@);
    let a = sign_end(cs, 0);
    let inf: [char; 3] = ['i', 'n', 'f'];
    let infinity: [char; 8] = ['i', 'n', 'f', 'i', 'n', 'i', 't', 'y'];
    let nan: [char; 3] = ['n', 'a', 'n'];
    assert(inf@ =~= seq!['i', 'n', 'f']);
    assert(infinity@ =~= seq!['i', 'n', 'f', 'i', 'n', 'i', 't', 'y']);
    assert(nan@ =~= seq!['n', 'a', 'n']);
    is_word(cs, a, &inf) || is_word(cs, a, &infinity) || is_word(cs, a, &nan) || number_from(cs, a)
}

/// A number's mantissa reaches as far as its digits and its point do.
proof fn lemma_longest(cs: Seq<char>, a: int, j: int, k: int, x: int)
    requires
        0 <= a <= j <= k <= cs.len(),
        forall|i: int| a <= i < j ==> is_digit(#[trigger] cs[i]),
        j < cs.len() ==> !is_digit(cs[j]),
        j < cs.len() && cs[j] == '.' ==> {
            &&& j + 1 <= k
            &&& forall|i: int| j + 1 <= i < k ==> is_digit(#[trigger] cs[i])
            &&& k < cs.len() ==> !is_digit(cs[k])
        },
        !(j < cs.len() && cs[j] == '.') ==> k == j,
        0 <= x <= cs.len() - a,
        is_mantissa(cs.skip(a).take(x)),
        is_exponent(cs.skip(a).skip(x)),
    ensures
        x == k - a,
{
    let u = cs.skip(a);
    let t = u.take(x);
    assert(forall|i: int| 0 <= i < x ==> t[i] == #[trigger] cs[a + i]);
    let rest = u.skip(x);
    if rest.len() > 0 {
        assert(rest[0] == cs[a + x]);
    }
    if t.len() > 0 && all_digits(t) {
        if j < a + x {
            assert(is_digit(t[j - a]));
        }
        if a + x < j {
            assert(is_digit(cs[a + x]));
        }
    } else {
        let p = choose|p: int|
            #![trigger t[p]]
            0 <= p < t.len() && t[p] == '.' && all_digits(t.take(p)) && all_digits(t.skip(p + 1));
        if j < a + p {
            assert(t.take(p)[j - a] == cs[j]);
        }
        if a + p < j {
            assert(is_digit(cs[a + p]));
        }
        assert(j == a + p);
        if k < a + x {
            assert(t.skip(p + 1)[k - a - p - 1] == cs[k]);
        }
        if a + x < k {
            assert(is_digit(cs[a + x]));
        }
    }
}

/// A number is read from an optional plus sign and digits, of any count, as
/// long as it is not too large, and from nothing else.
pub proof fn law_unsigned(n: nat, max: nat, s: Seq<char>)
    ensures
        unsigned(decimal(n), max) == if n <= max {
            Some(n)
        } else {
            None
        },
        unsigned(seq!['+'] + decimal(n), max) == unsigned(decimal(n), max),
        s.len() > 0 && all_digits(s) ==> unsigned(seq!['0'] + s, max) == unsigned(s, max),
        unsigned(s, max) matches Some(v) ==> v <= max && s.len() > 0 && (forall|i: int|
            0 <= i < s.len() ==> '0' <= #[trigger] s[i] <= '9' || i == 0 && s[i] == '+'),
{
    lemma_decimal(n);
    assert(is_digit(decimal(n)[0]));
    assert((seq!['+'] + decimal(n)).drop_first() =~= decimal(n));
    if s.len() > 0 && all_digits(s) {
        assert(is_digit(s[0]));
        let z = seq!['0'] + s;
        assert forall|i: int| 0 <= i < z.len() implies is_digit(#[trigger] z[i]) by {
            if i > 0 {
                assert(z[i] == s[i - 1]);
            }
        }
        lemma_leading_zero(s);
    }
    if unsigned(s, max) is Some {
        let d = without_plus(s);
        assert forall|i: int| 0 <= i < s.len() implies '0' <= #[trigger] s[i] <= '9' || i == 0
            && s[i] == '+' by {
            if s[0] == '+' {
                if i > 0 {
                    assert(is_digit(d[i - 1]));
                }
            } else {
                assert(is_digit(d[i]));
            }
        }
    }
}

proof fn lemma_leading_zero(s: Seq<char>)
    ensures
        digits_value(seq!['0'] + s) == digits_value(s),
    decreases s.len(),
{
    let z = seq!['0'] + s;
    if s.len() == 0 {
        assert(z.drop_last() =~= Seq::<char>::empty());
        assert(digits_value(Seq::<char>::empty()) == 0);
        assert(z.last() == '0');
    } else {
        lemma_leading_zero(s.drop_last());
        assert(z.drop_last() =~= seq!['0'] + s.drop_last());
        assert(z.last() == s.last());
    }
}

/// No number but nought is written with a nought in front.
pub proof fn law_decimal_has_no_leading_zero(n: nat)
    ensures
        n > 0 ==> decimal(n)[0] != '0',
        n == 0 ==> decimal(n) == seq!['0'],
    decreases n,
{
    if n >= 10 {
        law_decimal_has_no_leading_zero(n / 10);
        lemma_decimal(n / 10);
    }
}

/// A character that a floating-point literal may hold.
pub open spec fn is_float_char(c: char) -> bool {
    '0' <= c <= '9' || c == '+' || c == '-' || c == '.' || 'a' <= c <= 'z' || 'A' <= c <= 'Z'
}

/// A floating-point literal is not empty and holds digits, signs, points and
/// letters only: no white space and no percent sign.
pub proof fn law_float_text_is_plain(s: Seq<char>)
    requires
        is_float_text(s),
    ensures
        s.len() > 0,
        forall|i: int| 0 <= i < s.len() ==> is_float_char(#[trigger] s[i]),
{
    let u = without_sign(s);
    if is_number(u) {
        let m = choose|m: int|
            0 <= m <= u.len() && #[trigger] is_mantissa(u.take(m)) && is_exponent(u.skip(m));
        let t = u.take(m);
        let e = u.skip(m);
        assert forall|i: int| 0 <= i < u.len() implies is_float_char(#[trigger] u[i]) by {
            if i < m {
                assert(t[i] == u[i]);
                if !(t.len() > 0 && all_digits(t)) {
                    let p = choose|p: int|
                        #![trigger t[p]]
                        0 <= p < t.len() && t[p] == '.' && all_digits(t.take(p)) && all_digits(
                            t.skip(p + 1),
                        );
                    if i < p {
                        assert(is_digit(t.take(p)[i]));
                    } else if i > p {
                        assert(is_digit(t.skip(p + 1)[i - p - 1]));
                    }
                } else {
                    assert(is_digit(t[i]));
                }
            } else {
                assert(e[i - m] == u[i]);
                let w = without_sign(e.skip(1));
                if i > m {
                    assert(e.skip(1)[i - m - 1] == u[i]);
                    if w.len() == e.len() - 1 {
                        assert(is_digit(w[i - m - 1]));
                    } else if i > m + 1 {
                        assert(is_digit(w[i - m - 2]));
                    }
                }
            }
        }
    } else {
        assert forall|i: int| 0 <= i < u.len() implies is_float_char(#[trigger] u[i]) by {
            assert('a' <= ascii_lower(u[i]) <= 'z');
        }
    }
    assert forall|i: int| 0 <= i < s.len() implies is_float_char(#[trigger] s[i]) by {
        if u.len() == s.len() {
            assert(u[i] == s[i]);
        } else if i > 0 {
            assert(u[i - 1] == s[i]);
        }
    }
}

/// Whole numbers, and numbers with a point and digits behind it, are
/// floating-point literals, with a sign and without.
pub proof fn law_numbers_are_float_texts(n: nat, frac: Seq<char>)
    requires
        all_digits(frac),
    ensures
        is_float_text(decimal(n)),
        is_float_text(decimal(n) + seq!['.'] + frac),
        is_float_text(seq!['-'] + decimal(n) + seq!['.'] + frac),
{
    let d = decimal(n);
    lemma_decimal(n);
    assert(is_digit(d[0]));
    assert(d.take(d.len() as int) =~= d);
    assert(d.skip(d.len() as int) =~= Seq::<char>::empty());
    assert(is_mantissa(d.take(d.len() as int)));
    assert(is_number(d));
    let f = d + seq!['.'] + frac;
    let k = d.len() as int;
    assert(f[k] == '.');
    assert(f.take(k) =~= d);
    assert(f.skip(k + 1) =~= frac);
    assert(f.take(f.len() as int) =~= f);
    assert(f.skip(f.len() as int) =~= Seq::<char>::empty());
    assert(is_mantissa(f.take(f.len() as int)));
    assert(is_number(f));
    assert(f[0] == d[0]);
    let g = seq!['-'] + d + seq!['.'] + frac;
    assert(g.drop_first() =~= f);
}

} // verus!
