//! Text as sequences of characters: trimming, searching and comparing.

use vstd::prelude::*;
use vstd::string::*;

verus! {

/// `String::push` appends one character at the end and leaves what was there before.
pub assume_specification[ String::push ](s: &mut String, c: char)
    ensures
        final(s)@ == old(s)@.push(c),
;

/// The characters with Unicode's `White_Space` property.
pub open spec fn is_white_space(c: char) -> bool {
    let u = c as u32;
    ||| 0x9 <= u <= 0xD
    ||| u == 0x20
    ||| u == 0x85
    ||| u == 0xA0
    ||| u == 0x1680
    ||| 0x2000 <= u <= 0x200A
    ||| u == 0x2028
    ||| u == 0x2029
    ||| u == 0x202F
    ||| u == 0x205F
    ||| u == 0x3000
}

/// `s` without the white space at its two ends.
pub open spec fn trimmed(s: Seq<char>) -> Seq<char>
    decreases s.len(),
{
    if s.len() > 0 && is_white_space(s[0]) {
        trimmed(s.drop_first())
    } else if s.len() > 0 && is_white_space(s.last()) {
        trimmed(s.drop_last())
    } else {
        s
    }
}

/// `p` stands in `s` from index `i` on.
pub open spec fn occurs_at(s: Seq<char>, p: Seq<char>, i: int) -> bool {
    &&& 0 <= i
    &&& i + p.len() <= s.len()
    &&& s.subrange(i, i + p.len()) == p
}

/// `p` stands somewhere in `s`.
pub open spec fn occurs(s: Seq<char>, p: Seq<char>) -> bool {
    exists|i: int| occurs_at(s, p, i)
}

/// `i` is the smallest index at which `p` stands in `s`.
pub open spec fn is_first(s: Seq<char>, p: Seq<char>, i: int) -> bool {
    &&& occurs_at(s, p, i)
    &&& forall|j: int| occurs_at(s, p, j) ==> i <= j
}

/// `i` is the largest index at which `p` stands in `s`.
pub open spec fn is_last(s: Seq<char>, p: Seq<char>, i: int) -> bool {
    &&& occurs_at(s, p, i)
    &&& forall|j: int| occurs_at(s, p, j) ==> j <= i
}

/// The smallest index at which `p` stands in `s`.
pub open spec fn first_of(s: Seq<char>, p: Seq<char>) -> Option<int> {
    if occurs(s, p) {
        Some(choose|i: int| is_first(s, p, i))
    } else {
        None
    }
}

/// The largest index at which `p` stands in `s`.
pub open spec fn last_of(s: Seq<char>, p: Seq<char>) -> Option<int> {
    if occurs(s, p) {
        Some(choose|i: int| is_last(s, p, i))
    } else {
        None
    }
}

/// `s` begins with `p`.
pub open spec fn begins(s: Seq<char>, p: Seq<char>) -> bool {
    occurs_at(s, p, 0)
}

/// The views of a sequence of strings.
pub open spec fn texts(v: Seq<String>) -> Seq<Seq<char>> {
    v.map_values(|s: String| s@)
}

/// Cutting `s` down to `[a, b)` is trimming it, when only white space is cut
/// and what is left does not begin or end with white space.
pub proof fn lemma_trimmed(s: Seq<char>, a: int, b: int)
    requires
        0 <= a <= b <= s.len(),
        forall|i: int| 0 <= i < a ==> is_white_space(s[i]),
        forall|i: int| b <= i < s.len() ==> is_white_space(s[i]),
        a < b ==> !is_white_space(s[a]) && !is_white_space(s[b - 1]),
    ensures
        trimmed(s) == s.subrange(a, b),
    decreases s.len(),
{
    if a > 0 {
        lemma_trimmed(s.drop_first(), a - 1, b - 1);
        assert(s.drop_first().subrange(a - 1, b - 1) =~= s.subrange(a, b));
    } else if b < s.len() {
        if a == b {
            lemma_trimmed(s.drop_first(), 0, 0);
            assert(s.drop_first().subrange(0, 0) =~= s.subrange(a, b));
        } else {
            lemma_trimmed(s.drop_last(), a, b);
            assert(s.drop_last().subrange(a, b) =~= s.subrange(a, b));
        }
    } else {
        assert(s.subrange(a, b) =~= s);
    }
}

/// Trimming is idempotent, keeps a contiguous part and leaves no white space at the ends.
pub proof fn law_trimmed(s: Seq<char>)
    ensures
        trimmed(trimmed(s)) == trimmed(s),
        trimmed(s).len() > 0 ==> !is_white_space(trimmed(s)[0]) && !is_white_space(
            trimmed(s).last(),
        ),
        occurs(s, trimmed(s)),
    decreases s.len(),
{
    if s.len() > 0 && is_white_space(s[0]) {
        let r = s.drop_first();
        law_trimmed(r);
        let i = choose|i: int| occurs_at(r, trimmed(r), i);
        assert(s.subrange(i + 1, i + 1 + trimmed(r).len()) =~= r.subrange(i, i + trimmed(r).len()));
        assert(occurs_at(s, trimmed(s), i + 1));
    } else if s.len() > 0 && is_white_space(s.last()) {
        let r = s.drop_last();
        law_trimmed(r);
        let i = choose|i: int| occurs_at(r, trimmed(r), i);
        assert(s.subrange(i, i + trimmed(r).len()) =~= r.subrange(i, i + trimmed(r).len()));
        assert(occurs_at(s, trimmed(s), i));
    } else {
        assert(s.subrange(0, s.len() as int) =~= s);
        assert(occurs_at(s, s, 0));
    }
}

pub proof fn lemma_first(s: Seq<char>, p: Seq<char>, i: int)
    requires
        is_first(s, p, i),
    ensures
        first_of(s, p) == Some(i),
{
}

pub proof fn lemma_last(s: Seq<char>, p: Seq<char>, i: int)
    requires
        is_last(s, p, i),
    ensures
        last_of(s, p) == Some(i),
{
}

/// The first `c` of a text stands where the part without it ends.
pub proof fn lemma_first_char(a: Seq<char>, c: char, b: Seq<char>)
    requires
        forall|i: int| 0 <= i < a.len() ==> #[trigger] a[i] != c,
    ensures
        first_of(a.push(c) + b, seq![c]) == Some(a.len() as int),
{
    let s = a.push(c) + b;
    let n = a.len() as int;
    assert(s.subrange(n, n + 1) =~= seq![c]);
    assert forall|j: int| occurs_at(s, seq![c], j) implies n <= j by {
        assert(s.subrange(j, j + 1)[0] == s[j]);
        if j < n {
            assert(s[j] == a[j]);
        }
    }
    lemma_first(s, seq![c], n);
}

/// A text that stands in another stands there at a first and at a last index.
pub proof fn law_first_of(s: Seq<char>, p: Seq<char>)
    ensures
        first_of(s, p) is Some <==> occurs(s, p),
        last_of(s, p) is Some <==> occurs(s, p),
        occurs(s, p) ==> is_first(s, p, first_of(s, p)->0) && is_last(s, p, last_of(s, p)->0),
{
    if occurs(s, p) {
        let i = choose|i: int| occurs_at(s, p, i);
        lemma_smallest(s, p, i);
        lemma_largest(s, p, i);
    }
}

proof fn lemma_smallest(s: Seq<char>, p: Seq<char>, i: int)
    requires
        occurs_at(s, p, i),
    ensures
        exists|j: int| is_first(s, p, j),
    decreases i,
{
    if forall|j: int| occurs_at(s, p, j) ==> i <= j {
        assert(is_first(s, p, i));
    } else {
        let j = choose|j: int| occurs_at(s, p, j) && j < i;
        lemma_smallest(s, p, j);
    }
}

proof fn lemma_largest(s: Seq<char>, p: Seq<char>, i: int)
    requires
        occurs_at(s, p, i),
    ensures
        exists|j: int| is_last(s, p, j),
    decreases s.len() - i,
{
    if forall|j: int| occurs_at(s, p, j) ==> j <= i {
        assert(is_last(s, p, i));
    } else {
        let j = choose|j: int| occurs_at(s, p, j) && i < j;
        lemma_largest(s, p, j);
    }
}

/// Whether `c` has the `White_Space` property.
pub fn white_space(c: char) -> (r: bool)
    ensures
        r == is_white_space(c),
{
    let u: u32 = c as u32;
    (0x9 <= u && u <= 0xD) || u == 0x20 || u == 0x85 || u == 0xA0 || u == 0x1680 || (0x2000 <= u
        && u <= 0x200A) || u == 0x2028 || u == 0x2029 || u == 0x202F || u == 0x205F || u == 0x3000
}

/// The characters of `s`.
pub fn chars_of(s: &str) -> (r: Vec<char>)
    ensures
        r@ == s@,
{
    let mut out: Vec<char> = Vec::new();
    for c in it: s.chars()
        invariant
            out@ == it.seq().take(it.index() as int),
            it.seq() == s@,
    {
        out.push(c);
    }
    out
}

/// `s` without the white space at its two ends.
pub fn trim<'a>(s: &'a str) -> (r: &'a str)
    ensures
        r@ == trimmed(s@),
{
    let cs = chars_of(s);
    let n: usize = cs.len();
    let mut a: usize = 0;
    while a < n && white_space(cs[a])
        invariant
            a <= n == cs@.len(),
            forall|i: int| 0 <= i < a ==> is_white_space(cs@[i]),
        decreases n - a,
    {
        a = a + 1;
    }
    let mut b: usize = n;
    while a < b && white_space(cs[b - 1])
        invariant
            a <= b <= n == cs@.len(),
            forall|i: int| b <= i < n ==> is_white_space(cs@[i]),
        decreases b,
    {
        b = b - 1;
    }
    proof {
        lemma_trimmed(s@, a as int, b as int);
    }
    s.substring_char(a, b)
}

/// Whether `p` stands in `s` at index `i`.
fn matches_at(s: &[char], p: &[char], i: usize) -> (r: bool)
    requires
        i + p@.len() <= s@.len(),
    ensures
        r == occurs_at(s@, p@, i as int),
{
    let n: usize = s.len();
    let ghost part = s@.subrange(i as int, i + p@.len());
    for k in 0..p.len()
        invariant
            i + p@.len() <= n == s@.len(),
            part == s@.subrange(i as int, i + p@.len()),
            forall|j: int| 0 <= j < k ==> part[j] == p@[j],
    {
        if s[i + k] != p[k] {
            assert(part[k as int] != p@[k as int]);
            return false;
        }
    }
    assert(part =~= p@);
    true
}

/// Whether `s` begins with `p`.
pub fn starts_with(s: &[char], p: &[char]) -> (r: bool)
    ensures
        r == begins(s@, p@),
{
    p.len() <= s.len() && matches_at(s, p, 0)
}

/// The smallest index at which `p` stands in `s`.
pub fn find_first(s: &[char], p: &[char]) -> (r: Option<usize>)
    ensures
        r is Some <==> first_of(s@, p@) is Some,
        r matches Some(i) ==> first_of(s@, p@) == Some(i as int) && i + p@.len() <= s@.len(),
{
    if p.len() > s.len() {
        return None;
    }
    let top: usize = s.len() - p.len();
    let mut i: usize = 0;
    loop
        invariant
            top + p@.len() == s@.len(),
            i <= top,
            forall|j: int| 0 <= j < i ==> !occurs_at(s@, p@, j),
        decreases top - i,
    {
        if matches_at(s, p, i) {
            proof {
                lemma_first(s@, p@, i as int);
            }
            return Some(i);
        }
        if i == top {
            return None;
        }
        i = i + 1;
    }
}

/// The largest index at which `p` stands in `s`.
pub fn find_last(s: &[char], p: &[char]) -> (r: Option<usize>)
    ensures
        r is Some <==> last_of(s@, p@) is Some,
        r matches Some(i) ==> last_of(s@, p@) == Some(i as int) && i + p@.len() <= s@.len(),
{
    if p.len() > s.len() {
        return None;
    }
    let top: usize = s.len() - p.len();
    let mut i: usize = top;
    loop
        invariant
            top + p@.len() == s@.len(),
            i <= top,
            forall|j: int| i < j ==> !occurs_at(s@, p@, j),
        decreases i,
    {
        if matches_at(s, p, i) {
            proof {
                lemma_last(s@, p@, i as int);
            }
            return Some(i);
        }
        if i == 0 {
            return None;
        }
        i = i - 1;
    }
}

/// Whether `p` stands somewhere in `s`.
pub fn contains(s: &str, p: &str) -> (r: bool)
    ensures
        r == occurs(s@, p@),
{
    find_first(chars_of(s).as_slice(), chars_of(p).as_slice()).is_some()
}

/// Whether `a` and `b` are the same text.
pub fn same_text(a: &str, b: &str) -> (r: bool)
    ensures
        r == (a@ == b@),
{
    let x = chars_of(a);
    let y = chars_of(b);
    if x.len() != y.len() {
        return false;
    }
    for i in 0..x.len()
        invariant
            x@ == a@,
            y@ == b@,
            x@.len() == y@.len(),
            forall|j: int| 0 <= j < i ==> x@[j] == y@[j],
    {
        if x[i] != y[i] {
            return false;
        }
    }
    assert(a@ =~= b@);
    true
}

/// The text of `cs` from index `a` up to, not including, index `b`.
pub fn slice_text(cs: &[char], a: usize, b: usize) -> (r: String)
    requires
        a <= b <= cs@.len(),
    ensures
        r@ == cs@.subrange(a as int, b as int),
{
    let mut out = String::new();
    for i in a..b
        invariant
            a <= b <= cs@.len(),
            out@ == cs@.subrange(a as int, i as int),
    {
        out.push(cs[i]);
        assert(cs@.subrange(a as int, i + 1) =~= cs@.subrange(a as int, i as int).push(
            cs@[i as int],
        ));
    }
    out
}

/// A text stands in every text that is made of it and of what is put round
/// it, and in no other.
pub proof fn law_occurs(s: Seq<char>, p: Seq<char>, a: Seq<char>, b: Seq<char>)
    ensures
        occurs(a + p + b, p),
        occurs(s, p) <==> exists|x: Seq<char>, y: Seq<char>| #[trigger] (x + p + y) == s,
        begins(p + b, p),
        begins(s, p) <==> exists|y: Seq<char>| #[trigger] (p + y) == s,
{
    let n = a.len() as int;
    assert((a + p + b).subrange(n, n + p.len()) =~= p);
    assert(occurs_at(a + p + b, p, n));
    assert((p + b).subrange(0, p.len() as int) =~= p);
    if occurs(s, p) {
        let i = choose|i: int| occurs_at(s, p, i);
        assert(s.take(i) + p + s.skip(i + p.len()) =~= s);
    }
    if exists|x: Seq<char>, y: Seq<char>| #[trigger] (x + p + y) == s {
        let (x, y) = choose|x: Seq<char>, y: Seq<char>| #[trigger] (x + p + y) == s;
        assert(s.subrange(x.len() as int, (x.len() + p.len()) as int) =~= p);
        assert(occurs_at(s, p, x.len() as int));
    }
    if begins(s, p) {
        assert(p + s.skip(p.len() as int) =~= s);
    }
    if exists|y: Seq<char>| #[trigger] (p + y) == s {
        assert(s.subrange(0, p.len() as int) =~= p);
    }
}

/// What is found stands where it is said to, and nowhere before the first or
/// behind the last place.
pub proof fn law_found_place(s: Seq<char>, p: Seq<char>, x: Seq<char>, y: Seq<char>)
    requires
        s == x + p + y,
    ensures
        first_of(s, p) matches Some(i) && 0 <= i <= x.len() && s.subrange(i, i + p.len()) == p,
        last_of(s, p) matches Some(i) && x.len() <= i <= s.len() - p.len() && s.subrange(
            i,
            i + p.len(),
        ) == p,
{
    law_occurs(s, p, x, y);
    law_first_of(s, p);
    assert(s.subrange(x.len() as int, (x.len() + p.len()) as int) =~= p);
    assert(occurs_at(s, p, x.len() as int));
}

/// Outside of `[i, j)` there is only white space in `s`.
pub open spec fn white_space_outside(s: Seq<char>, i: int, j: int) -> bool {
    &&& 0 <= i <= j <= s.len()
    &&& forall|k: int| 0 <= k < i ==> is_white_space(#[trigger] s[k])
    &&& forall|k: int| j <= k < s.len() ==> is_white_space(#[trigger] s[k])
}

proof fn lemma_cut_front(s: Seq<char>, i: int, j: int)
    requires
        s.len() > 0,
        is_white_space(s[0]),
        white_space_outside(s.drop_first(), i, j),
    ensures
        white_space_outside(s, i + 1, j + 1),
        s.subrange(i + 1, j + 1) == s.drop_first().subrange(i, j),
{
    let r = s.drop_first();
    assert(s.subrange(i + 1, j + 1) =~= r.subrange(i, j));
    assert(forall|k: int| 0 < k < s.len() ==> #[trigger] s[k] == r[k - 1]);
}

proof fn lemma_cut_back(s: Seq<char>, i: int, j: int)
    requires
        s.len() > 0,
        is_white_space(s.last()),
        white_space_outside(s.drop_last(), i, j),
    ensures
        white_space_outside(s, i, j),
        s.subrange(i, j) == s.drop_last().subrange(i, j),
{
    let r = s.drop_last();
    assert(s.subrange(i, j) =~= r.subrange(i, j));
    assert(forall|k: int| 0 <= k < r.len() ==> #[trigger] s[k] == r[k]);
}

/// Trimming cuts nothing but white space, at the two ends.
pub proof fn law_trimming_cuts_white_space(s: Seq<char>)
    ensures
        exists|i: int, j: int| #[trigger]
            white_space_outside(s, i, j) && trimmed(s) == s.subrange(i, j),
    decreases s.len(),
{
    if s.len() > 0 && is_white_space(s[0]) {
        let r = s.drop_first();
        law_trimming_cuts_white_space(r);
        let (i, j) = choose|i: int, j: int| #[trigger]
            white_space_outside(r, i, j) && trimmed(r) == r.subrange(i, j);
        lemma_cut_front(s, i, j);
    } else if s.len() > 0 && is_white_space(s.last()) {
        let r = s.drop_last();
        law_trimming_cuts_white_space(r);
        let (i, j) = choose|i: int, j: int| #[trigger]
            white_space_outside(r, i, j) && trimmed(r) == r.subrange(i, j);
        lemma_cut_back(s, i, j);
    } else {
        assert(s.subrange(0, s.len() as int) =~= s);
        assert(white_space_outside(s, 0, s.len() as int));
    }
}

/// White space round a text does not count, once the text is trimmed.
pub proof fn law_trimmed_padded(a: Seq<char>, t: Seq<char>, b: Seq<char>)
    requires
        forall|i: int| 0 <= i < a.len() ==> is_white_space(#[trigger] a[i]),
        forall|i: int| 0 <= i < b.len() ==> is_white_space(#[trigger] b[i]),
        t.len() > 0 ==> !is_white_space(t[0]) && !is_white_space(t.last()),
    ensures
        trimmed(a + t + b) == t,
{
    let s = a + t + b;
    let i = a.len() as int;
    let j = i + t.len();
    assert forall|k: int| 0 <= k < i implies is_white_space(s[k]) by {
        assert(s[k] == a[k]);
    }
    assert forall|k: int| j <= k < s.len() implies is_white_space(s[k]) by {
        assert(s[k] == b[k - j]);
    }
    lemma_trimmed(s, i, j);
    assert(s.subrange(i, j) =~= t);
}

/// A text with a character that is not white space does not trim to nothing.
pub proof fn lemma_not_blank(s: Seq<char>, k: int)
    requires
        0 <= k < s.len(),
        !is_white_space(s[k]),
    ensures
        trimmed(s).len() > 0,
{
    law_trimming_cuts_white_space(s);
}

/// The views of strings are their texts, one for one and in their order.
pub proof fn law_texts(v: Seq<String>, i: int)
    requires
        0 <= i < v.len(),
    ensures
        texts(v).len() == v.len(),
        texts(v)[i] == v[i]@,
{
}

} // verus!
