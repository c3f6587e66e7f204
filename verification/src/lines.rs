//! What the download programs print.

use vstd::prelude::*;
use vstd::string::*;
use crate::number::{
    decimal, float_text, is_digit, is_float_char, is_float_text, law_decimal_round_trip,
    law_float_text_is_plain, lemma_decimal, lemma_trimmed_decimal, parse_unsigned, unsigned,
};
use crate::text::{
    chars_of, find_first, find_last, first_of, is_white_space, last_of, law_first_of, law_trimmed,
    law_trimmed_padded, law_trimming_cuts_white_space, lemma_first, lemma_first_char, lemma_last,
    occurs, occurs_at, slice_text, trim, trimmed, white_space_outside,
};

verus! {

/// The counter `[current/total]` behind the last `][` of a line.
pub open spec fn counter_of(line: Seq<char>) -> Option<(u32, u32)> {
    match last_of(line, "]["@) {
        None => None,
        Some(start) => {
            let after = line.skip(start + 2);
            let inner = match first_of(after, seq![']']) {
                Some(e) => after.take(e),
                None => after,
            };
            match first_of(inner, seq!['/']) {
                None => None,
                Some(i) => {
                    let a = unsigned(trimmed(inner.take(i)), u32::MAX as nat);
                    let b = unsigned(trimmed(inner.skip(i + 1)), u32::MAX as nat);
                    match (a, b) {
                        (Some(x), Some(y)) => Some((x as u32, y as u32)),
                        _ => None,
                    }
                },
            }
        },
    }
}

/// The number between the first `Progress:` of a line and the next percent sign.
pub open spec fn percent_of(line: Seq<char>) -> Option<Seq<char>> {
    match first_of(line, "Progress:"@) {
        None => None,
        Some(i) => {
            let rest = trimmed(line.skip(i + 9));
            match first_of(rest, seq!['%']) {
                None => None,
                Some(e) => {
                    let t = trimmed(rest.take(e));
                    if is_float_text(t) {
                        Some(t)
                    } else {
                        None
                    }
                },
            }
        },
    }
}

/// `s`, cut after `max` characters; an ellipsis stands for what was cut.
pub open spec fn shortened(s: Seq<char>, max: nat) -> Seq<char> {
    if s.len() <= max {
        s
    } else {
        s.take(max as int).push('\u{2026}')
    }
}

/// The counter `[current/total]` behind the last `][` of a line.
pub fn parse_gallery_dl_counter(line: &str) -> (r: Option<(u32, u32)>)
    ensures
        r == counter_of(line@),
{
    let v = chars_of(line);
    let n: usize = v.len();
    let mark: [char; 2] = [']', '['];
    proof {
        reveal_strlit("][");
        assert(mark@ =~= "]["@);
    }
    let start: usize = match find_last(v.as_slice(), &mark) {
        Some(i) => i,
        None => {
            return None;
        },
    };
    let after_text = slice_text(v.as_slice(), start + 2, n);
    assert(after_text@ =~= line@.skip(start + 2));
    let after = chars_of(after_text.as_str());
    let m: usize = after.len();
    let bracket: [char; 1] = [']'];
    assert(bracket@ =~= seq![']']);
    let e: usize = match find_first(after.as_slice(), &bracket) {
        Some(e) => e,
        None => m,
    };
    let inner_text = slice_text(after.as_slice(), 0, e);
    let ghost inner_seq = match first_of(after@, seq![']']) {
        Some(e) => after@.take(e),
        None => after@,
    };
    assert(inner_text@ =~= inner_seq);
    let inner = chars_of(inner_text.as_str());
    let k: usize = inner.len();
    let slash: [char; 1] = ['/'];
    assert(slash@ =~= seq!['/']);
    let i: usize = match find_first(inner.as_slice(), &slash) {
        Some(i) => i,
        None => {
            return None;
        },
    };
    let left = slice_text(inner.as_slice(), 0, i);
    let right = slice_text(inner.as_slice(), i + 1, k);
    assert(left@ =~= inner@.take(i as int));
    assert(right@ =~= inner@.skip(i + 1));
    let a = parse_unsigned(trim(left.as_str()), u32::MAX as u64);
    let b = parse_unsigned(trim(right.as_str()), u32::MAX as u64);
    match (a, b) {
        (Some(x), Some(y)) => Some((x as u32, y as u32)),
        _ => None,
    }
}

/// The number between the first `Progress:` of a line and the next percent
/// sign, as it is written.
pub fn parse_mega_progress(line: &str) -> (r: Option<String>)
    ensures
        r is Some <==> percent_of(line@) is Some,
        r matches Some(t) ==> percent_of(line@) == Some(t@),
{
    let v = chars_of(line);
    let n: usize = v.len();
    let mark: [char; 9] = ['P', 'r', 'o', 'g', 'r', 'e', 's', 's', ':'];
    proof {
        reveal_strlit("Progress:");
        assert(mark@ =~= "Progress:"@);
    }
    let i: usize = match find_first(v.as_slice(), &mark) {
        Some(i) => i,
        None => {
            return None;
        },
    };
    let after = slice_text(v.as_slice(), i + 9, n);
    assert(after@ =~= line@.skip(i + 9));
    let rest = chars_of(trim(after.as_str()));
    let sign: [char; 1] = ['%'];
    assert(sign@ =~= seq!['%']);
    let e: usize = match find_first(rest.as_slice(), &sign) {
        Some(e) => e,
        None => {
            return None;
        },
    };
    let number = slice_text(rest.as_slice(), 0, e);
    assert(number@ =~= rest@.take(e as int));
    let t = trim(number.as_str());
    if float_text(t) {
        Some(t.to_owned())
    } else {
        None
    }
}

/// `s`, cut after `max` characters; an ellipsis stands for what was cut.
pub fn truncate(s: &str, max: usize) -> (r: String)
    ensures
        r@ == shortened(s@, max as nat),
{
    let cs = chars_of(s);
    if cs.len() <= max {
        s.to_owned()
    } else {
        let mut out = slice_text(cs.as_slice(), 0, max);
        assert(out@ =~= s@.take(max as int));
        out.push('\u{2026}');
        out
    }
}

/// A shortened text begins as the text does, is at most one character longer
/// than the limit, and is the text itself where that fits.
pub proof fn law_shortened(s: Seq<char>, max: nat)
    ensures
        shortened(s, max).len() <= max + 1,
        s.len() <= max ==> shortened(s, max) == s,
        forall|i: int| 0 <= i < max && i < s.len() ==> #[trigger] shortened(s, max)[i] == s[i],
{
}

/// A counter is read as it was written: `a` of `b`, in digits, between the last
/// `][` of the line and the next bracket.
pub proof fn law_counter_is_read(before: Seq<char>, a: u32, b: u32, after: Seq<char>)
    requires
        !occurs("]"@ + after, "]["@),
    ensures
        counter_of(
            before + "]["@ + decimal(a as nat) + "/"@ + decimal(b as nat) + "]"@ + after,
        ) == Some((a, b)),
{
    let x = decimal(a as nat);
    let y = decimal(b as nat);
    let line = before + "]["@ + x + "/"@ + y + "]"@ + after;
    let tail = "]"@ + after;
    let mark = "]["@;
    let n = before.len() as int;
    reveal_strlit("][");
    reveal_strlit("]");
    reveal_strlit("/");
    lemma_decimal(a as nat);
    lemma_decimal(b as nat);
    assert(line.subrange(n, n + 2) =~= mark);
    let m = n + 2 + x.len() + 1 + y.len();
    let inner = x.push('/') + y;
    assert forall|i: int| 0 <= i < inner.len() implies #[trigger] inner[i] != ']' by {
        if i < x.len() {
            assert(is_digit(x[i]));
        } else if i > x.len() {
            assert(is_digit(y[i - x.len() - 1]));
        }
    }
    assert(line =~= before + mark + inner + tail);
    assert forall|j: int| occurs_at(line, mark, j) implies j <= n by {
        assert(line.subrange(j, j + 2)[0] == line[j]);
        if n < j < m {
            if j >= n + 2 {
                assert(line[j] == inner[j - n - 2]);
            }
        } else if m <= j {
            assert(tail.subrange(j - m, j - m + 2) =~= line.subrange(j, j + 2));
            assert(occurs_at(tail, mark, j - m));
        }
    }
    lemma_last(line, mark, n);
    let rest = line.skip(n + 2);
    assert(rest =~= inner.push(']') + after);
    lemma_first_char(inner, ']', after);
    assert(rest.take(inner.len() as int) =~= inner);
    assert forall|i: int| 0 <= i < x.len() implies #[trigger] x[i] != '/' by {
        assert(is_digit(x[i]));
    }
    lemma_first_char(x, '/', y);
    assert(inner.take(x.len() as int) =~= x);
    assert(inner.skip(x.len() as int + 1) =~= y);
    lemma_trimmed_decimal(a as nat);
    lemma_trimmed_decimal(b as nat);
    law_decimal_round_trip(a as nat, u32::MAX as nat);
    law_decimal_round_trip(b as nat, u32::MAX as nat);
}

/// Between the last `][` of a line and the next closing bracket, if there is
/// one, stands what a counter is read from.
proof fn lemma_counter_inner(before: Seq<char>, inner: Seq<char>, tail: Seq<char>)
    requires
        forall|i: int| 0 <= i < inner.len() ==> #[trigger] inner[i] != ']',
        tail.len() > 0 ==> tail[0] == ']',
        !occurs(tail, "]["@),
    ensures
        ({
            let line = before + "]["@ + inner + tail;
            let rest = line.skip(before.len() as int + 2);
            &&& last_of(line, "]["@) == Some(before.len() as int)
            &&& tail.len() > 0 ==> first_of(rest, seq![']']) == Some(inner.len() as int)
                && rest.take(inner.len() as int) == inner
            &&& tail.len() == 0 ==> first_of(rest, seq![']']) is None && rest == inner
        }),
{
    let mark = "]["@;
    let line = before + mark + inner + tail;
    let n = before.len() as int;
    reveal_strlit("][");
    assert(line.subrange(n, n + 2) =~= mark);
    let m = n + 2 + inner.len();
    assert forall|j: int| occurs_at(line, mark, j) implies j <= n by {
        assert(line.subrange(j, j + 2)[0] == line[j]);
        if n < j < m {
            if j >= n + 2 {
                assert(line[j] == inner[j - n - 2]);
            }
        } else if m <= j {
            assert(tail.subrange(j - m, j - m + 2) =~= line.subrange(j, j + 2));
            assert(occurs_at(tail, mark, j - m));
        }
    }
    lemma_last(line, mark, n);
    let rest = line.skip(n + 2);
    if tail.len() > 0 {
        let after = tail.drop_first();
        assert(rest =~= inner.push(']') + after);
        lemma_first_char(inner, ']', after);
        assert(rest.take(inner.len() as int) =~= inner);
    } else {
        assert(rest =~= inner);
        assert forall|j: int| !occurs_at(rest, seq![']'], j) by {
            if occurs_at(rest, seq![']'], j) {
                assert(rest.subrange(j, j + 1)[0] == inner[j]);
            }
        }
    }
}

/// A counter is the two numbers, with or without white space round them, that
/// a slash parts behind the last `][` of a line, up to the next closing bracket
/// or the end of the line. Where there is no `][`, no slash or no number, there
/// is no counter.
pub proof fn law_counter(
    before: Seq<char>,
    x: Seq<char>,
    y: Seq<char>,
    tail: Seq<char>,
    a: u32,
    b: u32,
)
    requires
        forall|i: int| 0 <= i < x.len() ==> #[trigger] x[i] != ']' && x[i] != '/',
        forall|i: int| 0 <= i < y.len() ==> #[trigger] y[i] != ']',
        tail.len() > 0 ==> tail[0] == ']',
        !occurs(tail, "]["@),
    ensures
        counter_of(before + "]["@ + (x + "/"@ + y) + tail) == Some((a, b)) <==> unsigned(
            trimmed(x),
            u32::MAX as nat,
        ) == Some(a as nat) && unsigned(trimmed(y), u32::MAX as nat) == Some(b as nat),
        counter_of(before + "]["@ + x + tail) is None,
        !occurs(before, "]["@) ==> counter_of(before) is None,
{
    reveal_strlit("/");
    let inner = x + "/"@ + y;
    assert forall|i: int| 0 <= i < inner.len() implies #[trigger] inner[i] != ']' by {
        if i < x.len() {
            assert(inner[i] == x[i]);
        } else if i > x.len() {
            assert(inner[i] == y[i - x.len() - 1]);
        }
    }
    lemma_counter_inner(before, inner, tail);
    assert(inner =~= x.push('/') + y);
    lemma_first_char(x, '/', y);
    assert(inner.take(x.len() as int) =~= x);
    assert(inner.skip(x.len() as int + 1) =~= y);
    lemma_counter_inner(before, x, tail);
    assert forall|j: int| !occurs_at(x, seq!['/'], j) by {
        if occurs_at(x, seq!['/'], j) {
            assert(x.subrange(j, j + 1)[0] == x[j]);
        }
    }
}

/// A percentage is read as it was written: the number behind the first
/// `Progress:` of a line and before the next percent sign, with or without
/// white space round it, whatever else the line holds.
pub proof fn law_percent_is_read(
    before: Seq<char>,
    left: Seq<char>,
    t: Seq<char>,
    right: Seq<char>,
    after: Seq<char>,
)
    requires
        !occurs(before, "Progress:"@),
        forall|i: int| 0 <= i < left.len() ==> is_white_space(#[trigger] left[i]),
        forall|i: int| 0 <= i < right.len() ==> is_white_space(#[trigger] right[i]),
        is_float_text(t),
    ensures
        percent_of(before + "Progress:"@ + left + t + right + "%"@ + after) == Some(t),
{
    let mark = "Progress:"@;
    let line = before + mark + left + t + right + "%"@ + after;
    let n = before.len() as int;
    reveal_strlit("Progress:");
    reveal_strlit("%");
    assert(mark.len() == 9);
    assert(line.subrange(n, n + 9) =~= mark);
    assert forall|j: int| occurs_at(line, mark, j) implies n <= j by {
        let part = line.subrange(j, j + 9);
        if j < n {
            if j + 9 <= n {
                assert(before.subrange(j, j + 9) =~= part);
                assert(occurs_at(before, mark, j));
            } else {
                assert(part[n - j] == line[n]);
                assert(line[n] == 'P');
                assert(mark[n - j] != 'P');
            }
        }
    }
    lemma_first(line, mark, n);
    let all = line.skip(n + 9);
    assert(all =~= left + t + right + "%"@ + after);
    law_float_text_is_plain(t);
    assert(is_float_char(t[0]) && is_float_char(t[t.len() - 1]));
    let head = t + right;
    let k = left.len() as int;
    let p = k + head.len();
    assert(all[k] == t[0]);
    assert(all[p] == '%');
    law_trimming_cuts_white_space(all);
    let (i, j) = choose|i: int, j: int| #[trigger]
        white_space_outside(all, i, j) && trimmed(all) == all.subrange(i, j);
    let rest = trimmed(all);
    assert(i <= k);
    assert(p < j);
    law_trimmed(all);
    assert(rest[0] == all[i]);
    if i < k {
        assert(all[i] == left[i]);
    }
    assert(rest =~= head.push('%') + all.subrange(p + 1, j));
    assert forall|q: int| 0 <= q < head.len() implies #[trigger] head[q] != '%' by {
        if q < t.len() {
            assert(is_float_char(t[q]));
        } else {
            assert(is_white_space(right[q - t.len()]));
        }
    }
    lemma_first_char(head, '%', all.subrange(p + 1, j));
    assert(rest.take(head.len() as int) =~= Seq::<char>::empty() + t + right);
    law_trimmed_padded(Seq::empty(), t, right);
}

/// Where there is a percentage, the line holds the mark, the number and the
/// percent sign.
pub proof fn law_percent_is_in_line(line: Seq<char>)
    ensures
        percent_of(line) matches Some(t) ==> is_float_text(t) && occurs(line, "Progress:"@)
            && line.contains('%'),
{
    if percent_of(line) is Some {
        law_first_of(line, "Progress:"@);
        reveal_strlit("Progress:");
        let i = first_of(line, "Progress:"@)->0;
        let all = line.skip(i + 9);
        let rest = trimmed(all);
        law_first_of(rest, seq!['%']);
        let e = first_of(rest, seq!['%'])->0;
        assert(rest.subrange(e, e + 1)[0] == rest[e]);
        law_trimming_cuts_white_space(all);
        let (a, b) = choose|a: int, b: int| #[trigger]
            white_space_outside(all, a, b) && trimmed(all) == all.subrange(a, b);
        assert(line[i + 9 + a + e] == '%');
    }
}

/// What was cut off a text is said: the text begins as it did, up to the
/// limit, and ends with an ellipsis, which alone is added.
pub proof fn law_cut_is_marked(s: Seq<char>, max: nat)
    requires
        s.len() > max,
    ensures
        shortened(s, max).len() == max + 1,
        shortened(s, max).last() == '\u{2026}',
        shortened(s, max).drop_last() == s.take(max as int),
{
    assert(shortened(s, max).drop_last() =~= s.take(max as int));
}

} // verus!
