//! The `Range` header of a request.

use vstd::prelude::*;
use vstd::string::*;
use crate::number::{
    decimal, is_digit, law_decimal_round_trip, lemma_decimal, lemma_trimmed_decimal, parse_unsigned,
    unsigned,
};
use crate::text::{
    begins, chars_of, find_first, first_of, law_occurs, lemma_first_char, occurs_at, slice_text,
    starts_with, trim, trimmed,
};

verus! {

/// A byte that a header's text may hold: a visible ASCII character, a space or a tab.
pub open spec fn is_text_byte(b: u8) -> bool {
    32 <= b < 127 || b == 9
}

/// The text of a header's value, if all of its bytes are text bytes.
pub open spec fn header_chars(value: Seq<u8>) -> Option<Seq<char>> {
    if forall|i: int| 0 <= i < value.len() ==> is_text_byte(#[trigger] value[i]) {
        Some(value.map_values(|b: u8| b as char))
    } else {
        None
    }
}

/// The first and the last byte that `s` asks for, of a file of `size` bytes.
/// `s` is `bytes=`, the first byte, a dash, and the last byte or nothing, which
/// stands for the last byte of the file. White space round the numbers does not
/// count. A range that is empty or goes beyond the file asks for nothing.
pub open spec fn range_of(s: Seq<char>, size: u64) -> Option<(u64, u64)> {
    let rest = s.skip(6);
    if !begins(s, "bytes="@) {
        None
    } else {
        match first_of(rest, seq!['-']) {
            None => None,
            Some(i) => {
                let a = trimmed(rest.take(i));
                let b = trimmed(rest.skip(i + 1));
                let end: Option<nat> = if b.len() == 0 {
                    Some(
                        if size == 0 {
                            0
                        } else {
                            (size - 1) as nat
                        },
                    )
                } else {
                    unsigned(b, u64::MAX as nat)
                };
                match (unsigned(a, u64::MAX as nat), end) {
                    (Some(x), Some(y)) => if x <= y && y < size {
                        Some((x as u64, y as u64))
                    } else {
                        None
                    },
                    _ => None,
                }
            },
        }
    }
}

/// What a range header's raw value asks for.
pub open spec fn range_of_header(value: Option<Seq<u8>>, size: u64) -> Option<(u64, u64)> {
    match value {
        Some(bytes) => match header_chars(bytes) {
            Some(s) => range_of(s, size),
            None => None,
        },
        None => None,
    }
}

/// Parses a `bytes=start-end` range header.
pub fn parse_range(s: &str, size: u64) -> (r: Option<(u64, u64)>)
    ensures
        r == range_of(s@, size),
{
    let v = chars_of(s);
    let n: usize = v.len();
    let unit: [char; 6] = ['b', 'y', 't', 'e', 's', '='];
    proof {
        reveal_strlit("bytes=");
        assert(unit@ =~= "bytes="@);
    }
    if !starts_with(v.as_slice(), &unit) {
        return None;
    }
    let rest_text = slice_text(v.as_slice(), 6, n);
    assert(rest_text@ =~= s@.skip(6));
    let rest = chars_of(rest_text.as_str());
    let m: usize = rest.len();
    let dash: [char; 1] = ['-'];
    assert(dash@ =~= seq!['-']);
    let i: usize = match find_first(rest.as_slice(), &dash) {
        Some(i) => i,
        None => {
            return None;
        },
    };
    let left = slice_text(rest.as_slice(), 0, i);
    let right = slice_text(rest.as_slice(), i + 1, m);
    assert(left@ =~= s@.skip(6).take(i as int));
    assert(right@ =~= s@.skip(6).skip(i + 1));
    let a = trim(left.as_str());
    let b = trim(right.as_str());
    let start: u64 = match parse_unsigned(a, u64::MAX) {
        Some(x) => x,
        None => {
            return None;
        },
    };
    let end: u64 = if b.is_empty() {
        if size == 0 {
            0
        } else {
            size - 1
        }
    } else {
        match parse_unsigned(b, u64::MAX) {
            Some(y) => y,
            None => {
                return None;
            },
        }
    };
    if start > end || end >= size {
        return None;
    }
    Some((start, end))
}

/// The text of a header's value.
pub fn header_text(value: &[u8]) -> (r: Option<String>)
    ensures
        r is Some <==> header_chars(value@) is Some,
        r matches Some(s) ==> header_chars(value@) == Some(s@),
{
    let mut out = String::new();
    for i in 0..value.len()
        invariant
            forall|j: int| 0 <= j < i ==> is_text_byte(#[trigger] value@[j]),
            out@ == value@.take(i as int).map_values(|b: u8| b as char),
    {
        let b: u8 = value[i];
        if !(32 <= b && b < 127 || b == 9) {
            assert(!is_text_byte(value@[i as int]));
            return None;
        }
        out.push(b as char);
        assert(out@ =~= value@.take(i + 1).map_values(|b: u8| b as char));
    }
    assert(value@.take(value@.len() as int) =~= value@);
    Some(out)
}

/// A range that is served lies within the file and is not empty.
pub proof fn law_range_within(s: Seq<char>, size: u64)
    ensures
        range_of(s, size) matches Some((a, b)) ==> a <= b < size,
{
}

/// Every part of a file can be asked for: the range from byte `a` to byte `b`,
/// written in digits, is served as it is asked for. One that is empty or goes
/// beyond the file is not served.
pub proof fn law_range_is_served(a: u64, b: u64, size: u64)
    ensures
        range_of("bytes="@ + decimal(a as nat) + "-"@ + decimal(b as nat), size) == if a <= b
            < size {
            Some((a, b))
        } else {
            None
        },
{
    let s = "bytes="@ + decimal(a as nat) + "-"@ + decimal(b as nat);
    reveal_strlit("-");
    let rest = decimal(a as nat).push('-') + decimal(b as nat);
    lemma_rest(s, decimal(a as nat), decimal(b as nat));
    lemma_decimal(b as nat);
    assert(rest.skip(decimal(a as nat).len() as int + 1) =~= decimal(b as nat));
    lemma_trimmed_decimal(b as nat);
    law_decimal_round_trip(b as nat, u64::MAX as nat);
    lemma_start(rest, a, decimal(b as nat));
}

/// Everything from the byte `a` on can be asked for by leaving the last byte
/// out. Where the file does not reach that far, nothing is served.
pub proof fn law_open_range_is_served(a: u64, size: u64)
    ensures
        range_of("bytes="@ + decimal(a as nat) + "-"@, size) == if a < size {
            Some((a, (size - 1) as u64))
        } else {
            None
        },
{
    let s = "bytes="@ + decimal(a as nat) + "-"@;
    reveal_strlit("-");
    assert(s =~= "bytes="@ + decimal(a as nat) + "-"@ + Seq::empty());
    let rest = decimal(a as nat).push('-') + Seq::empty();
    lemma_rest(s, decimal(a as nat), Seq::empty());
    assert(rest.skip(decimal(a as nat).len() as int + 1) =~= Seq::empty());
    lemma_start(rest, a, Seq::empty());
}

proof fn lemma_rest(s: Seq<char>, a: Seq<char>, b: Seq<char>)
    requires
        s == "bytes="@ + a + "-"@ + b,
    ensures
        begins(s, "bytes="@),
        s.skip(6) == a.push('-') + b,
{
    reveal_strlit("bytes=");
    reveal_strlit("-");
    assert(s.subrange(0, 6) =~= "bytes="@);
    assert(s.skip(6) =~= a.push('-') + b);
}

proof fn lemma_start(rest: Seq<char>, a: u64, b: Seq<char>)
    requires
        rest == decimal(a as nat).push('-') + b,
    ensures
        first_of(rest, seq!['-']) == Some(decimal(a as nat).len() as int),
        unsigned(trimmed(rest.take(decimal(a as nat).len() as int)), u64::MAX as nat) == Some(
            a as nat,
        ),
{
    let d = decimal(a as nat);
    lemma_decimal(a as nat);
    assert forall|i: int| 0 <= i < d.len() implies #[trigger] d[i] != '-' by {
        assert(is_digit(d[i]));
    }
    lemma_first_char(d, '-', b);
    assert(rest.take(d.len() as int) =~= d);
    lemma_trimmed_decimal(a as nat);
    law_decimal_round_trip(a as nat, u64::MAX as nat);
}

/// A range header is `bytes=`, the first byte, a dash, and the last byte or
/// nothing, with or without white space round the numbers; it asks for the
/// bytes from the first to the last, which must lie within the file, and a last
/// byte that is left out is that of the file.
pub proof fn law_range(x: Seq<char>, y: Seq<char>, size: u64, a: u64, b: u64)
    requires
        forall|i: int| 0 <= i < x.len() ==> #[trigger] x[i] != '-',
    ensures
        range_of("bytes="@ + x + "-"@ + y, size) == Some((a, b)) <==> a <= b < size && unsigned(
            trimmed(x),
            u64::MAX as nat,
        ) == Some(a as nat) && (if trimmed(y).len() == 0 {
            b == size - 1
        } else {
            unsigned(trimmed(y), u64::MAX as nat) == Some(b as nat)
        }),
        range_of("bytes="@ + x, size) is None,
{
    let s = "bytes="@ + x + "-"@ + y;
    lemma_rest(s, x, y);
    let rest = x.push('-') + y;
    lemma_first_char(x, '-', y);
    assert(rest.take(x.len() as int) =~= x);
    assert(rest.skip(x.len() as int + 1) =~= y);
    let t = "bytes="@ + x;
    reveal_strlit("bytes=");
    assert(t.skip(6) =~= x);
    assert forall|j: int| !occurs_at(x, seq!['-'], j) by {
        if occurs_at(x, seq!['-'], j) {
            assert(x.subrange(j, j + 1)[0] == x[j]);
        }
    }
}

/// A header that does not begin with `bytes=` asks for nothing.
pub proof fn law_other_units_ask_for_nothing(s: Seq<char>, size: u64)
    requires
        !exists|rest: Seq<char>| #[trigger] ("bytes="@ + rest) == s,
    ensures
        range_of(s, size) is None,
{
    law_occurs(s, "bytes="@, Seq::empty(), Seq::empty());
}

/// A header's value is read as text, byte by byte, where every byte is a
/// visible ASCII character, a space or a tab; another value asks for nothing,
/// nor does a header that is not there.
pub proof fn law_header_is_text(value: Seq<u8>, size: u64)
    ensures
        range_of_header(None, size) is None,
        (exists|i: int|
            0 <= i < value.len() && !(32 <= #[trigger] value[i] <= 126 || value[i] == 9))
            ==> header_chars(value) is None && range_of_header(Some(value), size) is None,
        (forall|i: int| 0 <= i < value.len() ==> 32 <= #[trigger] value[i] <= 126 || value[i] == 9)
            ==> {
            &&& header_chars(value) matches Some(s) && s.len() == value.len() && (forall|i: int|
                0 <= i < value.len() ==> #[trigger] s[i] as u32 == value[i])
            &&& range_of_header(Some(value), size) == range_of(header_chars(value)->0, size)
        },
{
    if exists|i: int| 0 <= i < value.len() && !(32 <= #[trigger] value[i] <= 126 || value[i] == 9) {
        let i = choose|i: int|
            0 <= i < value.len() && !(32 <= #[trigger] value[i] <= 126 || value[i] == 9);
        assert(!is_text_byte(value[i]));
    }
}

} // verus!
