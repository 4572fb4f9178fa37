//! Byte-range request parsing: reads the value of an HTTP `Range` header and
//! yields an inclusive interval clamped to the data length.

use vstd::prelude::*;
use vstd::string::StringSliceAdditionalSpecFns;

use crate::decimal::{dec_bytes, decimal_bytes};
use crate::handler::{static_body, Reply};

verus! {

/// Whether `b` is an ASCII decimal digit.
pub open spec fn is_digit(b: u8) -> bool {
    48 <= b <= 57
}

/// The numeric value of an ASCII digit byte.
pub open spec fn digit_val(b: u8) -> nat {
    (b - 48) as nat
}

/// The length of the longest all-digit prefix of `s`.
pub open spec fn digits_prefix_len(s: Seq<u8>) -> nat
    decreases s.len(),
{
    if s.len() == 0 || !is_digit(s[0]) {
        0
    } else {
        1 + digits_prefix_len(s.skip(1))
    }
}

/// The number written by a sequence of digit bytes, read left to right;
/// an empty sequence reads as zero.
pub open spec fn dec_value(s: Seq<u8>) -> nat
    decreases s.len(),
{
    if s.len() == 0 {
        0
    } else {
        dec_value(s.drop_last()) * 10 + digit_val(s.last())
    }
}

/// Whether `h` starts with the six bytes `bytes=`.
pub open spec fn has_bytes_prefix(h: Seq<u8>) -> bool {
    &&& h.len() >= 6
    &&& h[0] == 98u8
    &&& h[1] == 121u8
    &&& h[2] == 116u8
    &&& h[3] == 101u8
    &&& h[4] == 115u8
    &&& h[5] == 61u8
}

/// What `parse` returns: the grammar is `bytes=<left>[-[<right>]]`, where
/// either number may be empty (`<left>` reads as zero, `<right>` as `len - 1`)
/// and a comma or space ends `<right>` early; the interval is `<left>` through
/// `min(<right>, len - 1)`, or nothing when the data is empty, the grammar is
/// broken, or the interval comes out empty.
pub open spec fn spec_parse(h: Seq<u8>, len: usize) -> Option<(usize, usize)> {
    if len == 0 || !has_bytes_prefix(h) {
        None
    } else {
        let rest = h.skip(6);
        let i = digits_prefix_len(rest);
        let left = dec_value(rest.take(i as int));
        if i < rest.len() && rest[i as int] != 45u8 {  // not '-'
            None
        } else {
            let tail = if i < rest.len() {
                rest.skip(i as int + 1)
            } else {
                Seq::<u8>::empty()
            };
            let j = digits_prefix_len(tail);
            if j < tail.len() && tail[j as int] != 44u8 && tail[j as int] != 32u8 {  // not ',' or ' '
                None
            } else {
                let last = (len - 1) as nat;
                let right = if j == 0 {
                    last
                } else if dec_value(tail.take(j as int)) < last {
                    dec_value(tail.take(j as int))
                } else {
                    last
                };
                if left > right {
                    None
                } else {
                    Some((left as usize, right as usize))
                }
            }
        }
    }
}

/// Reading one more digit multiplies the value by ten and adds it.
proof fn lemma_dec_value_extend(s: Seq<u8>, j: int)
    requires
        0 <= j < s.len(),
    ensures
        dec_value(s.take(j + 1)) == dec_value(s.take(j)) * 10 + digit_val(s[j]),
{
    assert(s.take(j + 1).drop_last() =~= s.take(j));
    assert(s.take(j + 1).last() == s[j]);
}

/// The all-digit prefix ends exactly at the first non-digit (or the end).
proof fn lemma_digits_prefix_len_exact(s: Seq<u8>, m: int)
    requires
        0 <= m <= s.len(),
        forall|k: int| 0 <= k < m ==> is_digit(#[trigger] s[k]),
        m == s.len() || !is_digit(s[m]),
    ensures
        digits_prefix_len(s) == m,
    decreases m,
{
    if m == 0 {
    } else {
        assert(is_digit(s[0]));
        lemma_digits_prefix_len_exact(s.skip(1), m - 1);
    }
}

/// Read the value of an HTTP `Range` header over data of length `len` into an
/// inclusive interval; the result is in bounds and non-empty, fit to slice with.
pub fn parse(range: &[u8], len: usize) -> (r: Option<(usize, usize)>)
    ensures
        r == spec_parse(range@, len),
{
    if len == 0 {
        return None;
    }
    let n = range.len();
    if n < 6 || range[0] != 98 || range[1] != 121 || range[2] != 116 || range[3] != 101 || range[4]
        != 115 || range[5] != 61 {
        return None;
    }
    let ghost rest = range@.skip(6);

    // scan the digits of <left>
    let mut i: usize = 6;
    let mut left: usize = 0;
    while i < n && 48 <= range[i] && range[i] <= 57
        invariant
            n == range@.len(),
            6 <= i <= n,
            rest == range@.skip(6),
            forall|k: int| 6 <= k < i ==> is_digit(#[trigger] range@[k]),
            left == dec_value(rest.take(i - 6)) || (left == usize::MAX && dec_value(
                rest.take(i - 6),
            ) >= usize::MAX),
        decreases n - i,
    {
        let d = (range[i] - 48) as usize;
        proof {
            assert(rest.take(i - 6 + 1) =~= rest.take(i - 6).push(range@[i as int]));
            lemma_dec_value_extend(rest, i - 6);
        }
        let prod = match left.checked_mul(10) {
            Some(p) => p,
            None => usize::MAX,
        };
        left = prod.saturating_add(d);
        i = i + 1;
    }
    proof {
        lemma_digits_prefix_len_exact(rest, i - 6);
    }
    let tail_start: usize;
    if i < n {
        if range[i] != 45 {  // '-'
            return None;
        }
        tail_start = i + 1;
    } else {
        tail_start = n;
    }
    let ghost tail = if i < n {
        range@.skip(6).skip(i - 6 + 1)
    } else {
        Seq::<u8>::empty()
    };
    proof {
        if i < n {
            assert(tail =~= range@.skip(tail_start as int));
        }
    }

    // scan the digits of <right>
    let mut j: usize = tail_start;
    let mut right: usize = 0;
    while j < n && 48 <= range[j] && range[j] <= 57
        invariant
            n == range@.len(),
            tail_start <= j <= n,
            tail_start <= n,
            tail == range@.skip(tail_start as int) || (tail_start == n && tail
                == Seq::<u8>::empty()),
            forall|k: int| tail_start <= k < j ==> is_digit(#[trigger] range@[k]),
            right == dec_value(tail.take(j - tail_start)) || (right == usize::MAX && dec_value(
                tail.take(j - tail_start),
            ) >= usize::MAX),
        decreases n - j,
    {
        let d = (range[j] - 48) as usize;
        proof {
            assert(tail.take(j - tail_start + 1) =~= tail.take(j - tail_start).push(
                range@[j as int],
            ));
            lemma_dec_value_extend(tail, j - tail_start);
        }
        let prod = match right.checked_mul(10) {
            Some(p) => p,
            None => usize::MAX,
        };
        right = prod.saturating_add(d);
        j = j + 1;
    }
    proof {
        lemma_digits_prefix_len_exact(tail, j - tail_start);
    }
    if j < n && range[j] != 44 && range[j] != 32 {  // ',' or ' '
        return None;
    }

    let last = len - 1;
    let r = if j == tail_start {
        last
    } else if right < last {
        right
    } else {
        last
    };
    if left > r {
        None
    } else {
        Some((left, r))
    }
}

/// A parsed interval is non-empty and lies inside the data.
pub proof fn lemma_parse_bounds(h: Seq<u8>, len: usize)
    ensures
        match spec_parse(h, len) {
            Some((a, b)) => a <= b < len,
            None => true,
        },
{
}

/// Copy the inclusive interval `[start, end]` out of `data`.
pub fn slice_range(data: &[u8], start: usize, end: usize) -> (r: Vec<u8>)
    requires
        start <= end < data@.len(),
    ensures
        r@ == data@.subrange(start as int, end as int + 1),
{
    let mut r: Vec<u8> = Vec::new();
    let mut i: usize = start;
    while i <= end
        invariant
            start <= i <= end + 1,
            end < data@.len(),
            r@ == data@.subrange(start as int, i as int),
        decreases end + 1 - i,
    {
        r.push(data[i]);
        proof {
            assert(data@.subrange(start as int, i as int).push(data@[i as int]) =~= data@.subrange(
                start as int,
                i as int + 1,
            ));
        }
        i = i + 1;
    }
    r
}

/// Answer a request for cached `data` that carries the `Range` header value
/// `range`: a partial-content reply over the parsed interval, with its
/// `Content-Range` triple, or the refusal `U WOT M8` when the header does not
/// parse or asks past the data.
pub fn ranged_response(data: &Vec<u8>, range: &[u8]) -> (r: Reply)
    ensures
        r.accept_ranges,
        match spec_parse(range@, data@.len() as usize) {
            Some((a, b)) => r.status == 206 && r.content_range == Some(
                (a, b, data@.len() as usize),
            ) && r.body@ == data@.subrange(a as int, b as int + 1),
            None => r.status == 416 && r.content_range == None::<(usize, usize, usize)> && r.body@
                == ("U WOT M8\n").spec_bytes(),
        },
{
    let olength = data.len();
    match parse(range, olength) {
        Some((a, b)) => {
            proof {
                lemma_parse_bounds(range@, olength);
            }
            Reply {
                status: 206,
                accept_ranges: true,
                content_range: Some((a, b, olength)),
                body: slice_range(data.as_slice(), a, b),
            }
        },
        None => Reply {
            status: 416,
            accept_ranges: true,
            content_range: None,
            body: static_body("U WOT M8\n"),
        },
    }
}

/// The `Content-Range` header value `first-last/total`.
pub fn content_range_value(first: usize, last: usize, total: usize) -> (r: Vec<u8>)
    ensures
        r@ == dec_bytes(first as nat) + seq![45u8] + dec_bytes(last as nat) + seq![47u8]
            + dec_bytes(total as nat),
{
    let mut r = decimal_bytes(first);
    r.push(45);  // '-'
    let mut mid = decimal_bytes(last);
    r.append(&mut mid);
    r.push(47);  // '/'
    let mut end = decimal_bytes(total);
    r.append(&mut end);
    proof {
        assert(r@ =~= dec_bytes(first as nat) + seq![45u8] + dec_bytes(last as nat) + seq![47u8]
            + dec_bytes(total as nat));
    }
    r
}

/// A decimal rendering is never empty and consists of digits alone.
proof fn lemma_dec_bytes_digits(n: nat)
    ensures
        dec_bytes(n).len() >= 1,
        forall|k: int| 0 <= k < dec_bytes(n).len() ==> is_digit(#[trigger] dec_bytes(n)[k]),
    decreases n,
{
    if n >= 10 {
        lemma_dec_bytes_digits(n / 10);
    }
}

/// Reading back a decimal rendering gives the number it was made from.
proof fn lemma_dec_bytes_value(n: nat)
    ensures
        dec_value(dec_bytes(n)) == n,
    decreases n,
{
    if n < 10 {
        let s = seq![crate::decimal::digit_byte(n)];
        assert(dec_bytes(n) == s);
        assert(s.drop_last() =~= Seq::<u8>::empty());
        assert(s.last() == crate::decimal::digit_byte(n));
        assert(digit_val(crate::decimal::digit_byte(n)) == n);
        assert(dec_value(Seq::<u8>::empty()) == 0);
        assert(dec_value(s) == dec_value(s.drop_last()) * 10 + digit_val(s.last()));
    } else {
        lemma_dec_bytes_value(n / 10);
        let s = dec_bytes(n / 10).push(crate::decimal::digit_byte(n % 10));
        assert(s.drop_last() =~= dec_bytes(n / 10));
        assert(s.last() == crate::decimal::digit_byte(n % 10));
        assert(digit_val(crate::decimal::digit_byte(n % 10)) == n % 10);
        vstd::arithmetic::div_mod::lemma_fundamental_div_mod(n as int, 10);
    }
}

/// Range parser round trip: over data of length `len >= 1`, the header
/// `bytes=<a>-<b>` with `a <= b` parses to `[a, min(b, len - 1)]` when
/// `a <= len - 1`, and to nothing otherwise.
pub proof fn lemma_parse_round_trip(a: usize, b: usize, len: usize)
    requires
        a <= b,
        len >= 1,
    ensures
        ({
            let header = seq![98u8, 121u8, 116u8, 101u8, 115u8, 61u8] + dec_bytes(a as nat)
                + seq![45u8] + dec_bytes(b as nat);
            spec_parse(header, len) == if a <= len - 1 {
                if b < len - 1 {
                    Some((a, b))
                } else {
                    Some((a, (len - 1) as usize))
                }
            } else {
                None::<(usize, usize)>
            }
        }),
{
    let pre = seq![98u8, 121u8, 116u8, 101u8, 115u8, 61u8];
    let digits_a = dec_bytes(a as nat);
    let digits_b = dec_bytes(b as nat);
    let header = pre + digits_a + seq![45u8] + digits_b;
    lemma_dec_bytes_digits(a as nat);
    lemma_dec_bytes_digits(b as nat);
    lemma_dec_bytes_value(a as nat);
    lemma_dec_bytes_value(b as nat);
    assert(has_bytes_prefix(header));
    let rest = header.skip(6);
    assert(rest =~= digits_a + seq![45u8] + digits_b);
    let la = digits_a.len() as int;
    assert forall|k: int| 0 <= k < la implies is_digit(#[trigger] rest[k]) by {
        assert(rest[k] == digits_a[k]);
    }
    assert(rest[la] == 45u8);
    assert(!is_digit(45u8));
    lemma_digits_prefix_len_exact(rest, la);
    assert(rest.take(la) =~= digits_a);
    let tail = rest.skip(la + 1);
    assert(tail =~= digits_b);
    let lb = digits_b.len() as int;
    lemma_digits_prefix_len_exact(tail, lb);
    assert(tail.take(lb) =~= digits_b);
}

} // verus!
