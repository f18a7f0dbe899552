//! Small operations on text that the record builders share.

use vstd::prelude::*;
use vstd::string::*;
use vstd::utf8::*;

verus! {

/// Whether two pieces of text are the same characters.
pub fn same_text(a: &str, b: &str) -> (same: bool)
    ensures
        same == (a@ == b@),
{
    let x = a.as_bytes();
    let y = b.as_bytes();
    proof {
        encode_utf8_decode_utf8(a@);
        encode_utf8_decode_utf8(b@);
    }
    if x.len() != y.len() {
        return false;
    }
    let mut i: usize = 0;
    while i < x.len()
        invariant
            i <= x.len(),
            x.len() == y.len(),
            x@ == encode_utf8(a@),
            y@ == encode_utf8(b@),
            forall|j: int| 0 <= j < i ==> x@[j] == y@[j],
        decreases x.len() - i,
    {
        if x[i] != y[i] {
            assert(x@[i as int] != y@[i as int]);
            return false;
        }
        i += 1;
    }
    assert(x@ =~= y@);
    true
}

/// Where the last path segment of a URL starts: behind its last `/`, or
/// at its start when it holds none.
pub open spec fn last_segment_start(url: Seq<char>) -> int
    decreases url.len(),
{
    if url.len() == 0 {
        0
    } else if url.last() == '/' {
        url.len() as int
    } else {
        last_segment_start(url.drop_last())
    }
}

/// The last path segment of a URL: what follows its last `/`, or all of
/// it when it holds none.
pub open spec fn filename_from_url(url: Seq<char>) -> Seq<char> {
    url.skip(last_segment_start(url))
}

/// The last segment holds no `/`, and what stands before it is empty or
/// ends in one.
pub proof fn lemma_last_segment(url: Seq<char>)
    ensures
        0 <= last_segment_start(url) <= url.len(),
        !filename_from_url(url).contains('/'),
        last_segment_start(url) > 0 ==> url[last_segment_start(url) - 1] == '/',
        url.take(last_segment_start(url)) + filename_from_url(url) == url,
    decreases url.len(),
{
    if url.len() == 0 {
    } else if url.last() == '/' {
    } else {
        let rest = url.drop_last();
        lemma_last_segment(rest);
        let k = last_segment_start(rest);
        assert(filename_from_url(url) =~= filename_from_url(rest).push(url.last()));
        assert forall|i: int| 0 <= i < filename_from_url(url).len() implies filename_from_url(
            url,
        )[i] != '/' by {
            if i < filename_from_url(rest).len() {
                assert(filename_from_url(rest).contains(filename_from_url(rest)[i]));
            }
        }
    }
    assert(url.take(last_segment_start(url)) + filename_from_url(url) =~= url);
}

pub fn _get_filename_from_url(url: &str) -> (filename: String)
    ensures
        filename@ == filename_from_url(url@),
{
    let n = url.unicode_len();
    let mut start = n;
    assert(url@.take(n as int) =~= url@);
    while start > 0 && url.get_char(start - 1) != '/'
        invariant
            start <= n,
            n == url@.len(),
            last_segment_start(url@) == last_segment_start(url@.take(start as int)),
        decreases start,
    {
        assert(url@.take(start as int).drop_last() =~= url@.take(start - 1));
        start -= 1;
    }
    proof {
        if start > 0 {
            assert(url@.take(start as int).last() == '/');
        }
        assert(url@.skip(start as int) =~= url@.subrange(start as int, n as int));
    }
    url.substring_char(start, n).to_owned()
}

/// A number in decimal digits, as ASCII, without leading zeros.
pub open spec fn decimal_digits(n: nat) -> Seq<u8>
    decreases n,
{
    if n < 10 {
        seq![(48 + n) as u8]
    } else {
        decimal_digits(n / 10).push((48 + n % 10) as u8)
    }
}

/// Writes a number in decimal digits.
pub fn decimal_bytes(n: usize) -> (digits: Vec<u8>)
    ensures
        digits@ == decimal_digits(n as nat),
{
    let mut low_first: Vec<u8> = Vec::new();
    let mut rest = n;
    while rest >= 10
        invariant
            decimal_digits(n as nat) == decimal_digits(rest as nat) + low_first@.reverse(),
        decreases rest,
    {
        let digit: u8 = 48 + (rest % 10) as u8;
        proof {
            assert(low_first@.push(digit).reverse() =~= seq![digit] + low_first@.reverse());
            assert(decimal_digits(rest as nat) == decimal_digits((rest / 10) as nat).push(digit));
            assert(decimal_digits((rest / 10) as nat).push(digit) + low_first@.reverse()
                =~= decimal_digits((rest / 10) as nat) + (seq![digit] + low_first@.reverse()));
        }
        low_first.push(digit);
        rest = rest / 10;
    }
    let digit: u8 = 48 + rest as u8;
    proof {
        assert(low_first@.push(digit).reverse() =~= seq![digit] + low_first@.reverse());
        assert(decimal_digits(rest as nat) =~= seq![digit]);
    }
    low_first.push(digit);
    let mut digits: Vec<u8> = Vec::new();
    let mut i: usize = low_first.len();
    while i > 0
        invariant
            i <= low_first.len(),
            digits@ == low_first@.reverse().take(low_first.len() - i),
        decreases i,
    {
        i -= 1;
        digits.push(low_first[i]);
        assert(digits@ =~= low_first@.reverse().take(low_first.len() - i));
    }
    assert(digits@ =~= low_first@.reverse());
    digits
}

} // verus!
