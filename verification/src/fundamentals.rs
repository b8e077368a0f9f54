//! String basics: the longest word of a sentence.
use vstd::prelude::*;
use crate::text::{char_slice, char_width, chars_of, utf8_len, utf8_width, word_bounds, words};

verus! {

/// The longest of the words `ws` by UTF-8 length; of equally long words
/// the last one (as `Iterator::max_by_key` picks).
pub open spec fn longest_of(ws: Seq<Seq<char>>) -> Option<Seq<char>>
    decreases ws.len(),
{
    if ws.len() == 0 {
        None
    } else {
        match longest_of(ws.drop_last()) {
            None => Some(ws.last()),
            Some(b) => if utf8_len(ws.last()) >= utf8_len(b) {
                Some(ws.last())
            } else {
                Some(b)
            },
        }
    }
}

/// The number of UTF-8 bytes of `v[a..b]`.
fn utf8_len_between(v: &Vec<char>, a: usize, b: usize) -> (r: u128)
    requires
        a <= b <= v@.len(),
    ensures
        r == utf8_len(v@.subrange(a as int, b as int)),
{
    let mut i = a;
    let mut n: u128 = 0;
    while i < b
        invariant
            a <= i <= b <= v@.len(),
            b <= usize::MAX,
            n == utf8_len(v@.subrange(a as int, i as int)),
            n <= 4 * (i - a),
        decreases b - i,
    {
        let w = char_width(v[i]);
        assert(v@.subrange(a as int, i + 1).drop_last() =~= v@.subrange(a as int, i as int));
        assert(utf8_width(v@[i as int]) <= 4);
        n = n + w as u128;
        i = i + 1;
    }
    n
}

/// The longest word of `sentence` by UTF-8 length, the last one of equally
/// long words; `None` when there is no word.
pub fn find_longest_word(sentence: &str) -> (r: Option<&str>)
    ensures
        match longest_of(words(sentence@)) {
            Some(w) => r is Some && r->Some_0@ == w,
            None => r is None,
        },
{
    let v = chars_of(sentence);
    let bounds = word_bounds(&v);
    let ghost ws = words(v@);
    let mut best: Option<(usize, usize, u128)> = None;
    let mut k: usize = 0;
    while k < bounds.len()
        invariant
            v@ == sentence@,
            ws == words(v@),
            bounds@.len() == ws.len(),
            forall|m: int| #![trigger bounds@[m]] 0 <= m < bounds@.len() ==> bounds@[m].0 < bounds@[m].1 <= v@.len(),
            forall|m: int| 0 <= m < bounds@.len() ==> ws[m] == v@.subrange(bounds@[m].0 as int, bounds@[m].1 as int),
            k <= bounds@.len(),
            match longest_of(ws.take(k as int)) {
                None => best is None,
                Some(w) => best matches Some((a, b, n)) && a <= b <= v@.len() && w == v@.subrange(a as int, b as int) && n == utf8_len(w),
            },
        decreases bounds@.len() - k,
    {
        let (a, b) = bounds[k];
        let n = utf8_len_between(&v, a, b);
        proof {
            assert(ws.take(k + 1).drop_last() =~= ws.take(k as int));
            assert(ws.take(k + 1).last() == ws[k as int]);
        }
        match best {
            None => {
                best = Some((a, b, n));
            },
            Some((_, _, m)) => {
                if n >= m {
                    best = Some((a, b, n));
                }
            },
        }
        k = k + 1;
    }
    assert(ws.take(bounds@.len() as int) =~= ws);
    match best {
        None => None,
        Some((a, b, _)) => Some(char_slice(sentence, a, b)),
    }
}

} // verus!
