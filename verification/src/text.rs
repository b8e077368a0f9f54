//! Character-level building blocks shared by the text-processing modules:
//! conversions between `&str`, `String` and `Vec<char>`, whitespace handling,
//! word splitting, decimal formatting and integer parsing, each stated over
//! the `Seq<char>` view of the strings involved.
use vstd::prelude::*;
use vstd::string::StrSliceExecFns;
use vstd::string::StringExecFns;

verus! {

broadcast use vstd::string::group_string_axioms;

// ---------------------------------------------------------------------------
// Conversions
// ---------------------------------------------------------------------------

/// The characters of `s`, in order.
pub fn chars_of(s: &str) -> (v: Vec<char>)
    ensures
        v@ == s@,
{
    let mut v: Vec<char> = Vec::new();
    for c in it: s.chars()
        invariant
            it.seq() == s@,
            v@ == it.seq().take(it.index() as int),
    {
        v.push(c);
    }
    v
}

/// Appends `c` at the end of `s` (`String::push`).
#[verifier::external_body]
pub(crate) fn push_char(s: &mut String, c: char)
    ensures
        final(s)@ == old(s)@.push(c),
{
    s.push(c)
}

/// Appends the characters `v[from..to]` at the end of `s`.
pub fn push_chars(s: &mut String, v: &Vec<char>, from: usize, to: usize)
    requires
        from <= to <= v@.len(),
    ensures
        final(s)@ == old(s)@ + v@.subrange(from as int, to as int),
{
    let ghost start = s@;
    let mut i = from;
    while i < to
        invariant
            from <= i <= to <= v@.len(),
            s@ == start + v@.subrange(from as int, i as int),
        decreases to - i,
    {
        push_char(s, v[i]);
        assert(v@.subrange(from as int, i + 1) == v@.subrange(from as int, i as int).push(
            v@[i as int],
        ));
        i = i + 1;
    }
}

/// A string holding exactly the characters of `v`.
pub fn string_of(v: &Vec<char>) -> (s: String)
    ensures
        s@ == v@,
{
    let mut s = String::new();
    push_chars(&mut s, v, 0, v.len());
    assert(v@.subrange(0, v@.len() as int) == v@);
    s
}

/// An owned copy of `s`.
pub fn owned(s: &str) -> (r: String)
    ensures
        r@ == s@,
{
    String::from_str(s)
}

/// The string slice `s[from..to]`, counted in characters.
pub fn char_slice(s: &str, from: usize, to: usize) -> (r: &str)
    requires
        from <= to <= s@.len(),
    ensures
        r@ == s@.subrange(from as int, to as int),
{
    s.substring_char(from, to)
}

/// Whether two strings hold the same characters.
pub fn str_eq(a: &str, b: &str) -> (r: bool)
    ensures
        r == (a@ == b@),
{
    let va = chars_of(a);
    let vb = chars_of(b);
    seq_eq(&va, &vb)
}

/// Whether two character vectors are equal.
pub fn seq_eq(a: &Vec<char>, b: &Vec<char>) -> (r: bool)
    ensures
        r == (a@ == b@),
{
    if a.len() != b.len() {
        return false;
    }
    let mut i: usize = 0;
    while i < a.len()
        invariant
            a@.len() == b@.len(),
            i <= a@.len(),
            forall|j: int| 0 <= j < i ==> a@[j] == b@[j],
        decreases a@.len() - i,
    {
        if a[i] != b[i] {
            return false;
        }
        i = i + 1;
    }
    assert(a@ =~= b@);
    true
}

/// Whether `c` occurs in `s`.
pub fn contains_char(s: &Vec<char>, c: char) -> (r: bool)
    ensures
        r == s@.contains(c),
{
    let mut i: usize = 0;
    while i < s.len()
        invariant
            i <= s@.len(),
            forall|j: int| 0 <= j < i ==> s@[j] != c,
        decreases s@.len() - i,
    {
        if s[i] == c {
            return true;
        }
        i = i + 1;
    }
    false
}

// ---------------------------------------------------------------------------
// Finding patterns
// ---------------------------------------------------------------------------

/// Whether `pat` occurs in `s` starting at position `i`.
pub open spec fn occurs_at(s: Seq<char>, pat: Seq<char>, i: int) -> bool {
    0 <= i && i + pat.len() <= s.len() && s.subrange(i, i + pat.len()) == pat
}

/// Whether `pat` occurs anywhere in `s`.
pub open spec fn occurs_in(s: Seq<char>, pat: Seq<char>) -> bool {
    exists|i: int| occurs_at(s, pat, i)
}

/// The position of the first occurrence of `pat` in `s` at or after `from`
/// (`str::find`), if any.
pub fn find_from(s: &Vec<char>, pat: &Vec<char>, from: usize) -> (r: Option<usize>)
    requires
        from <= s@.len(),
    ensures
        match r {
            Some(i) => from <= i && occurs_at(s@, pat@, i as int) && forall|j: int|
                from <= j < i ==> !occurs_at(s@, pat@, j),
            None => forall|j: int| from <= j ==> !occurs_at(s@, pat@, j),
        },
{
    let mut i = from;
    while pat.len() <= s.len() - i
        invariant
            from <= i <= s@.len(),
            forall|j: int| from <= j < i ==> !occurs_at(s@, pat@, j),
        decreases s@.len() - i,
    {
        let mut k: usize = 0;
        let mut same = true;
        while k < pat.len()
            invariant
                i + pat@.len() <= s@.len(),
                i <= s@.len(),
                k <= pat@.len(),
                pat@.len() == pat.len(),
                same == forall|m: int| 0 <= m < k ==> s@[i + m] == pat@[m],
            decreases pat@.len() - k,
        {
            assert(i + k < s.len());
            if s[i + k] != pat[k] {
                same = false;
            }
            k = k + 1;
        }
        if same {
            assert(s@.subrange(i as int, i + pat@.len()) =~= pat@);
            return Some(i);
        }
        assert(!occurs_at(s@, pat@, i as int)) by {
            if occurs_at(s@, pat@, i as int) {
                let m = choose|m: int| 0 <= m < pat@.len() && s@[i + m] != pat@[m];
                assert(s@.subrange(i as int, i + pat@.len())[m] == s@[i + m]);
            }
        }
        i = i + 1;
    }
    None
}

/// The position of the first occurrence of `pat` in `s` at or after `from`,
/// if any (what `str::find` gives on `s[from..]`, shifted by `from`).
pub open spec fn find_spec(s: Seq<char>, pat: Seq<char>, from: int) -> Option<int>
    decreases s.len() - from,
{
    if from < 0 || from > s.len() {
        None
    } else if occurs_at(s, pat, from) {
        Some(from)
    } else if from == s.len() {
        None
    } else {
        find_spec(s, pat, from + 1)
    }
}

/// A first occurrence at or after `from` is what `find_spec` gives.
pub proof fn lemma_find_spec_some(s: Seq<char>, pat: Seq<char>, from: int, i: int)
    requires
        0 <= from <= i,
        occurs_at(s, pat, i),
        forall|j: int| from <= j < i ==> !occurs_at(s, pat, j),
    ensures
        find_spec(s, pat, from) == Some(i),
    decreases i - from,
{
    if from < i {
        lemma_find_spec_some(s, pat, from + 1, i);
    }
}

/// With no occurrence at or after `from`, `find_spec` gives nothing.
pub proof fn lemma_find_spec_none(s: Seq<char>, pat: Seq<char>, from: int)
    requires
        0 <= from <= s.len(),
        forall|j: int| from <= j ==> !occurs_at(s, pat, j),
    ensures
        find_spec(s, pat, from) is None,
    decreases s.len() - from,
{
    if from < s.len() {
        lemma_find_spec_none(s, pat, from + 1);
    }
}

/// The text between the first and the second occurrence of `pat` in `s`
/// (or the end of `s`), if `pat` occurs at all: for a non-empty `pat`, what
/// `str::split(pat).nth(1)` gives.
pub open spec fn second_field(s: Seq<char>, pat: Seq<char>) -> Option<Seq<char>> {
    match find_spec(s, pat, 0) {
        None => None,
        Some(i) => {
            let start = i + pat.len();
            match find_spec(s, pat, start) {
                Some(k) => Some(s.subrange(start, k)),
                None => Some(s.subrange(start, s.len() as int)),
            }
        },
    }
}

/// The bounds of `second_field(s, pat)` within `s`.
pub fn second_field_bounds(s: &Vec<char>, pat: &Vec<char>) -> (r: Option<(usize, usize)>)
    ensures
        match r {
            Some((a, b)) => a <= b <= s@.len() && second_field(s@, pat@) == Some(
                s@.subrange(a as int, b as int),
            ),
            None => second_field(s@, pat@) is None,
        },
{
    match find_from(s, pat, 0) {
        None => {
            proof {
                lemma_find_spec_none(s@, pat@, 0);
            }
            None
        },
        Some(i) => {
            proof {
                lemma_find_spec_some(s@, pat@, 0, i as int);
                assert(occurs_at(s@, pat@, i as int));
            }
            let n = s.len();
            assert(i + pat@.len() <= n);
            let start = i + pat.len();
            match find_from(s, pat, start) {
                Some(k) => {
                    proof {
                        lemma_find_spec_some(s@, pat@, start as int, k as int);
                    }
                    Some((start, k))
                },
                None => {
                    proof {
                        lemma_find_spec_none(s@, pat@, start as int);
                    }
                    Some((start, n))
                },
            }
        },
    }
}

/// The position of the first `c` in `s` at or after `from`, if any.
pub fn find_char_from(s: &Vec<char>, c: char, from: usize) -> (r: Option<usize>)
    requires
        from <= s@.len(),
    ensures
        match r {
            Some(i) => from <= i < s@.len() && s@[i as int] == c && forall|j: int|
                from <= j < i ==> s@[j] != c,
            None => forall|j: int| from <= j < s@.len() ==> s@[j] != c,
        },
{
    let mut i = from;
    while i < s.len()
        invariant
            from <= i <= s@.len(),
            forall|j: int| from <= j < i ==> s@[j] != c,
        decreases s@.len() - i,
    {
        if s[i] == c {
            return Some(i);
        }
        i = i + 1;
    }
    None
}

/// The position of the first `c` in `s`, if any (`str::find` on a `char`).
pub open spec fn first_index_of(s: Seq<char>, c: char) -> Option<int>
    decreases s.len(),
{
    if s.len() == 0 {
        None
    } else if s[0] == c {
        Some(0)
    } else {
        match first_index_of(s.drop_first(), c) {
            Some(i) => Some(i + 1),
            None => None,
        }
    }
}

/// `first_index_of` gives the least position holding `c`.
pub proof fn lemma_first_index_of(s: Seq<char>, c: char)
    ensures
        match first_index_of(s, c) {
            Some(i) => 0 <= i < s.len() && s[i] == c && forall|j: int| 0 <= j < i ==> s[j] != c,
            None => forall|j: int| 0 <= j < s.len() ==> s[j] != c,
        },
    decreases s.len(),
{
    if s.len() > 0 && s[0] != c {
        lemma_first_index_of(s.drop_first(), c);
        assert forall|j: int| 1 <= j < s.len() implies s[j] == s.drop_first()[j - 1] by {}
    }
}

/// The least position holding `c` is what `first_index_of` gives.
pub proof fn lemma_first_index_of_least(s: Seq<char>, c: char, i: int)
    requires
        0 <= i < s.len(),
        s[i] == c,
        forall|j: int| 0 <= j < i ==> s[j] != c,
    ensures
        first_index_of(s, c) == Some(i),
{
    lemma_first_index_of(s, c);
}

/// Without `c` in `s`, `first_index_of` gives nothing.
pub proof fn lemma_first_index_of_absent(s: Seq<char>, c: char)
    requires
        forall|j: int| 0 <= j < s.len() ==> s[j] != c,
    ensures
        first_index_of(s, c) is None,
{
    lemma_first_index_of(s, c);
}

/// The position in `v` of the first `c` of the suffix `v[from..]`.
pub fn find_char_suffix(v: &Vec<char>, c: char, from: usize) -> (r: Option<usize>)
    requires
        from <= v@.len(),
    ensures
        match first_index_of(v@.skip(from as int), c) {
            Some(k) => 0 <= k && r == Some((from + k) as usize) && from + k < v@.len(),
            None => r is None,
        },
        match r {
            Some(i) => from <= i < v@.len(),
            None => true,
        },
{
    let r = find_char_from(v, c, from);
    proof {
        let t = v@.skip(from as int);
        match r {
            Some(i) => {
                assert forall|j: int| 0 <= j < i - from implies t[j] != c by {
                    assert(t[j] == v@[from + j]);
                }
                assert(t[i - from] == v@[i as int]);
                lemma_first_index_of_least(t, c, i - from);
            },
            None => {
                assert forall|j: int| 0 <= j < t.len() implies t[j] != c by {
                    assert(t[j] == v@[from + j]);
                }
                lemma_first_index_of_absent(t, c);
            },
        }
    }
    r
}

/// A result of `find_spec` is an occurrence at or after `from`.
pub proof fn lemma_find_spec_range(s: Seq<char>, pat: Seq<char>, from: int)
    ensures
        match find_spec(s, pat, from) {
            Some(i) => from <= i && occurs_at(s, pat, i),
            None => true,
        },
    decreases s.len() - from,
{
    if 0 <= from < s.len() && !occurs_at(s, pat, from) {
        lemma_find_spec_range(s, pat, from + 1);
    }
}

/// The position in `v` of the first occurrence of `pat` in the suffix
/// `v[from..]`.
pub fn find_suffix(v: &Vec<char>, pat: &Vec<char>, from: usize) -> (r: Option<usize>)
    requires
        from <= v@.len(),
    ensures
        match find_spec(v@.skip(from as int), pat@, 0) {
            Some(k) => 0 <= k && r == Some((from + k) as usize) && from + k + pat@.len() <= v@.len(),
            None => r is None,
        },
        match r {
            Some(i) => from <= i && i + pat@.len() <= v@.len(),
            None => true,
        },
{
    let r = find_from(v, pat, from);
    proof {
        let t = v@.skip(from as int);
        assert forall|j: int| 0 <= j implies occurs_at(t, pat@, j) == occurs_at(v@, pat@, from + j) by {
            if occurs_at(t, pat@, j) {
                assert(v@.subrange(from + j, from + j + pat@.len()) =~= t.subrange(j, j + pat@.len()));
            }
            if occurs_at(v@, pat@, from + j) {
                assert(v@.subrange(from + j, from + j + pat@.len()) =~= t.subrange(j, j + pat@.len()));
            }
        }
        match r {
            Some(i) => {
                assert(occurs_at(t, pat@, i - from));
                assert forall|j: int| 0 <= j < i - from implies !occurs_at(t, pat@, j) by {
                    assert(!occurs_at(v@, pat@, from + j));
                }
                lemma_find_spec_some(t, pat@, 0, i - from);
            },
            None => {
                assert forall|j: int| 0 <= j implies !occurs_at(t, pat@, j) by {
                    assert(!occurs_at(v@, pat@, from + j));
                }
                lemma_find_spec_none(t, pat@, 0);
            },
        }
    }
    r
}

/// The number of leading `c` in `s`.
pub open spec fn leading_run(s: Seq<char>, c: char) -> nat
    decreases s.len(),
{
    if s.len() > 0 && s[0] == c {
        1 + leading_run(s.drop_first(), c)
    } else {
        0
    }
}

/// The position just after the run of `c` that starts the suffix
/// `v[from..]`.
pub fn skip_run(v: &Vec<char>, c: char, from: usize) -> (r: usize)
    requires
        from <= v@.len(),
    ensures
        r == from + leading_run(v@.skip(from as int), c),
        r <= v@.len(),
{
    let mut i = from;
    while i < v.len() && v[i] == c
        invariant
            from <= i <= v@.len(),
            leading_run(v@.skip(from as int), c) == (i - from) + leading_run(v@.skip(i as int), c),
        decreases v@.len() - i,
    {
        assert(v@.skip(i as int).drop_first() =~= v@.skip(i + 1));
        i = i + 1;
    }
    i
}

/// A copy of the characters `v[from..to]`.
pub fn chars_between(v: &Vec<char>, from: usize, to: usize) -> (r: Vec<char>)
    requires
        from <= to <= v@.len(),
    ensures
        r@ == v@.subrange(from as int, to as int),
{
    let mut r: Vec<char> = Vec::new();
    let mut i = from;
    while i < to
        invariant
            from <= i <= to <= v@.len(),
            r@ == v@.subrange(from as int, i as int),
        decreases to - i,
    {
        r.push(v[i]);
        assert(r@ =~= v@.subrange(from as int, i + 1));
        i = i + 1;
    }
    r
}

/// The characters of `s` with every `c` removed.
pub open spec fn remove_char(s: Seq<char>, c: char) -> Seq<char> {
    s.filter(|x: char| x != c)
}

/// No `c` is left after removing every `c`.
pub proof fn lemma_remove_char(s: Seq<char>, c: char)
    ensures
        forall|i: int| 0 <= i < remove_char(s, c).len() ==> remove_char(s, c)[i] != c,
    decreases s.len(),
{
    reveal_with_fuel(Seq::filter, 1);
    if s.len() > 0 {
        lemma_remove_char(s.drop_last(), c);
    }
}

/// Removes every occurrence of `c` from `v` (`str::replace(c, "")`).
pub fn without_char(v: &Vec<char>, c: char) -> (r: Vec<char>)
    ensures
        r@ == remove_char(v@, c),
{
    let mut r: Vec<char> = Vec::new();
    let mut i: usize = 0;
    while i < v.len()
        invariant
            i <= v@.len(),
            r@ == remove_char(v@.take(i as int), c),
        decreases v@.len() - i,
    {
        assert(v@.take(i + 1).drop_last() == v@.take(i as int));
        reveal_with_fuel(Seq::filter, 1);
        if v[i] != c {
            r.push(v[i]);
        }
        i = i + 1;
    }
    assert(v@.take(v@.len() as int) == v@);
    r
}

// ---------------------------------------------------------------------------
// Character classes
// ---------------------------------------------------------------------------

/// Unicode `White_Space` (`char::is_whitespace`).
pub open spec fn is_ws(c: char) -> bool {
    ||| '\t' <= c <= '\r'
    ||| c == ' '
    ||| c == '\u{85}'
    ||| c == '\u{A0}'
    ||| c == '\u{1680}'
    ||| '\u{2000}' <= c <= '\u{200A}'
    ||| c == '\u{2028}'
    ||| c == '\u{2029}'
    ||| c == '\u{202F}'
    ||| c == '\u{205F}'
    ||| c == '\u{3000}'
}

/// Whether `c` is white space (`char::is_whitespace`).
pub fn is_whitespace(c: char) -> (r: bool)
    ensures
        r == is_ws(c),
{
    ('\t' <= c && c <= '\r') || c == ' ' || c == '\u{85}' || c == '\u{A0}' || c == '\u{1680}'
        || ('\u{2000}' <= c && c <= '\u{200A}') || c == '\u{2028}' || c == '\u{2029}' || c
        == '\u{202F}' || c == '\u{205F}' || c == '\u{3000}'
}

/// ASCII punctuation (`char::is_ascii_punctuation`).
pub open spec fn is_punct(c: char) -> bool {
    ||| '!' <= c <= '/'
    ||| ':' <= c <= '@'
    ||| '[' <= c <= '`'
    ||| '{' <= c <= '~'
}

/// Whether `c` is ASCII punctuation.
pub fn is_ascii_punctuation(c: char) -> (r: bool)
    ensures
        r == is_punct(c),
{
    ('!' <= c && c <= '/') || (':' <= c && c <= '@') || ('[' <= c && c <= '`') || ('{' <= c
        && c <= '~')
}

/// The number of bytes of the UTF-8 encoding of `c` (`char::len_utf8`).
pub open spec fn utf8_width(c: char) -> nat {
    if (c as u32) < 0x80 {
        1
    } else if (c as u32) < 0x800 {
        2
    } else if (c as u32) < 0x10000 {
        3
    } else {
        4
    }
}

/// The number of bytes of the UTF-8 encoding of `s` (`str::len`).
pub open spec fn utf8_len(s: Seq<char>) -> nat
    decreases s.len(),
{
    if s.len() == 0 {
        0
    } else {
        utf8_len(s.drop_last()) + utf8_width(s.last())
    }
}

/// The number of UTF-8 bytes of `c`.
pub fn char_width(c: char) -> (r: usize)
    ensures
        r == utf8_width(c),
{
    if (c as u32) < 0x80 {
        1
    } else if (c as u32) < 0x800 {
        2
    } else if (c as u32) < 0x10000 {
        3
    } else {
        4
    }
}

// ---------------------------------------------------------------------------
// Case mapping (Unicode tables of std)
// ---------------------------------------------------------------------------

/// What `str::to_lowercase` returns for a string with the characters `s`.
pub uninterp spec fn lowercase(s: Seq<char>) -> Seq<char>;

/// What `str::to_uppercase` returns for a string with the characters `s`.
pub uninterp spec fn uppercase(s: Seq<char>) -> Seq<char>;

/// Whether every character of `s` is ASCII.
pub open spec fn all_ascii(s: Seq<char>) -> bool {
    forall|i: int| 0 <= i < s.len() ==> (#[trigger] s[i] as u32) < 128
}

/// `c` with an ASCII capital letter turned into its small letter.
pub open spec fn ascii_lower_char(c: char) -> char {
    if 'A' <= c && c <= 'Z' {
        ((c as u32) + 32) as char
    } else {
        c
    }
}

/// `c` with an ASCII small letter turned into its capital letter.
pub open spec fn ascii_upper_char(c: char) -> char {
    if 'a' <= c && c <= 'z' {
        ((c as u32) - 32) as char
    } else {
        c
    }
}

/// `s` with every ASCII capital letter turned into its small letter.
pub open spec fn ascii_lower(s: Seq<char>) -> Seq<char> {
    s.map_values(|c: char| ascii_lower_char(c))
}

/// `s` with every ASCII small letter turned into its capital letter.
pub open spec fn ascii_upper(s: Seq<char>) -> Seq<char> {
    s.map_values(|c: char| ascii_upper_char(c))
}

/// `str::to_lowercase`: the lowercase mapping of `s` by the Unicode tables of
/// std. The contract ties the result to the characters of `s` by the name
/// `lowercase`; for ASCII text it states the mapping (A to Z become a to z,
/// every other character stays), as the Unicode tables give it. What the
/// mapping is on other characters is not stated here.
#[verifier::external_body]
pub(crate) fn to_lower(s: &str) -> (r: String)
    ensures
        r@ == lowercase(s@),
        all_ascii(s@) ==> r@ == ascii_lower(s@),
{
    s.to_lowercase()
}

/// `str::to_uppercase`: the uppercase mapping of `s` by the Unicode tables of
/// std. The contract ties the result to the characters of `s` by the name
/// `uppercase`; for ASCII text it states the mapping (a to z become A to Z,
/// every other character stays), as the Unicode tables give it. What the
/// mapping is on other characters is not stated here.
#[verifier::external_body]
pub(crate) fn to_upper(s: &str) -> (r: String)
    ensures
        r@ == uppercase(s@),
        all_ascii(s@) ==> r@ == ascii_upper(s@),
{
    s.to_uppercase()
}

// ---------------------------------------------------------------------------
// Trimming and splitting on white space
// ---------------------------------------------------------------------------

/// The number of leading white-space characters of `s`.
pub open spec fn leading_ws(s: Seq<char>) -> nat
    decreases s.len(),
{
    if s.len() > 0 && is_ws(s[0]) {
        1 + leading_ws(s.drop_first())
    } else {
        0
    }
}

/// The number of trailing white-space characters of `s`.
pub open spec fn trailing_ws(s: Seq<char>) -> nat
    decreases s.len(),
{
    if s.len() > 0 && is_ws(s.last()) {
        1 + trailing_ws(s.drop_last())
    } else {
        0
    }
}

/// `s` without its leading white space (`str::trim_start`).
pub open spec fn trim_start_spec(s: Seq<char>) -> Seq<char> {
    s.skip(leading_ws(s) as int)
}

/// `s` without its trailing white space (`str::trim_end`).
pub open spec fn trim_end_spec(s: Seq<char>) -> Seq<char> {
    s.take(s.len() - trailing_ws(s))
}

/// `s` without leading and trailing white space (`str::trim`).
pub open spec fn trim_spec(s: Seq<char>) -> Seq<char> {
    trim_end_spec(trim_start_spec(s))
}

pub proof fn lemma_leading_ws(s: Seq<char>)
    ensures
        leading_ws(s) <= s.len(),
        forall|j: int| 0 <= j < leading_ws(s) ==> is_ws(s[j]),
        leading_ws(s) < s.len() ==> !is_ws(s[leading_ws(s) as int]),
    decreases s.len(),
{
    if s.len() > 0 && is_ws(s[0]) {
        lemma_leading_ws(s.drop_first());
        assert forall|j: int| 0 <= j < leading_ws(s) implies is_ws(s[j]) by {
            if j > 0 {
                assert(s[j] == s.drop_first()[j - 1]);
            }
        }
    }
}

pub proof fn lemma_trailing_ws(s: Seq<char>)
    ensures
        trailing_ws(s) <= s.len(),
        forall|j: int| s.len() - trailing_ws(s) <= j < s.len() ==> is_ws(s[j]),
        trailing_ws(s) < s.len() ==> !is_ws(s[s.len() - trailing_ws(s) - 1]),
    decreases s.len(),
{
    if s.len() > 0 && is_ws(s.last()) {
        lemma_trailing_ws(s.drop_last());
        assert forall|j: int| s.len() - trailing_ws(s) <= j < s.len() implies is_ws(s[j]) by {
            if j < s.len() - 1 {
                assert(s[j] == s.drop_last()[j]);
            }
        }
    }
}

/// The position of the first non-white-space character of `v[from..to]`
/// (or `to`).
pub fn skip_ws(v: &Vec<char>, from: usize, to: usize) -> (r: usize)
    requires
        from <= to <= v@.len(),
    ensures
        from <= r <= to,
        r == from + leading_ws(v@.subrange(from as int, to as int)),
{
    let ghost s = v@.subrange(from as int, to as int);
    let mut i = from;
    proof {
        lemma_leading_ws(s);
    }
    while i < to && is_whitespace(v[i])
        invariant
            from <= i <= to <= v@.len(),
            s == v@.subrange(from as int, to as int),
            i - from <= leading_ws(s),
            forall|j: int| from <= j < i ==> is_ws(v@[j]),
        decreases to - i,
    {
        proof {
            lemma_leading_ws_prefix(s, (i - from) as int);
        }
        i = i + 1;
    }
    proof {
        lemma_leading_ws_exact(s, (i - from) as int);
    }
    i
}

/// The end of `v[from..to]` once its trailing white space is dropped.
pub fn skip_ws_back(v: &Vec<char>, from: usize, to: usize) -> (r: usize)
    requires
        from <= to <= v@.len(),
    ensures
        from <= r <= to,
        r == to - trailing_ws(v@.subrange(from as int, to as int)),
{
    let ghost s = v@.subrange(from as int, to as int);
    let mut i = to;
    while i > from && is_whitespace(v[i - 1])
        invariant
            from <= i <= to <= v@.len(),
            s == v@.subrange(from as int, to as int),
            forall|j: int| i <= j < to ==> is_ws(v@[j]),
        decreases i - from,
    {
        proof {
            lemma_trailing_ws_suffix(s, (i - from) as int);
        }
        i = i - 1;
    }
    proof {
        lemma_trailing_ws_exact(s, (i - from) as int);
    }
    i
}

proof fn lemma_leading_ws_prefix(s: Seq<char>, k: int)
    requires
        0 <= k < s.len(),
        forall|j: int| 0 <= j <= k ==> is_ws(s[j]),
    ensures
        leading_ws(s) >= k + 1,
    decreases k,
{
    if k > 0 {
        lemma_leading_ws_prefix(s.drop_first(), k - 1);
    }
}

proof fn lemma_leading_ws_exact(s: Seq<char>, k: int)
    requires
        0 <= k <= s.len(),
        forall|j: int| 0 <= j < k ==> is_ws(s[j]),
        k == s.len() || !is_ws(s[k]),
    ensures
        leading_ws(s) == k,
    decreases k,
{
    if k > 0 {
        lemma_leading_ws_exact(s.drop_first(), k - 1);
    }
}

proof fn lemma_trailing_ws_suffix(s: Seq<char>, k: int)
    requires
        0 < k <= s.len(),
        forall|j: int| k - 1 <= j < s.len() ==> is_ws(s[j]),
    ensures
        trailing_ws(s) >= s.len() - k + 1,
    decreases s.len(),
{
    if s.len() > k {
        lemma_trailing_ws_suffix(s.drop_last(), k);
    }
}

proof fn lemma_trailing_ws_exact(s: Seq<char>, k: int)
    requires
        0 <= k <= s.len(),
        forall|j: int| k <= j < s.len() ==> is_ws(s[j]),
        k == 0 || !is_ws(s[k - 1]),
    ensures
        trailing_ws(s) == s.len() - k,
    decreases s.len(),
{
    if s.len() > k {
        lemma_trailing_ws_exact(s.drop_last(), k);
    }
}

/// The bounds of `v[from..to]` once trimmed on both sides (`str::trim`).
pub fn trim_bounds(v: &Vec<char>, from: usize, to: usize) -> (r: (usize, usize))
    requires
        from <= to <= v@.len(),
    ensures
        from <= r.0 <= r.1 <= to,
        v@.subrange(r.0 as int, r.1 as int) == trim_spec(v@.subrange(from as int, to as int)),
{
    let a = skip_ws(v, from, to);
    let b = skip_ws_back(v, a, to);
    proof {
        let s = v@.subrange(from as int, to as int);
        assert(trim_start_spec(s) =~= v@.subrange(a as int, to as int));
        assert(trim_end_spec(v@.subrange(a as int, to as int)) =~= v@.subrange(
            a as int,
            b as int,
        ));
    }
    (a, b)
}

/// The words of `s`: its maximal runs of non-white-space characters
/// (`str::split_whitespace`).
pub open spec fn words(s: Seq<char>) -> Seq<Seq<char>>
    decreases s.len(),
{
    if s.len() == 0 {
        Seq::empty()
    } else {
        let w = words(s.drop_last());
        let c = s.last();
        if is_ws(c) {
            w
        } else if s.len() >= 2 && !is_ws(s[s.len() - 2]) {
            w.update(w.len() - 1, w.last().push(c))
        } else {
            w.push(seq![c])
        }
    }
}

/// A non-empty string that does not end in white space has a last word,
/// which ends with its last character.
pub proof fn lemma_words_nonempty(s: Seq<char>)
    requires
        s.len() > 0,
        !is_ws(s.last()),
    ensures
        words(s).len() > 0,
    decreases s.len(),
{
    if s.len() >= 2 && !is_ws(s[s.len() - 2]) {
        lemma_words_nonempty(s.drop_last());
    }
}

/// The words of `v`, each as a pair of character positions `[start, end)`.
pub fn word_bounds(v: &Vec<char>) -> (r: Vec<(usize, usize)>)
    ensures
        r@.len() == words(v@).len(),
        forall|k: int| #![trigger r@[k]] 0 <= k < r@.len() ==> r@[k].0 < r@[k].1 <= v@.len(),
        forall|k: int|
            0 <= k < r@.len() ==> words(v@)[k] == v@.subrange(r@[k].0 as int, r@[k].1 as int),
{
    let mut r: Vec<(usize, usize)> = Vec::new();
    let mut i: usize = 0;
    while i < v.len()
        invariant
            i <= v@.len(),
            r@.len() == words(v@.take(i as int)).len(),
            forall|k: int| #![trigger r@[k]] 0 <= k < r@.len() ==> r@[k].0 < r@[k].1 && r@[k].1 <= i,
            forall|k: int|
                0 <= k < r@.len() ==> words(v@.take(i as int))[k] == v@.subrange(
                    r@[k].0 as int,
                    r@[k].1 as int,
                ),
            i > 0 && !is_ws(v@[i - 1]) ==> r@.len() > 0 && r@.last().1 == i,
        decreases v@.len() - i,
    {
        let c = v[i];
        let ghost pre = v@.take(i as int);
        let ghost cur = v@.take(i + 1);
        let ghost old_r = r@;
        assert(cur.drop_last() =~= pre);
        assert(cur.last() == c);
        if is_whitespace(c) {
            assert(words(cur) == words(pre));
            assert forall|k: int| #![trigger r@[k]] 0 <= k < r@.len() implies r@[k].0 < r@[k].1
                && r@[k].1 <= i + 1 by {
                assert(old_r[k].0 < old_r[k].1);
            }
        } else if i > 0 && !is_whitespace(v[i - 1]) {
            assert(cur[cur.len() - 2] == v@[i - 1]);
            let last = r.len() - 1;
            let start = r[last].0;
            assert(old_r[last as int].0 < old_r[last as int].1);
            r.set(last, (start, i + 1));
            proof {
                let w = words(pre);
                assert(words(cur) == w.update(w.len() - 1, w.last().push(c)));
                assert(v@.subrange(start as int, i + 1) =~= v@.subrange(
                    start as int,
                    i as int,
                ).push(c));
                assert forall|k: int| 0 <= k < r@.len() implies words(cur)[k] == v@.subrange(
                    r@[k].0 as int,
                    r@[k].1 as int,
                ) by {
                    if k < last {
                        assert(r@[k] == old_r[k]);
                    }
                }
                assert forall|k: int| #![trigger r@[k]] 0 <= k < r@.len() implies r@[k].0
                    < r@[k].1 && r@[k].1 <= i + 1 by {
                    if k < last {
                        assert(r@[k] == old_r[k]);
                        assert(old_r[k].0 < old_r[k].1);
                    }
                }
            }
        } else {
            proof {
                if i > 0 {
                    assert(cur[cur.len() - 2] == v@[i - 1]);
                }
            }
            r.push((i, i + 1));
            proof {
                let w = words(pre);
                assert(words(cur) == w.push(seq![c]));
                assert(v@.subrange(i as int, i + 1) =~= seq![c]);
                assert forall|k: int| 0 <= k < r@.len() implies words(cur)[k] == v@.subrange(
                    r@[k].0 as int,
                    r@[k].1 as int,
                ) by {
                    if k < old_r.len() {
                        assert(r@[k] == old_r[k]);
                    }
                }
                assert forall|k: int| #![trigger r@[k]] 0 <= k < r@.len() implies r@[k].0
                    < r@[k].1 && r@[k].1 <= i + 1 by {
                    if k < old_r.len() {
                        assert(r@[k] == old_r[k]);
                        assert(old_r[k].0 < old_r[k].1);
                    }
                }
            }
        }
        i = i + 1;
    }
    assert(v@.take(v@.len() as int) == v@);
    r
}

/// The number of words of `s` (`split_whitespace().count()`).
pub fn count_words(s: &str) -> (n: usize)
    ensures
        n == words(s@).len(),
{
    let v = chars_of(s);
    let b = word_bounds(&v);
    b.len()
}

/// The pieces of `s` between the separators `sep` (`str::split` on a
/// `char`); there is always at least one piece.
pub open spec fn split_on(s: Seq<char>, sep: char) -> Seq<Seq<char>>
    decreases s.len(),
{
    if s.len() == 0 {
        seq![Seq::empty()]
    } else {
        let w = split_on(s.drop_last(), sep);
        if s.last() == sep {
            w.push(Seq::empty())
        } else {
            w.update(w.len() - 1, w.last().push(s.last()))
        }
    }
}

pub proof fn lemma_split_on_nonempty(s: Seq<char>, sep: char)
    ensures
        split_on(s, sep).len() >= 1,
    decreases s.len(),
{
    if s.len() > 0 {
        lemma_split_on_nonempty(s.drop_last(), sep);
    }
}

/// The pieces of `v` between the separators `sep`, each as a pair of
/// character positions `[start, end)`.
pub fn split_bounds(v: &Vec<char>, sep: char) -> (r: Vec<(usize, usize)>)
    ensures
        r@.len() == split_on(v@, sep).len(),
        forall|k: int| #![trigger r@[k]] 0 <= k < r@.len() ==> r@[k].0 <= r@[k].1 <= v@.len(),
        forall|k: int|
            0 <= k < r@.len() ==> split_on(v@, sep)[k] == v@.subrange(
                r@[k].0 as int,
                r@[k].1 as int,
            ),
{
    let mut r: Vec<(usize, usize)> = Vec::new();
    r.push((0, 0));
    let mut i: usize = 0;
    assert(v@.take(0) =~= Seq::<char>::empty());
    assert(split_on(v@.take(0), sep) =~= seq![Seq::<char>::empty()]);
    while i < v.len()
        invariant
            i <= v@.len(),
            r@.len() >= 1,
            r@.last().1 == i,
            r@.len() == split_on(v@.take(i as int), sep).len(),
            forall|k: int| #![trigger r@[k]] 0 <= k < r@.len() ==> r@[k].0 <= r@[k].1 && r@[k].1 <= i,
            forall|k: int|
                0 <= k < r@.len() ==> split_on(v@.take(i as int), sep)[k] == v@.subrange(
                    r@[k].0 as int,
                    r@[k].1 as int,
                ),
        decreases v@.len() - i,
    {
        let c = v[i];
        let ghost pre = v@.take(i as int);
        let ghost cur = v@.take(i + 1);
        let ghost old_r = r@;
        assert(cur.drop_last() =~= pre);
        assert(cur.last() == c);
        if c == sep {
            r.push((i + 1, i + 1));
            proof {
                let w = split_on(pre, sep);
                assert(split_on(cur, sep) == w.push(Seq::<char>::empty()));
                assert(v@.subrange(i + 1, i + 1) =~= Seq::<char>::empty());
                assert forall|k: int| #![trigger r@[k]] 0 <= k < r@.len() implies r@[k].0 <= r@[k].1
                    && r@[k].1 <= i + 1 by {
                    if k < old_r.len() {
                        assert(r@[k] == old_r[k]);
                    }
                }
                assert forall|k: int| 0 <= k < r@.len() implies split_on(cur, sep)[k]
                    == v@.subrange(r@[k].0 as int, r@[k].1 as int) by {
                    if k < old_r.len() {
                        assert(r@[k] == old_r[k]);
                    }
                }
            }
        } else {
            let last = r.len() - 1;
            let start = r[last].0;
            assert(old_r[last as int].0 <= old_r[last as int].1);
            r.set(last, (start, i + 1));
            proof {
                let w = split_on(pre, sep);
                lemma_split_on_nonempty(pre, sep);
                assert(split_on(cur, sep) == w.update(w.len() - 1, w.last().push(c)));
                assert(v@.subrange(start as int, i + 1) =~= v@.subrange(
                    start as int,
                    i as int,
                ).push(c));
                assert forall|k: int| #![trigger r@[k]] 0 <= k < r@.len() implies r@[k].0 <= r@[k].1
                    && r@[k].1 <= i + 1 by {
                    if k < last {
                        assert(r@[k] == old_r[k]);
                        assert(old_r[k].0 <= old_r[k].1);
                    }
                }
                assert forall|k: int| 0 <= k < r@.len() implies split_on(cur, sep)[k]
                    == v@.subrange(r@[k].0 as int, r@[k].1 as int) by {
                    if k < last {
                        assert(r@[k] == old_r[k]);
                    }
                }
            }
        }
        i = i + 1;
    }
    assert(v@.take(v@.len() as int) == v@);
    r
}

/// A line that a line feed ended, as `str::lines` gives it: without a
/// carriage return just before that line feed.
pub open spec fn strip_cr(s: Seq<char>) -> Seq<char> {
    if s.len() > 0 && s.last() == '\r' {
        s.drop_last()
    } else {
        s
    }
}

/// The lines of `s` (`str::lines`): the pieces between line feeds, each
/// piece that a line feed ends without a carriage return at its end; the
/// piece after the last line feed counts only when it is not empty.
pub open spec fn lines_spec(s: Seq<char>) -> Seq<Seq<char>> {
    let p = split_on(s, '\n');
    let body = Seq::new((p.len() - 1) as nat, |i: int| strip_cr(p[i]));
    if p.last().len() == 0 {
        body
    } else {
        body.push(p.last())
    }
}

/// The lines of `v`, each as a pair of character positions `[start, end)`.
pub fn line_bounds(v: &Vec<char>) -> (r: Vec<(usize, usize)>)
    ensures
        r@.len() == lines_spec(v@).len(),
        forall|k: int| #![trigger r@[k]] 0 <= k < r@.len() ==> r@[k].0 <= r@[k].1 <= v@.len(),
        forall|k: int|
            0 <= k < r@.len() ==> lines_spec(v@)[k] == v@.subrange(r@[k].0 as int, r@[k].1 as int),
{
    let parts = split_bounds(v, '\n');
    let ghost p = split_on(v@, '\n');
    proof {
        lemma_split_on_nonempty(v@, '\n');
    }
    let n = parts.len();
    let mut r: Vec<(usize, usize)> = Vec::new();
    let mut k: usize = 0;
    while k + 1 < n
        invariant
            n == parts@.len() == p.len() >= 1,
            p == split_on(v@, '\n'),
            forall|m: int| #![trigger parts@[m]] 0 <= m < parts@.len() ==> parts@[m].0 <= parts@[m].1 <= v@.len(),
            forall|m: int| 0 <= m < parts@.len() ==> p[m] == v@.subrange(parts@[m].0 as int, parts@[m].1 as int),
            k < n,
            r@.len() == k,
            forall|m: int| #![trigger r@[m]] 0 <= m < r@.len() ==> r@[m].0 <= r@[m].1 <= v@.len(),
            forall|m: int| #![trigger r@[m]]
                0 <= m < r@.len() ==> strip_cr(p[m]) == v@.subrange(r@[m].0 as int, r@[m].1 as int),
        decreases n - k,
    {
        let (a, b) = parts[k];
        assert(p[k as int] == v@.subrange(a as int, b as int));
        if b > a && v[b - 1] == '\r' {
            assert(v@.subrange(a as int, b as int).drop_last() =~= v@.subrange(a as int, b - 1));
            r.push((a, b - 1));
        } else {
            r.push((a, b));
        }
        k = k + 1;
    }
    let (a, b) = parts[n - 1];
    assert(p.last() == v@.subrange(a as int, b as int));
    if a < b {
        r.push((a, b));
    }
    proof {
        let body = Seq::new((p.len() - 1) as nat, |i: int| strip_cr(p[i]));
        assert forall|m: int| 0 <= m < r@.len() implies lines_spec(v@)[m] == v@.subrange(
            r@[m].0 as int,
            r@[m].1 as int,
        ) by {
            if m < n - 1 {
                assert(lines_spec(v@)[m] == body[m]);
            }
        }
    }
    r
}

/// Whether `v[from..to]` holds exactly the characters of `lit`.
pub fn slice_is(v: &Vec<char>, from: usize, to: usize, lit: &str) -> (r: bool)
    requires
        from <= to <= v@.len(),
    ensures
        r == (v@.subrange(from as int, to as int) == lit@),
{
    let l = chars_of(lit);
    if to - from != l.len() {
        assert(v@.subrange(from as int, to as int).len() != lit@.len());
        return false;
    }
    let mut k: usize = 0;
    while k < l.len()
        invariant
            from <= to <= v@.len(),
            to - from == l@.len(),
            l@ == lit@,
            k <= l@.len(),
            forall|m: int| 0 <= m < k ==> v@[from + m] == l@[m],
        decreases l@.len() - k,
    {
        if v[from + k] != l[k] {
            assert(v@.subrange(from as int, to as int)[k as int] != l@[k as int]);
            return false;
        }
        k = k + 1;
    }
    assert(v@.subrange(from as int, to as int) =~= l@);
    true
}

/// A string holding the characters `v[from..to]`.
pub fn string_of_slice(v: &Vec<char>, from: usize, to: usize) -> (s: String)
    requires
        from <= to <= v@.len(),
    ensures
        s@ == v@.subrange(from as int, to as int),
{
    let mut s = String::new();
    push_chars(&mut s, v, from, to);
    s
}

// ---------------------------------------------------------------------------
// Numbers
// ---------------------------------------------------------------------------

/// The decimal digit character for `d`.
pub open spec fn digit_char(d: nat) -> char {
    if d == 0 {
        '0'
    } else if d == 1 {
        '1'
    } else if d == 2 {
        '2'
    } else if d == 3 {
        '3'
    } else if d == 4 {
        '4'
    } else if d == 5 {
        '5'
    } else if d == 6 {
        '6'
    } else if d == 7 {
        '7'
    } else if d == 8 {
        '8'
    } else {
        '9'
    }
}

/// The decimal representation of `n`, without leading zeros
/// (`u64::to_string`).
pub open spec fn decimal(n: nat) -> Seq<char>
    decreases n,
{
    if n < 10 {
        seq![digit_char(n)]
    } else {
        decimal(n / 10).push(digit_char(n % 10))
    }
}

fn digit_of(d: u64) -> (c: char)
    requires
        d < 10,
    ensures
        c == digit_char(d as nat),
{
    if d == 0 {
        '0'
    } else if d == 1 {
        '1'
    } else if d == 2 {
        '2'
    } else if d == 3 {
        '3'
    } else if d == 4 {
        '4'
    } else if d == 5 {
        '5'
    } else if d == 6 {
        '6'
    } else if d == 7 {
        '7'
    } else if d == 8 {
        '8'
    } else {
        '9'
    }
}

/// Appends the decimal representation of `n` to `s`.
pub fn push_decimal(s: &mut String, n: u64)
    ensures
        final(s)@ == old(s)@ + decimal(n as nat),
    decreases n,
{
    if n >= 10 {
        push_decimal(s, n / 10);
    }
    push_char(s, digit_of(n % 10));
    proof {
        if n >= 10 {
            assert(old(s)@ + decimal((n / 10) as nat) + seq![digit_char((n % 10) as nat)]
                =~= old(s)@ + decimal(n as nat));
        } else {
            assert(old(s)@.push(digit_char((n % 10) as nat)) =~= old(s)@ + decimal(n as nat));
        }
    }
}

/// The value of the decimal digit `c`.
pub open spec fn digit_value(c: char) -> int {
    (c as u32) - ('0' as u32)
}

/// Whether `c` is an ASCII decimal digit.
pub open spec fn is_digit(c: char) -> bool {
    '0' <= c <= '9'
}

/// Whether every character of `s` is a decimal digit.
pub open spec fn all_digits(s: Seq<char>) -> bool {
    forall|i: int| 0 <= i < s.len() ==> is_digit(#[trigger] s[i])
}

/// The value of a string of decimal digits.
pub open spec fn digits_value(s: Seq<char>) -> int
    decreases s.len(),
{
    if s.len() == 0 {
        0
    } else {
        digits_value(s.drop_last()) * 10 + digit_value(s.last())
    }
}

/// What `str::parse` gives for an unsigned integer type whose largest value
/// is `max`: an optional `+` and at least one decimal digit, with a value of
/// at most `max`.
pub open spec fn parse_unsigned(s: Seq<char>, max: int) -> Option<int> {
    let body = if s.len() > 0 && s[0] == '+' {
        s.drop_first()
    } else {
        s
    };
    if body.len() > 0 && all_digits(body)
        && digits_value(body) <= max {
        Some(digits_value(body))
    } else {
        None
    }
}

/// What `str::parse::<i32>` gives: an optional sign and at least one decimal
/// digit, with a value that fits in 32 bits.
pub open spec fn parse_i32_spec(s: Seq<char>) -> Option<int> {
    if s.len() > 0 && s[0] == '-' {
        let body = s.drop_first();
        if body.len() > 0 && all_digits(body)
            && digits_value(body) <= 0x8000_0000 {
            Some(-digits_value(body))
        } else {
            None
        }
    } else {
        parse_unsigned(s, 0x7fff_ffff)
    }
}

proof fn lemma_digits_value_grows(s: Seq<char>, k: int)
    requires
        0 <= k <= s.len(),
        forall|i: int| 0 <= i < s.len() ==> is_digit(#[trigger] s[i]),
    ensures
        digits_value(s) >= digits_value(s.take(k)) >= 0,
    decreases s.len(),
{
    if s.len() > 0 {
        if k == s.len() {
            assert(s.take(k) == s);
            lemma_digits_value_grows(s.drop_last(), k - 1);
            assert(s.drop_last().take(k - 1) == s.drop_last());
        } else {
            lemma_digits_value_grows(s.drop_last(), k);
            assert(s.drop_last().take(k) == s.take(k));
        }
    }
}

/// The value of the digits `v[from..to]`, if all of them are decimal digits,
/// there is at least one, and the value is at most `max`.
pub fn digits_upto(v: &Vec<char>, from: usize, to: usize, max: u64) -> (r: Option<u64>)
    requires
        from <= to <= v@.len(),
    ensures
        ({
            let body = v@.subrange(from as int, to as int);
            match r {
                Some(n) => body.len() > 0 && all_digits(body) && n == digits_value(
                    body,
                ) && n <= max,
                None => !(body.len() > 0 && all_digits(body) && digits_value(body)
                    <= max),
            }
        }),
{
    let ghost body = v@.subrange(from as int, to as int);
    if from == to {
        return None;
    }
    let mut i = from;
    let mut n: u64 = 0;
    while i < to
        invariant
            from <= i <= to <= v@.len(),
            body == v@.subrange(from as int, to as int),
            forall|j: int| 0 <= j < i - from ==> is_digit(#[trigger] body[j]),
            n == digits_value(body.take(i - from)),
            n <= max,
        decreases to - i,
    {
        let c = v[i];
        assert(body[i - from] == c);
        if !('0' <= c && c <= '9') {
            return None;
        }
        let d = (c as u32 - '0' as u32) as u64;
        assert(body.take(i - from + 1).drop_last() == body.take(i - from));
        if d > max || n > (max - d) / 10 {
            proof {
                assert(digits_value(body.take(i - from + 1)) > max) by (nonlinear_arith)
                    requires
                        d > max || n > (max - d) / 10,
                        digits_value(body.take(i - from + 1)) == n * 10 + d,
                        n >= 0,
                ;
                if all_digits(body) {
                    lemma_digits_value_grows(body, i - from + 1);
                }
            }
            return None;
        }
        assert(n * 10 + d <= max) by (nonlinear_arith)
            requires
                n <= (max - d) / 10,
                d <= max,
        ;
        n = n * 10 + d;
        i = i + 1;
    }
    assert(body.take(to - from) == body);
    Some(n)
}

/// What `str::parse` gives on the characters `v[from..to]` for an unsigned
/// integer type whose largest value is `max`.
pub fn parse_unsigned_slice(v: &Vec<char>, from: usize, to: usize, max: u64) -> (r: Option<u64>)
    requires
        from <= to <= v@.len(),
    ensures
        match parse_unsigned(v@.subrange(from as int, to as int), max as int) {
            Some(n) => r is Some && r->Some_0 == n,
            None => r is None,
        },
        match r {
            Some(n) => n <= max,
            None => true,
        },
{
    let ghost s = v@.subrange(from as int, to as int);
    let signed = from < to && v[from] == '+';
    let start = if signed {
        from + 1
    } else {
        from
    };
    proof {
        if from < to {
            assert(s[0] == v@[from as int]);
        }
        if signed {
            assert(s.drop_first() =~= v@.subrange(start as int, to as int));
        } else {
            assert(s =~= v@.subrange(start as int, to as int));
        }
    }
    let r = digits_upto(v, start, to, max);
    proof {
        let body = v@.subrange(start as int, to as int);
        let b2 = if s.len() > 0 && s[0] == '+' {
            s.drop_first()
        } else {
            s
        };
        assert(b2 == body);
        match r {
            Some(n) => {
                assert(body.len() > 0);
                assert(digits_value(b2) <= max);
                assert(parse_unsigned(s, max as int) == Some(digits_value(b2)));
            },
            None => {
                assert(parse_unsigned(s, max as int) is None);
            },
        }
    }
    r
}


/// What `str::parse::<i32>` gives on the characters `v[from..to]`.
pub fn parse_i32_slice(v: &Vec<char>, from: usize, to: usize) -> (r: Option<i32>)
    requires
        from <= to <= v@.len(),
    ensures
        match parse_i32_spec(v@.subrange(from as int, to as int)) {
            Some(n) => r is Some && r->Some_0 == n,
            None => r is None,
        },
{
    let ghost s = v@.subrange(from as int, to as int);
    if from < to && v[from] == '-' {
        assert(s[0] == '-');
        assert(s.drop_first() =~= v@.subrange(from + 1, to as int));
        match digits_upto(v, from + 1, to, 0x8000_0000) {
            Some(n) => {
                if n == 0x8000_0000 {
                    Some(i32::MIN)
                } else {
                    let m = n as i32;
                    Some(-m)
                }
            },
            None => None,
        }
    } else {
        proof {
            if from < to {
                assert(s[0] == v@[from as int]);
            }
        }
        match parse_unsigned_slice(v, from, to, 0x7fff_ffff) {
            Some(n) => Some(n as i32),
            None => None,
        }
    }
}

} // verus!
