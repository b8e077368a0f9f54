//! Ownership and borrowing on strings and slices: a message built by moving
//! it through functions, text statistics, the common prefix of two strings
//! and excerpts that borrow their text.
use vstd::prelude::*;
use vstd::string::StringExecFns;
use crate::text::{
    char_slice, chars_of, count_words, first_index_of, lemma_first_index_of, lowercase, owned,
    push_char, string_of, to_lower, to_upper, uppercase, words,
};

verus! {

broadcast use vstd::string::group_string_axioms;

/// The message the chain starts from.
pub fn create_message() -> (r: String)
    ensures
        r@ == "World"@,
{
    owned("World")
}

/// `message` with `Hello, ` in front.
pub fn add_greeting(message: String) -> (r: String)
    ensures
        r@ == "Hello, "@ + message@,
{
    let mut r = owned("Hello, ");
    r.append(message.as_str());
    r
}

/// `message` with `!` at the end.
pub fn add_punctuation(message: String) -> (r: String)
    ensures
        r@ == message@.push('!'),
{
    let mut message = message;
    push_char(&mut message, '!');
    message
}

/// The number of words of `text` and `text` in uppercase.
pub fn analyze_text(text: &str) -> (r: (usize, String))
    ensures
        r.0 == words(text@).len(),
        r.1@ == uppercase(text@),
{
    let word_count = count_words(text);
    let upper = to_upper(text);
    (word_count, upper)
}

/// Statistics of a text.
#[derive(Debug)]
pub struct TextAnalysis {
    pub original: String,
    pub word_count: usize,
    pub char_count: usize,
    pub uppercase: String,
    pub lowercase: String,
    pub reversed: String,
}

/// `text`, its word and character counts, its upper- and lowercase forms and
/// its characters in reverse order.
pub fn analyze_text_detailed(text: &str) -> (r: TextAnalysis)
    ensures
        r.original@ == text@,
        r.word_count == words(text@).len(),
        r.char_count == text@.len(),
        r.uppercase@ == uppercase(text@),
        r.lowercase@ == lowercase(text@),
        r.reversed@ == text@.reverse(),
{
    let v = chars_of(text);
    let mut rev: Vec<char> = Vec::new();
    let mut i = v.len();
    while i > 0
        invariant
            i <= v@.len(),
            rev@ == v@.subrange(i as int, v@.len() as int).reverse(),
        decreases i,
    {
        i = i - 1;
        rev.push(v[i]);
        assert(rev@ =~= v@.subrange(i as int, v@.len() as int).reverse());
    }
    assert(v@.subrange(0, v@.len() as int) =~= v@);
    TextAnalysis {
        original: owned(text),
        word_count: count_words(text),
        char_count: v.len(),
        uppercase: to_upper(text),
        lowercase: to_lower(text),
        reversed: string_of(&rev),
    }
}

/// The length of the longest common prefix of `a` and `b`.
pub open spec fn common_prefix_len(a: Seq<char>, b: Seq<char>) -> nat
    decreases a.len(),
{
    if a.len() > 0 && b.len() > 0 && a[0] == b[0] {
        1 + common_prefix_len(a.drop_first(), b.drop_first())
    } else {
        0
    }
}

/// The longest common prefix of `s1` and `s2`, as a part of `s1`.
pub fn longest_common_prefix<'a>(s1: &'a str, s2: &str) -> (r: &'a str)
    ensures
        r@ == s1@.take(common_prefix_len(s1@, s2@) as int),
{
    let a = chars_of(s1);
    let b = chars_of(s2);
    let mut i: usize = 0;
    assert(a@.skip(0) =~= a@);
    assert(b@.skip(0) =~= b@);
    while i < a.len() && i < b.len() && a[i] == b[i]
        invariant
            i <= a@.len(),
            i <= b@.len(),
            common_prefix_len(a@, b@) == i + common_prefix_len(a@.skip(i as int), b@.skip(i as int)),
        decreases a@.len() - i,
    {
        assert(a@.skip(i as int).drop_first() =~= a@.skip(i + 1));
        assert(b@.skip(i as int).drop_first() =~= b@.skip(i + 1));
        i = i + 1;
    }
    proof {
        if i < a@.len() && i < b@.len() {
            assert(a@.skip(i as int)[0] == a@[i as int]);
            assert(b@.skip(i as int)[0] == b@[i as int]);
        }
    }
    char_slice(s1, 0, i)
}

/// The sum of `s`, each partial sum taken in order.
pub open spec fn sum_of(s: Seq<i32>) -> int
    decreases s.len(),
{
    if s.len() == 0 {
        0
    } else {
        sum_of(s.drop_last()) + s.last()
    }
}

/// The product of `s`, each partial product taken in order.
pub open spec fn product_of(s: Seq<i32>) -> int
    decreases s.len(),
{
    if s.len() == 0 {
        1
    } else {
        product_of(s.drop_last()) * s.last()
    }
}

/// The sum of `numbers` (which borrows them); every partial sum must fit
/// in an `i32`.
pub fn calculate_sum(numbers: &Vec<i32>) -> (r: i32)
    requires
        forall|k: int| 0 <= k <= numbers@.len() ==> i32::MIN <= #[trigger] sum_of(numbers@.take(k)) <= i32::MAX,
    ensures
        r == sum_of(numbers@),
{
    let mut s: i32 = 0;
    let mut i: usize = 0;
    assert(numbers@.take(0) =~= Seq::<i32>::empty());
    while i < numbers.len()
        invariant
            i <= numbers@.len(),
            forall|k: int| 0 <= k <= numbers@.len() ==> i32::MIN <= #[trigger] sum_of(numbers@.take(k)) <= i32::MAX,
            s == sum_of(numbers@.take(i as int)),
        decreases numbers@.len() - i,
    {
        assert(numbers@.take(i + 1).drop_last() =~= numbers@.take(i as int));
        assert(numbers@.take(i + 1).last() == numbers@[i as int]);
        assert(i32::MIN <= sum_of(numbers@.take(i + 1)) <= i32::MAX);
        s = s + numbers[i];
        i = i + 1;
    }
    assert(numbers@.take(numbers@.len() as int) =~= numbers@);
    s
}

/// The product of `numbers` (which it takes); every partial product must
/// fit in an `i32`.
pub fn calculate_product(numbers: Vec<i32>) -> (r: i32)
    requires
        forall|k: int| 0 <= k <= numbers@.len() ==> i32::MIN <= #[trigger] product_of(numbers@.take(k)) <= i32::MAX,
    ensures
        r == product_of(numbers@),
{
    let mut p: i32 = 1;
    let mut i: usize = 0;
    assert(numbers@.take(0) =~= Seq::<i32>::empty());
    while i < numbers.len()
        invariant
            i <= numbers@.len(),
            forall|k: int| 0 <= k <= numbers@.len() ==> i32::MIN <= #[trigger] product_of(numbers@.take(k)) <= i32::MAX,
            p == product_of(numbers@.take(i as int)),
        decreases numbers@.len() - i,
    {
        assert(numbers@.take(i + 1).drop_last() =~= numbers@.take(i as int));
        assert(numbers@.take(i + 1).last() == numbers@[i as int]);
        assert(i32::MIN <= product_of(numbers@.take(i + 1)) <= i32::MAX);
        p = p * numbers[i];
        i = i + 1;
    }
    assert(numbers@.take(numbers@.len() as int) =~= numbers@);
    p
}

/// A page of text that borrows its content.
pub struct BookExcerpt<'a> {
    pub content: &'a str,
    pub page: u32,
}

/// The text before the first `.`, or all of `s` without one
/// (`split('.').next()`).
pub open spec fn first_sentence_of(s: Seq<char>) -> Seq<char> {
    match first_index_of(s, '.') {
        Some(i) => s.take(i),
        None => s,
    }
}

impl<'a> BookExcerpt<'a> {
    /// An excerpt of `content` on page `page`.
    pub fn new(content: &'a str, page: u32) -> (r: Self)
        ensures
            r.content@ == content@,
            r.page == page,
    {
        BookExcerpt { content, page }
    }

    /// The number of words of the excerpt.
    pub fn word_count(&self) -> (r: usize)
        ensures
            r == words(self.content@).len(),
    {
        count_words(self.content)
    }

    /// The text before the first `.` of the excerpt.
    pub fn first_sentence(&self) -> (r: &str)
        ensures
            r@ == first_sentence_of(self.content@),
    {
        let v = chars_of(self.content);
        let mut i: usize = 0;
        while i < v.len() && v[i] != '.'
            invariant
                i <= v@.len(),
                forall|j: int| 0 <= j < i ==> v@[j] != '.',
            decreases v@.len() - i,
        {
            i = i + 1;
        }
        proof {
            lemma_first_index_of(v@, '.');
            if i < v@.len() {
                crate::text::lemma_first_index_of_least(v@, '.', i as int);
            } else {
                crate::text::lemma_first_index_of_absent(v@, '.');
                assert(v@.take(i as int) =~= v@);
            }
        }
        char_slice(self.content, 0, i)
    }
}

/// A string that is either owned or borrowed.
pub enum StringOrRef<'a> {
    Owned(String),
    Borrowed(&'a str),
}

/// The custom greeting, borrowed, or an owned default greeting.
pub fn get_greeting<'a>(custom: Option<&'a str>) -> (r: StringOrRef<'a>)
    ensures
        match custom {
            Some(g) => r matches StringOrRef::Borrowed(b) && b@ == g@,
            None => r matches StringOrRef::Owned(s) && s@ == "Hello, World!"@,
        },
{
    match custom {
        Some(greeting) => StringOrRef::Borrowed(greeting),
        None => StringOrRef::Owned(owned("Hello, World!")),
    }
}

} // verus!
