//! Word frequencies: words are the white-space separated runs of a text,
//! with the ASCII punctuation at their ends stripped and lowercased; empty
//! results are not counted.
use vstd::prelude::*;
use crate::text::{
    all_ascii, ascii_lower, chars_of, is_ascii_punctuation, is_punct, lowercase, string_of_slice, to_lower, word_bounds,
    words,
};

verus! {

broadcast use vstd::string::group_string_axioms;

// ---------------------------------------------------------------------------
// Normalising words
// ---------------------------------------------------------------------------

/// `s` without its leading ASCII punctuation.
pub open spec fn strip_front(s: Seq<char>) -> Seq<char>
    decreases s.len(),
{
    if s.len() > 0 && is_punct(s[0]) {
        strip_front(s.drop_first())
    } else {
        s
    }
}

/// `s` without its trailing ASCII punctuation.
pub open spec fn strip_back(s: Seq<char>) -> Seq<char>
    decreases s.len(),
{
    if s.len() > 0 && is_punct(s.last()) {
        strip_back(s.drop_last())
    } else {
        s
    }
}

/// `s` without ASCII punctuation at either end
/// (`str::trim_matches(char::is_ascii_punctuation)`).
pub open spec fn trim_punct(s: Seq<char>) -> Seq<char> {
    strip_back(strip_front(s))
}

/// The counted form of a word: punctuation-trimmed, then lowercased.
pub open spec fn normalize(w: Seq<char>) -> Seq<char> {
    lowercase(trim_punct(w))
}

/// The counted forms of the words `ws`, in order, leaving out the empty
/// ones.
pub open spec fn kept_words(ws: Seq<Seq<char>>) -> Seq<Seq<char>>
    decreases ws.len(),
{
    if ws.len() == 0 {
        Seq::empty()
    } else {
        let k = kept_words(ws.drop_last());
        let n = normalize(ws.last());
        if n.len() > 0 {
            k.push(n)
        } else {
            k
        }
    }
}

/// The words of `text` that are counted, in order.
pub open spec fn counted_words(text: Seq<char>) -> Seq<Seq<char>> {
    kept_words(words(text))
}

/// How many times `w` occurs in `ws`.
pub open spec fn occurrences(ws: Seq<Seq<char>>, w: Seq<char>) -> nat
    decreases ws.len(),
{
    if ws.len() == 0 {
        0
    } else {
        occurrences(ws.drop_last(), w) + if ws.last() == w {
            1nat
        } else {
            0nat
        }
    }
}

/// How many times `w` occurs among the counted words of all the `texts`
/// taken together.
pub open spec fn occurrences_in(texts: Seq<Seq<char>>, w: Seq<char>) -> nat
    decreases texts.len(),
{
    if texts.len() == 0 {
        0
    } else {
        occurrences_in(texts.drop_last(), w) + occurrences(counted_words(texts.last()), w)
    }
}

proof fn lemma_occurrences_in_remove(b: Seq<Seq<char>>, i: int, w: Seq<char>)
    requires
        0 <= i < b.len(),
    ensures
        occurrences_in(b, w) == occurrences_in(b.remove(i), w) + occurrences(
            counted_words(b[i]),
            w,
        ),
    decreases b.len(),
{
    if i == b.len() - 1 {
        assert(b.remove(i) =~= b.drop_last());
    } else {
        assert(b.remove(i).drop_last() =~= b.drop_last().remove(i));
        assert(b.remove(i).last() == b.last());
        lemma_occurrences_in_remove(b.drop_last(), i, w);
    }
}

/// Counting a list of texts gives every word the count of counting its two
/// parts separately and adding up: merging the counter of one part into
/// the counter of the other gives the counts of counting all texts in turn.
pub proof fn law_counts_add_up(a: Seq<Seq<char>>, b: Seq<Seq<char>>, w: Seq<char>)
    ensures
        occurrences_in(a + b, w) == occurrences_in(a, w) + occurrences_in(b, w),
    decreases b.len(),
{
    if b.len() == 0 {
        assert(a + b =~= a);
    } else {
        assert((a + b).drop_last() =~= a + b.drop_last());
        assert((a + b).last() == b.last());
        law_counts_add_up(a, b.drop_last(), w);
    }
}

/// The order in which texts are counted does not change any count: two
/// lists holding the same texts, in whatever order, give every word the
/// same count. So counting texts on several threads and merging their
/// counts in the order the threads finish agrees with counting them one
/// after the other.
pub proof fn law_count_order_free(a: Seq<Seq<char>>, b: Seq<Seq<char>>, w: Seq<char>)
    requires
        a.to_multiset() == b.to_multiset(),
    ensures
        occurrences_in(a, w) == occurrences_in(b, w),
    decreases a.len(),
{
    broadcast use vstd::seq_lib::group_to_multiset_ensures;

    if a.len() == 0 {
        assert(b.to_multiset().len() == 0);
    } else {
        let x = a.last();
        assert(a.drop_last().push(x) =~= a);
        assert(a.to_multiset().count(x) > 0);
        assert(b.contains(x));
        let i = choose|i: int| 0 <= i < b.len() && b[i] == x;
        assert(b.remove(i).to_multiset() =~= b.to_multiset().remove(x));
        assert(a.drop_last().to_multiset() =~= a.to_multiset().remove(x));
        law_count_order_free(a.drop_last(), b.remove(i), w);
        lemma_occurrences_in_remove(b, i, w);
    }
}

/// One step in the life of a counter: counting a text (`count`), merging in
/// a counter that counted the texts `ts` since it was made or reset
/// (`merge`), or a reset (`reset`).
pub enum CountStep {
    Count(Seq<char>),
    Merge(Seq<Seq<char>>),
    Reset,
}

/// The count of `w` after `steps`, from a new counter, each step changing it
/// as the contracts of `count`, `merge` and `reset` say.
pub open spec fn count_after(steps: Seq<CountStep>, w: Seq<char>) -> nat
    decreases steps.len(),
{
    if steps.len() == 0 {
        0
    } else {
        let before = count_after(steps.drop_last(), w);
        match steps.last() {
            CountStep::Count(t) => before + occurrences(counted_words(t), w),
            CountStep::Merge(ts) => before + occurrences_in(ts, w),
            CountStep::Reset => 0,
        }
    }
}

/// The texts counted or merged in since the last reset, in order.
pub open spec fn texts_since_reset(steps: Seq<CountStep>) -> Seq<Seq<char>>
    decreases steps.len(),
{
    if steps.len() == 0 {
        Seq::empty()
    } else {
        let before = texts_since_reset(steps.drop_last());
        match steps.last() {
            CountStep::Count(t) => before.push(t),
            CountStep::Merge(ts) => before + ts,
            CountStep::Reset => Seq::empty(),
        }
    }
}

/// After any history of counts, merges and resets, the count of a word (what
/// `get` gives for it, lowercased) is the number of its normalised
/// occurrences in the texts counted or merged in since the last reset, and
/// 0 when there are none.
pub proof fn law_count_after_history(steps: Seq<CountStep>, w: Seq<char>)
    ensures
        count_after(steps, w) == occurrences_in(texts_since_reset(steps), w),
    decreases steps.len(),
{
    if steps.len() > 0 {
        law_count_after_history(steps.drop_last(), w);
        let before = texts_since_reset(steps.drop_last());
        match steps.last() {
            CountStep::Count(t) => {
                assert(before.push(t).drop_last() =~= before);
            },
            CountStep::Merge(ts) => {
                law_counts_add_up(before, ts, w);
            },
            CountStep::Reset => {},
        }
    }
}

/// The steps that count each of `texts` in turn.
pub open spec fn counting(texts: Seq<Seq<char>>) -> Seq<CountStep> {
    texts.map_values(|t: Seq<char>| CountStep::Count(t))
}

/// The steps that merge in, one by one, a counter per text of `texts`.
pub open spec fn merging_each(texts: Seq<Seq<char>>) -> Seq<CountStep> {
    texts.map_values(|t: Seq<char>| CountStep::Merge(seq![t]))
}

proof fn lemma_counting_texts(texts: Seq<Seq<char>>)
    ensures
        texts_since_reset(counting(texts)) == texts,
        texts_since_reset(merging_each(texts)) == texts,
    decreases texts.len(),
{
    if texts.len() > 0 {
        let d = texts.drop_last();
        lemma_counting_texts(d);
        assert(counting(texts).drop_last() =~= counting(d));
        assert(merging_each(texts).drop_last() =~= merging_each(d));
        assert(d + seq![texts.last()] =~= texts);
        assert(d.push(texts.last()) =~= texts);
    }
}

/// Merging per-text counters gives every word the count of counting the
/// texts one after the other, whatever order the per-text counters arrive
/// in (as threads that count one text each finish): `others` holds the same
/// texts as `texts`.
pub proof fn law_merge_each_matches_counting(texts: Seq<Seq<char>>, others: Seq<Seq<char>>, w: Seq<char>)
    requires
        texts.to_multiset() == others.to_multiset(),
    ensures
        count_after(merging_each(others), w) == count_after(counting(texts), w),
{
    law_count_after_history(merging_each(others), w);
    law_count_after_history(counting(texts), w);
    lemma_counting_texts(texts);
    lemma_counting_texts(others);
    law_count_order_free(texts, others, w);
}

/// The bounds of `v[from..to]` without ASCII punctuation at either end.
fn trim_punct_bounds(v: &Vec<char>, from: usize, to: usize) -> (r: (usize, usize))
    requires
        from <= to <= v@.len(),
    ensures
        from <= r.0 <= r.1 <= to,
        v@.subrange(r.0 as int, r.1 as int) == trim_punct(v@.subrange(from as int, to as int)),
{
    let ghost s = v@.subrange(from as int, to as int);
    let mut a = from;
    while a < to && is_ascii_punctuation(v[a])
        invariant
            from <= a <= to <= v@.len(),
            strip_front(s) == strip_front(v@.subrange(a as int, to as int)),
        decreases to - a,
    {
        assert(v@.subrange(a as int, to as int).drop_first() =~= v@.subrange(a + 1, to as int));
        a = a + 1;
    }
    assert(strip_front(s) == v@.subrange(a as int, to as int));
    let mut b = to;
    while b > a && is_ascii_punctuation(v[b - 1])
        invariant
            from <= a <= b <= to <= v@.len(),
            strip_back(strip_front(s)) == strip_back(v@.subrange(a as int, b as int)),
        decreases b - a,
    {
        assert(v@.subrange(a as int, b as int).drop_last() =~= v@.subrange(a as int, b - 1));
        b = b - 1;
    }
    (a, b)
}

// ---------------------------------------------------------------------------
// Tallies
// ---------------------------------------------------------------------------

/// The sum of the counts recorded for `w` in `e`.
pub open spec fn tally(e: Seq<(String, usize)>, w: Seq<char>) -> nat
    decreases e.len(),
{
    if e.len() == 0 {
        0
    } else {
        tally(e.drop_last(), w) + if e.last().0@ == w {
            e.last().1 as nat
        } else {
            0nat
        }
    }
}

/// No word is recorded twice, and every recorded count is positive.
pub open spec fn well_kept(e: Seq<(String, usize)>) -> bool {
    &&& forall|i: int, j: int| 0 <= i < j < e.len() ==> #[trigger] e[i].0@ != #[trigger] e[j].0@
    &&& forall|i: int| 0 <= i < e.len() ==> #[trigger] e[i].1 > 0
}

proof fn lemma_tally_absent(e: Seq<(String, usize)>, w: Seq<char>)
    requires
        forall|i: int| 0 <= i < e.len() ==> #[trigger] e[i].0@ != w,
    ensures
        tally(e, w) == 0,
    decreases e.len(),
{
    if e.len() > 0 {
        lemma_tally_absent(e.drop_last(), w);
    }
}

proof fn lemma_tally_at(e: Seq<(String, usize)>, i: int)
    requires
        well_kept(e),
        0 <= i < e.len(),
    ensures
        tally(e, e[i].0@) == e[i].1,
    decreases e.len(),
{
    let w = e[i].0@;
    if i == e.len() - 1 {
        assert forall|j: int| 0 <= j < e.drop_last().len() implies #[trigger] e.drop_last()[j].0@
            != w by {
            assert(e[j].0@ != e[i].0@);
        }
        lemma_tally_absent(e.drop_last(), w);
    } else {
        assert(e[e.len() - 1].0@ != e[i].0@);
        lemma_tally_at(e.drop_last(), i);
    }
}

proof fn lemma_tally_update(e: Seq<(String, usize)>, i: int, k: String, c: usize, w: Seq<char>)
    requires
        0 <= i < e.len(),
        k@ == e[i].0@,
        c >= e[i].1,
    ensures
        tally(e.update(i, (k, c)), w) == tally(e, w) + if w == k@ {
            (c - e[i].1) as nat
        } else {
            0nat
        },
    decreases e.len(),
{
    let u = e.update(i, (k, c));
    if i == e.len() - 1 {
        assert(u.drop_last() =~= e.drop_last());
    } else {
        assert(u.drop_last() =~= e.drop_last().update(i, (k, c)));
        lemma_tally_update(e.drop_last(), i, k, c, w);
    }
}

// ---------------------------------------------------------------------------
// Ranking
// ---------------------------------------------------------------------------

/// Whether `a` comes before `b` in the lexicographic order of their
/// characters (the order of `String` comparison, as UTF-8 keeps the order of
/// code points).
pub open spec fn lex_less(a: Seq<char>, b: Seq<char>) -> bool
    decreases a.len(),
{
    if a.len() == 0 {
        b.len() > 0
    } else if b.len() == 0 {
        false
    } else if a[0] != b[0] {
        a[0] < b[0]
    } else {
        lex_less(a.drop_first(), b.drop_first())
    }
}

/// The lexicographic order is transitive.
pub proof fn lemma_lex_trans(a: Seq<char>, b: Seq<char>, c: Seq<char>)
    requires
        lex_less(a, b),
        lex_less(b, c),
    ensures
        lex_less(a, c),
    decreases a.len(),
{
    if a.len() > 0 && b.len() > 0 && c.len() > 0 && a[0] == b[0] && b[0] == c[0] {
        lemma_lex_trans(a.drop_first(), b.drop_first(), c.drop_first());
    }
}

/// Of two different sequences, one comes before the other.
pub proof fn lemma_lex_total(a: Seq<char>, b: Seq<char>)
    requires
        a != b,
    ensures
        lex_less(a, b) || lex_less(b, a),
    decreases a.len(),
{
    if a.len() == 0 {
        if b.len() == 0 {
            assert(a =~= b);
        }
    } else if b.len() > 0 && a[0] == b[0] {
        if a.drop_first() == b.drop_first() {
            assert(a.drop_first().len() == b.drop_first().len());
            assert(a.len() == b.len());
            assert forall|i: int| 0 <= i < a.len() implies a[i] == b[i] by {
                if i > 0 {
                    assert(a[i] == a.drop_first()[i - 1]);
                    assert(b[i] == b.drop_first()[i - 1]);
                }
            }
            assert(a =~= b);
        } else {
            lemma_lex_total(a.drop_first(), b.drop_first());
        }
    }
}

/// Whether `a` ranks before `b` among the most frequent words: a higher
/// count first, and on equal counts the word that comes first
/// alphabetically.
pub open spec fn ranks_before(a: (Seq<char>, nat), b: (Seq<char>, nat)) -> bool {
    a.1 > b.1 || (a.1 == b.1 && lex_less(a.0, b.0))
}

/// A word and its count, as plain values.
pub open spec fn entry_view(e: (String, usize)) -> (Seq<char>, nat) {
    (e.0@, e.1 as nat)
}

proof fn lemma_ranks_trans(a: (Seq<char>, nat), b: (Seq<char>, nat), c: (Seq<char>, nat))
    requires
        ranks_before(a, b),
        ranks_before(b, c),
    ensures
        ranks_before(a, c),
{
    if a.1 == b.1 && b.1 == c.1 {
        lemma_lex_trans(a.0, b.0, c.0);
    }
}

proof fn lemma_ranks_total(a: (Seq<char>, nat), b: (Seq<char>, nat))
    requires
        a.0 != b.0,
    ensures
        ranks_before(a, b) || ranks_before(b, a),
{
    lemma_lex_total(a.0, b.0);
}

/// Whether `a` comes before `b` in the lexicographic order of characters.
fn lex_less_exec(a: &Vec<char>, b: &Vec<char>) -> (r: bool)
    ensures
        r == lex_less(a@, b@),
{
    let mut i: usize = 0;
    assert(a@.skip(0) =~= a@);
    assert(b@.skip(0) =~= b@);
    while i < a.len() && i < b.len() && a[i] == b[i]
        invariant
            i <= a@.len(),
            i <= b@.len(),
            lex_less(a@, b@) == lex_less(a@.skip(i as int), b@.skip(i as int)),
        decreases a@.len() - i,
    {
        assert(a@.skip(i as int).drop_first() =~= a@.skip(i + 1));
        assert(b@.skip(i as int).drop_first() =~= b@.skip(i + 1));
        i = i + 1;
    }
    if i == a.len() {
        i < b.len()
    } else if i == b.len() {
        false
    } else {
        assert(a@.skip(i as int)[0] == a@[i as int]);
        assert(b@.skip(i as int)[0] == b@[i as int]);
        a[i] < b[i]
    }
}

/// Whether the entry `a` ranks before the entry `b`.
fn ranks_before_exec(a: &(String, usize), b: &(String, usize)) -> (r: bool)
    ensures
        r == ranks_before(entry_view(*a), entry_view(*b)),
{
    if a.1 != b.1 {
        a.1 > b.1
    } else {
        let x = chars_of(a.0.as_str());
        let y = chars_of(b.0.as_str());
        lex_less_exec(&x, &y)
    }
}

/// `s` is in strictly ascending rank order.
pub open spec fn rank_sorted(s: Seq<(String, usize)>) -> bool {
    forall|i: int, j: int|
        0 <= i < j < s.len() ==> ranks_before(entry_view(#[trigger] s[i]), entry_view(#[trigger] s[j]))
}

/// `x` is one of the first `k` entries of `e`.
spec fn among(e: Seq<(String, usize)>, k: int, x: (Seq<char>, nat)) -> bool {
    exists|m: int| 0 <= m < k && entry_view(#[trigger] e[m]) == x
}

/// Some entry of `s` records `w`.
pub open spec fn listed(s: Seq<(String, usize)>, w: Seq<char>) -> bool {
    exists|j: int| 0 <= j < s.len() && (#[trigger] s[j]).0@ == w
}

// ---------------------------------------------------------------------------
// WordCounter
// ---------------------------------------------------------------------------

/// A word frequency counter, with the texts it counted or merged in since
/// it was made or reset.
pub struct WordCounter {
    entries: Vec<(String, usize)>,
    counted: Ghost<Seq<Seq<char>>>,
}

impl WordCounter {
    /// Counts `word` `n` more times in the entries `entries`.
    fn add_entry(entries: &mut Vec<(String, usize)>, word: String, n: usize)
        requires
            well_kept(old(entries)@),
            n > 0,
            tally(old(entries)@, word@) + n <= usize::MAX,
        ensures
            well_kept(final(entries)@),
            forall|w: Seq<char>| #[trigger] tally(final(entries)@, w) == tally(old(entries)@, w) + if w == word@ {
                n as nat
            } else {
                0nat
            },
    {
        let ghost e = entries@;
        let mut i: usize = 0;
        while i < entries.len()
            invariant
                entries@ == e,
                e == old(entries)@,
                well_kept(e),
                n > 0,
                tally(e, word@) + n <= usize::MAX,
                i <= e.len(),
                forall|j: int| 0 <= j < i ==> #[trigger] e[j].0@ != word@,
            decreases e.len() - i,
        {
            if entries[i].0 == word {
                let c = entries[i].1;
                proof {
                    lemma_tally_at(e, i as int);
                }
                entries.set(i, (word, c + n));
                proof {
                    assert forall|w: Seq<char>| #[trigger] tally(entries@, w) == tally(e, w) + if w
                        == word@ {
                        n as nat
                    } else {
                        0nat
                    } by {
                        lemma_tally_update(e, i as int, word, (c + n) as usize, w);
                    }
                    assert forall|a: int, b: int| 0 <= a < b < entries@.len() implies #[trigger] entries@[a].0@
                        != #[trigger] entries@[b].0@ by {
                        assert(e[a].0@ != e[b].0@);
                    }
                }
                return;
            }
            i = i + 1;
        }
        proof {
            lemma_tally_absent(e, word@);
        }
        let ghost k = word@;
        entries.push((word, n));
        proof {
            assert(entries@.drop_last() =~= e);
            assert forall|a: int, b: int| 0 <= a < b < entries@.len() implies #[trigger] entries@[a].0@
                != #[trigger] entries@[b].0@ by {
                if b == e.len() {
                    assert(e[a].0@ != k);
                }
            }
        }
    }

}

impl WordCounter {
    #[verifier::type_invariant]
    closed spec fn inv(self) -> bool {
        &&& well_kept(self.entries@)
        &&& forall|w: Seq<char>| #[trigger] tally(self.entries@, w) == occurrences_in(self.counted@, w)
    }

    /// The texts counted or merged in since the counter was made or reset,
    /// in order.
    pub closed spec fn texts(&self) -> Seq<Seq<char>> {
        self.counted@
    }

    /// How many times `w` has been counted.
    pub closed spec fn count_of(&self, w: Seq<char>) -> nat {
        tally(self.entries@, w)
    }

    /// A counter with no word counted.
    pub fn new() -> (r: Self)
        ensures
            forall|w: Seq<char>| #[trigger] r.count_of(w) == 0,
            r.texts() == Seq::<Seq<char>>::empty(),
    {
        WordCounter { entries: Vec::new(), counted: Ghost(Seq::empty()) }
    }

    /// Counts the words of `text`.
    pub fn count(&mut self, text: &str)
        requires
            forall|w: Seq<char>|
                #[trigger] old(self).count_of(w) + occurrences(counted_words(text@), w)
                    <= usize::MAX,
        ensures
            forall|w: Seq<char>|
                #[trigger] final(self).count_of(w) == old(self).count_of(w) + occurrences(
                    counted_words(text@),
                    w,
                ),
            final(self).texts() == old(self).texts().push(text@),
    {
        proof {
            use_type_invariant(&*self);
        }
        let mut me = WordCounter::new();
        std::mem::swap(&mut me, self);
        let WordCounter { mut entries, counted } = me;
        let ghost start = entries@;
        proof {
            assert(start == old(self).entries@);
            assert forall|w: Seq<char>| #[trigger] tally(start, w) + occurrences(counted_words(text@), w)
                <= usize::MAX by {
                assert(old(self).count_of(w) + occurrences(counted_words(text@), w) <= usize::MAX);
            }
        }
        let v = chars_of(text);
        let bounds = word_bounds(&v);
        let ghost ws = words(v@);
        let mut k: usize = 0;
        while k < bounds.len()
            invariant
                v@ == text@,
                ws == words(v@),
                bounds@.len() == ws.len(),
                forall|m: int| #![trigger bounds@[m]] 0 <= m < bounds@.len() ==> bounds@[m].0 < bounds@[m].1 <= v@.len(),
                forall|m: int|
                    0 <= m < bounds@.len() ==> ws[m] == v@.subrange(bounds@[m].0 as int, bounds@[m].1 as int),
                k <= bounds@.len(),
                well_kept(entries@),
                forall|w: Seq<char>|
                    #[trigger] tally(start, w) + occurrences(counted_words(text@), w)
                        <= usize::MAX,
                forall|w: Seq<char>|
                    #[trigger] tally(entries@, w) == tally(start, w) + occurrences(
                        kept_words(ws.take(k as int)),
                        w,
                    ),
            decreases bounds@.len() - k,
        {
            let (a, b) = bounds[k];
            let (c, d) = trim_punct_bounds(&v, a, b);
            let t = string_of_slice(&v, c, d);
            let lw = to_lower(t.as_str());
            let ghost pre = ws.take(k as int);
            let ghost cur = ws.take(k + 1);
            proof {
                assert(cur.drop_last() =~= pre);
                assert(cur.last() == ws[k as int]);
                assert(lw@ == normalize(ws[k as int]));
                lemma_occurrences_prefix(ws, k + 1, lw@);
            }
            if lw.as_str().is_empty() {
                assert(kept_words(cur) == kept_words(pre));
            } else {
                assert(kept_words(cur) == kept_words(pre).push(lw@));
                assert(kept_words(cur).drop_last() =~= kept_words(pre));
                Self::add_entry(&mut entries, lw, 1);
            }
            k = k + 1;
        }
        assert(ws.take(bounds@.len() as int) =~= ws);
        let ghost texts = counted@.push(text@);
        proof {
            assert(texts.drop_last() =~= counted@);
        }
        *self = WordCounter { entries, counted: Ghost(texts) };
    }

    /// How many times `word`, lowercased, has been counted: its normalised
    /// occurrences in the texts counted or merged in since the counter was
    /// made or reset.
    pub fn get(&self, word: &str) -> (r: usize)
        ensures
            r == self.count_of(lowercase(word@)),
            all_ascii(word@) ==> r == self.count_of(ascii_lower(word@)),
            r == occurrences_in(self.texts(), lowercase(word@)),
    {
        proof {
            use_type_invariant(self);
        }
        let lw = to_lower(word);
        let mut i: usize = 0;
        while i < self.entries.len()
            invariant
                well_kept(self.entries@),
                lw@ == lowercase(word@),
                all_ascii(word@) ==> lowercase(word@) == ascii_lower(word@),
                forall|w: Seq<char>| #[trigger] tally(self.entries@, w) == occurrences_in(self.counted@, w),
                i <= self.entries@.len(),
                forall|j: int| 0 <= j < i ==> #[trigger] self.entries@[j].0@ != lw@,
            decreases self.entries@.len() - i,
        {
            if self.entries[i].0 == lw {
                proof {
                    lemma_tally_at(self.entries@, i as int);
                    assert(self.entries@[i as int].0@ == lw@);
                    assert(lw@ == lowercase(word@));
                }
                return self.entries[i].1;
            }
            i = i + 1;
        }
        proof {
            lemma_tally_absent(self.entries@, lw@);
        }
        0
    }

    /// The `n` most frequent words with their counts, by count descending
    /// and alphabetically on equal counts.
    pub fn top_n(&self, n: usize) -> (r: Vec<(String, usize)>)
        ensures
            r@.len() <= n,
            forall|i: int|
                0 <= i < r@.len() ==> r@[i].1 > 0 && #[trigger] self.count_of(r@[i].0@)
                    == r@[i].1,
            rank_sorted(r@),
            forall|w: Seq<char>|
                #[trigger] self.count_of(w) > 0 ==> listed(r@, w) || (r@.len() == n && forall|i: int|
                    0 <= i < r@.len() ==> ranks_before(
                        entry_view(#[trigger] r@[i]),
                        (w, self.count_of(w)),
                    )),
    {
        proof {
            use_type_invariant(self);
        }
        let ghost e = self.entries@;
        let mut sorted: Vec<(String, usize)> = Vec::new();
        let mut k: usize = 0;
        while k < self.entries.len()
            invariant
                e == self.entries@,
                well_kept(e),
                k <= e.len(),
                sorted@.len() == k,
                rank_sorted(sorted@),
                forall|j: int| 0 <= j < sorted@.len() ==> among(e, k as int, entry_view(#[trigger] sorted@[j])),
                forall|m: int| 0 <= m < k ==> listed(sorted@, (#[trigger] e[m]).0@),
            decreases e.len() - k,
        {
            let x = (self.entries[k].0.clone(), self.entries[k].1);
            assert(entry_view(x) == entry_view(e[k as int]));
            let mut p: usize = 0;
            while p < sorted.len() && !ranks_before_exec(&x, &sorted[p])
                invariant
                    p <= sorted@.len(),
                    forall|j: int| 0 <= j < p ==> !ranks_before(entry_view(x), entry_view(#[trigger] sorted@[j])),
                decreases sorted@.len() - p,
            {
                p = p + 1;
            }
            let ghost old_sorted = sorted@;
            proof {
                // the new word differs from every word listed so far
                assert forall|j: int| 0 <= j < old_sorted.len() implies (#[trigger] old_sorted[j]).0@ != x.0@ by {
                    assert(among(e, k as int, entry_view(old_sorted[j])));
                    let m = choose|m: int| 0 <= m < k && entry_view(#[trigger] e[m]) == entry_view(old_sorted[j]);
                    assert(e[m].0@ != e[k as int].0@);
                }
            }
            sorted.insert(p, x);
            proof {
                let s = sorted@;
                let xv = entry_view(x);
                assert forall|i: int, j: int| 0 <= i < j < s.len() implies ranks_before(
                    entry_view(#[trigger] s[i]),
                    entry_view(#[trigger] s[j]),
                ) by {
                    if j < p {
                        assert(s[i] == old_sorted[i] && s[j] == old_sorted[j]);
                    } else if j == p {
                        assert(s[i] == old_sorted[i]);
                        assert(old_sorted[i].0@ != x.0@);
                        lemma_ranks_total(entry_view(old_sorted[i]), xv);
                    } else if i == p {
                        assert(s[j] == old_sorted[j - 1]);
                        if j - 1 > p {
                            lemma_ranks_trans(xv, entry_view(old_sorted[p as int]), entry_view(old_sorted[j - 1]));
                        }
                    } else if i < p {
                        assert(s[i] == old_sorted[i] && s[j] == old_sorted[j - 1]);
                    } else {
                        assert(s[i] == old_sorted[i - 1] && s[j] == old_sorted[j - 1]);
                    }
                }
                assert forall|j: int| 0 <= j < s.len() implies among(e, k + 1, entry_view(#[trigger] s[j])) by {
                    if j < p {
                        assert(s[j] == old_sorted[j]);
                        assert(among(e, k as int, entry_view(old_sorted[j])));
                        let m = choose|m: int| 0 <= m < k && entry_view(#[trigger] e[m]) == entry_view(old_sorted[j]);
                        assert(entry_view(e[m]) == entry_view(s[j]));
                    } else if j == p {
                        assert(entry_view(e[k as int]) == entry_view(s[j]));
                    } else {
                        assert(s[j] == old_sorted[j - 1]);
                        assert(among(e, k as int, entry_view(old_sorted[j - 1])));
                        let m = choose|m: int| 0 <= m < k && entry_view(#[trigger] e[m]) == entry_view(old_sorted[j - 1]);
                        assert(entry_view(e[m]) == entry_view(s[j]));
                    }
                }
                assert forall|m: int| 0 <= m < k + 1 implies listed(s, (#[trigger] e[m]).0@) by {
                    if m < k {
                        assert(listed(old_sorted, e[m].0@));
                        let j = choose|j: int| 0 <= j < old_sorted.len() && (#[trigger] old_sorted[j]).0@ == e[m].0@;
                        if j < p {
                            assert(s[j] == old_sorted[j]);
                        } else {
                            assert(s[j + 1] == old_sorted[j]);
                        }
                    } else {
                        assert(s[p as int] == x);
                    }
                }
            }
            k = k + 1;
        }
        let ghost full = sorted@;
        sorted.truncate(n);
        proof {
            let r = sorted@;
            assert forall|i: int| 0 <= i < r.len() implies r[i].1 > 0 && #[trigger] self.count_of(r[i].0@)
                == r[i].1 by {
                assert(r[i] == full[i]);
                assert(among(e, e.len() as int, entry_view(full[i])));
                let m = choose|m: int| 0 <= m < e.len() && entry_view(#[trigger] e[m]) == entry_view(full[i]);
                lemma_tally_at(e, m);
            }
            assert forall|i: int, j: int| 0 <= i < j < r.len() implies ranks_before(
                entry_view(#[trigger] r[i]),
                entry_view(#[trigger] r[j]),
            ) by {
                assert(r[i] == full[i] && r[j] == full[j]);
            }
            assert forall|w: Seq<char>| #[trigger] self.count_of(w) > 0 implies listed(r, w) || (r.len() == n
                && forall|i: int| 0 <= i < r.len() ==> ranks_before(
                    entry_view(#[trigger] r[i]),
                    (w, self.count_of(w)),
                )) by {
                if forall|m: int| 0 <= m < e.len() ==> #[trigger] e[m].0@ != w {
                    lemma_tally_absent(e, w);
                }
                let m = choose|m: int| 0 <= m < e.len() && #[trigger] e[m].0@ == w;
                assert(listed(full, e[m].0@));
                let j = choose|j: int| 0 <= j < full.len() && (#[trigger] full[j]).0@ == e[m].0@;
                assert(among(e, e.len() as int, entry_view(full[j])));
                let m2 = choose|m2: int| 0 <= m2 < e.len() && entry_view(#[trigger] e[m2]) == entry_view(full[j]);
                lemma_tally_at(e, m2);
                assert(entry_view(full[j]) == (w, self.count_of(w)));
                if j < r.len() {
                    assert(r[j] == full[j]);
                } else {
                    assert forall|i: int| 0 <= i < r.len() implies ranks_before(
                        entry_view(#[trigger] r[i]),
                        (w, self.count_of(w)),
                    ) by {
                        assert(r[i] == full[i]);
                    }
                }
            }
        }
        sorted
    }

    /// Adds the counts of `other` to this counter.
    pub fn merge(&mut self, other: &WordCounter)
        requires
            forall|w: Seq<char>| #[trigger] old(self).count_of(w) + other.count_of(w) <= usize::MAX,
        ensures
            forall|w: Seq<char>| #[trigger] final(self).count_of(w) == old(self).count_of(w) + other.count_of(w),
            final(self).texts() == old(self).texts() + other.texts(),
    {
        proof {
            use_type_invariant(other);
            use_type_invariant(&*self);
        }
        let mut me = WordCounter::new();
        std::mem::swap(&mut me, self);
        let WordCounter { mut entries, counted } = me;
        let ghost start = entries@;
        let ghost e = other.entries@;
        proof {
            assert(start == old(self).entries@);
            assert forall|w: Seq<char>| #[trigger] tally(start, w) + tally(e, w) <= usize::MAX by {
                assert(old(self).count_of(w) + other.count_of(w) <= usize::MAX);
            }
        }
        let mut i: usize = 0;
        while i < other.entries.len()
            invariant
                e == other.entries@,
                well_kept(e),
                well_kept(entries@),
                i <= e.len(),
                forall|w: Seq<char>| #[trigger] tally(start, w) + tally(e, w) <= usize::MAX,
                forall|w: Seq<char>| #[trigger] tally(entries@, w) == tally(start, w) + tally(e.take(i as int), w),
            decreases e.len() - i,
        {
            let word = other.entries[i].0.clone();
            let n = other.entries[i].1;
            proof {
                assert(e.take(i + 1).drop_last() =~= e.take(i as int));
                lemma_tally_prefix(e, i + 1, word@);
            }
            Self::add_entry(&mut entries, word, n);
            i = i + 1;
        }
        assert(e.take(e.len() as int) =~= e);
        let ghost texts = counted@ + other.counted@;
        proof {
            assert forall|w: Seq<char>| #[trigger] tally(entries@, w) == occurrences_in(texts, w) by {
                law_counts_add_up(counted@, other.counted@, w);
            }
        }
        *self = WordCounter { entries, counted: Ghost(texts) };
    }

    /// Forgets every count.
    pub fn reset(&mut self)
        ensures
            forall|w: Seq<char>| #[trigger] final(self).count_of(w) == 0,
            final(self).texts() == Seq::<Seq<char>>::empty(),
    {
        *self = WordCounter::new();
    }
}

proof fn lemma_occurrences_prefix(ws: Seq<Seq<char>>, k: int, w: Seq<char>)
    requires
        0 <= k <= ws.len(),
    ensures
        occurrences(kept_words(ws.take(k)), w) <= occurrences(kept_words(ws), w),
    decreases ws.len(),
{
    if k < ws.len() {
        assert(ws.drop_last().take(k) =~= ws.take(k));
        lemma_occurrences_prefix(ws.drop_last(), k, w);
        let kd = kept_words(ws.drop_last());
        if normalize(ws.last()).len() > 0 {
            assert(kept_words(ws).drop_last() =~= kd);
        }
    } else {
        assert(ws.take(k) =~= ws);
    }
}

proof fn lemma_tally_prefix(e: Seq<(String, usize)>, k: int, w: Seq<char>)
    requires
        0 <= k <= e.len(),
    ensures
        tally(e.take(k), w) <= tally(e, w),
    decreases e.len(),
{
    if k < e.len() {
        assert(e.drop_last().take(k) =~= e.take(k));
        lemma_tally_prefix(e.drop_last(), k, w);
    } else {
        assert(e.take(k) =~= e);
    }
}

} // verus!
