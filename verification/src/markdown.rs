//! A Markdown-to-text processor for a subset of Markdown: headings (`#`),
//! bold (`**`), italic (`*`) and links (`[text](url)`).
use vstd::prelude::*;
use std::collections::HashMap;
use crate::text::{
    chars_between, chars_of, find_char_suffix, find_spec, find_suffix, first_index_of,
    lemma_find_spec_range, lemma_first_index_of, leading_ws, lemma_remove_char, leading_run, line_bounds, lines_spec,
    lowercase, push_char, push_chars, remove_char, skip_run, split_on, strip_cr, skip_ws, string_of, string_of_slice, to_lower,
    to_upper, trim_start_spec, uppercase, without_char,
};

verus! {

broadcast use {vstd::string::group_string_axioms, vstd::std_specs::hash::group_hash_axioms};

// ---------------------------------------------------------------------------
// What the processor computes
// ---------------------------------------------------------------------------

/// `line` without its heading marker: leading white space dropped, and when
/// the rest starts with `#`, the run of `#` and the white space after it
/// dropped too.
pub open spec fn unheaded(line: Seq<char>) -> Seq<char> {
    let t = trim_start_spec(line);
    if t.len() > 0 && t[0] == '#' {
        trim_start_spec(t.skip(leading_run(t, '#') as int))
    } else {
        t
    }
}

/// The link that the text `after` right behind a `[` starts with, if any:
/// its text up to the first `]`, which a `(` must follow at once, its url up
/// to the first `)` after that, and what comes after the `)`.
pub open spec fn link_parts(after: Seq<char>) -> Option<(Seq<char>, Seq<char>, Seq<char>)> {
    match first_index_of(after, ']') {
        None => None,
        Some(cb) => {
            let after_close = after.skip(cb + 1);
            if after_close.len() > 0 && after_close[0] == '(' {
                match first_index_of(after_close, ')') {
                    Some(cp) => Some(
                        (after.take(cb), after_close.subrange(1, cp), after_close.skip(cp + 1)),
                    ),
                    None => None,
                }
            } else {
                None
            }
        },
    }
}

/// What follows a link is shorter than the text it was found in.
pub proof fn lemma_link_parts(after: Seq<char>)
    ensures
        match link_parts(after) {
            Some(p) => p.2.len() < after.len(),
            None => true,
        },
{
    lemma_first_index_of(after, ']');
    match first_index_of(after, ']') {
        Some(cb) => {
            lemma_first_index_of(after.skip(cb + 1), ')');
        },
        None => {},
    }
}

/// `s` with every link `[text](url)` replaced by its text; a `[` that starts
/// no link stays.
pub open spec fn strip_links_spec(s: Seq<char>) -> Seq<char>
    decreases s.len(),
{
    match first_index_of(s, '[') {
        None => s,
        Some(ob) => {
            let after = s.skip(ob + 1);
            proof {
                lemma_first_index_of(s, '[');
                lemma_link_parts(after);
            }
            match link_parts(after) {
                Some(p) => s.take(ob) + p.0 + strip_links_spec(p.2),
                None => s.take(ob).push('[') + strip_links_spec(after),
            }
        },
    }
}

/// The links `(text, url)` of `s`, in order.
pub open spec fn links_spec(s: Seq<char>) -> Seq<(Seq<char>, Seq<char>)>
    decreases s.len(),
{
    match first_index_of(s, '[') {
        None => Seq::empty(),
        Some(ob) => {
            let after = s.skip(ob + 1);
            proof {
                lemma_first_index_of(s, '[');
                lemma_link_parts(after);
            }
            match link_parts(after) {
                Some(p) => seq![(p.0, p.1)] + links_spec(p.2),
                None => links_spec(after),
            }
        },
    }
}

/// A line as plain text: heading marker dropped, links replaced by their
/// text, and every `*` removed.
pub open spec fn plain_line(line: Seq<char>) -> Seq<char> {
    remove_char(strip_links_spec(unheaded(line)), '*')
}

/// The lines `ls` joined, a line feed before each line that follows a
/// non-empty result.
pub open spec fn join_text(ls: Seq<Seq<char>>) -> Seq<char>
    decreases ls.len(),
{
    if ls.len() == 0 {
        Seq::empty()
    } else {
        let acc = join_text(ls.drop_last());
        if acc.len() > 0 {
            acc.push('\n') + ls.last()
        } else {
            ls.last()
        }
    }
}

/// The plain text of `input`, line by line.
pub open spec fn plain_text(input: Seq<char>) -> Seq<char> {
    join_text(lines_spec(input).map_values(|l: Seq<char>| plain_line(l)))
}

/// The level of a heading line: after leading white space, one to six `#`
/// followed by a space.
pub open spec fn heading_level(line: Seq<char>) -> Option<nat> {
    let t = trim_start_spec(line);
    let h = leading_run(t, '#');
    if 1 <= h <= 6 && h < t.len() && t[h as int] == ' ' {
        Some(h)
    } else {
        None
    }
}

/// The number of heading lines of level `level` among `lines`.
pub open spec fn heading_count(lines: Seq<Seq<char>>, level: nat) -> nat
    decreases lines.len(),
{
    if lines.len() == 0 {
        0
    } else {
        heading_count(lines.drop_last(), level) + if heading_level(lines.last()) == Some(level) {
            1nat
        } else {
            0nat
        }
    }
}

/// `s` with each bold span `**text**` replaced by its text in uppercase, or
/// nothing when a `**` has no closing `**`.
pub open spec fn bold_spec(s: Seq<char>) -> Option<Seq<char>>
    decreases s.len(),
{
    match find_spec(s, seq!['*', '*'], 0) {
        None => Some(s),
        Some(st) => {
            proof {
                lemma_find_spec_range(s, seq!['*', '*'], 0);
            }
            let after = s.skip(st + 2);
            match find_spec(after, seq!['*', '*'], 0) {
                None => None,
                Some(e) => {
                    proof {
                        lemma_find_spec_range(after, seq!['*', '*'], 0);
                    }
                    match bold_spec(after.skip(e + 2)) {
                        Some(r) => Some(s.take(st) + uppercase(after.take(e)) + r),
                        None => None,
                    }
                },
            }
        },
    }
}

/// `s` with each italic span `*text*` replaced by its text in lowercase; a
/// `*` with no closing `*` stays.
pub open spec fn italic_spec(s: Seq<char>) -> Seq<char>
    decreases s.len(),
{
    match first_index_of(s, '*') {
        None => s,
        Some(st) => {
            proof {
                lemma_first_index_of(s, '*');
            }
            let after = s.skip(st + 1);
            match first_index_of(after, '*') {
                Some(e) => {
                    proof {
                        lemma_first_index_of(after, '*');
                    }
                    s.take(st) + lowercase(after.take(e)) + italic_spec(after.skip(e + 1))
                },
                None => s.take(st).push('*') + italic_spec(after),
            }
        },
    }
}

/// The links of a list as plain values.
pub open spec fn link_views(links: Seq<(String, String)>) -> Seq<(Seq<char>, Seq<char>)> {
    links.map_values(|p: (String, String)| (p.0@, p.1@))
}

/// Joining lines that hold no `c` gives a text with no `c`, for any `c`
/// other than the line feed.
proof fn lemma_join_text_avoids(ls: Seq<Seq<char>>, c: char)
    requires
        c != '\n',
        forall|j: int, i: int| 0 <= j < ls.len() && 0 <= i < ls[j].len() ==> #[trigger] ls[j][i] != c,
    ensures
        forall|i: int| 0 <= i < join_text(ls).len() ==> join_text(ls)[i] != c,
    decreases ls.len(),
{
    if ls.len() > 0 {
        let d = ls.drop_last();
        assert forall|j: int, i: int| 0 <= j < d.len() && 0 <= i < d[j].len() implies #[trigger] d[j][i] != c by {
            assert(d[j] == ls[j]);
        }
        lemma_join_text_avoids(d, c);
        let acc = join_text(d);
        assert forall|i: int| 0 <= i < join_text(ls).len() implies join_text(ls)[i] != c by {
            if acc.len() > 0 {
                if i < acc.len() {
                    assert(join_text(ls)[i] == acc[i]);
                } else if i > acc.len() {
                    assert(join_text(ls)[i] == ls.last()[i - acc.len() - 1]);
                    assert(ls[ls.len() - 1][i - acc.len() - 1] != c);
                }
            } else {
                assert(ls[ls.len() - 1][i] != c);
            }
        }
    }
}

/// Plain text holds no `*`: every emphasis marker is removed.
pub proof fn law_plain_text_has_no_asterisk(input: Seq<char>)
    ensures
        forall|i: int| 0 <= i < plain_text(input).len() ==> plain_text(input)[i] != '*',
{
    let ls = lines_spec(input).map_values(|l: Seq<char>| plain_line(l));
    assert forall|j: int, i: int| 0 <= j < ls.len() && 0 <= i < ls[j].len() implies #[trigger] ls[j][i]
        != '*' by {
        lemma_remove_char(strip_links_spec(unheaded(lines_spec(input)[j])), '*');
    }
    lemma_join_text_avoids(ls, '*');
}

/// `s` holds no `c`.
pub open spec fn avoids(s: Seq<char>, c: char) -> bool {
    forall|i: int| 0 <= i < s.len() ==> s[i] != c
}

proof fn lemma_split_pieces_avoid(s: Seq<char>, sep: char)
    ensures
        forall|j: int| 0 <= j < split_on(s, sep).len() ==> avoids(#[trigger] split_on(s, sep)[j], sep),
    decreases s.len(),
{
    if s.len() > 0 {
        lemma_split_pieces_avoid(s.drop_last(), sep);
        crate::text::lemma_split_on_nonempty(s.drop_last(), sep);
        let w = split_on(s.drop_last(), sep);
        if s.last() != sep {
            assert forall|j: int| 0 <= j < split_on(s, sep).len() implies avoids(
                #[trigger] split_on(s, sep)[j],
                sep,
            ) by {
                if j == w.len() - 1 {
                    assert(avoids(w[j], sep));
                    assert(split_on(s, sep)[j] == w.last().push(s.last()));
                } else {
                    assert(split_on(s, sep)[j] == w[j]);
                }
            }
        } else {
            assert forall|j: int| 0 <= j < split_on(s, sep).len() implies avoids(
                #[trigger] split_on(s, sep)[j],
                sep,
            ) by {
                if j < w.len() {
                    assert(split_on(s, sep)[j] == w[j]);
                }
            }
        }
    }
}

proof fn lemma_lines_avoid_feed(s: Seq<char>)
    ensures
        forall|j: int| 0 <= j < lines_spec(s).len() ==> avoids(#[trigger] lines_spec(s)[j], '\n'),
{
    lemma_split_pieces_avoid(s, '\n');
    crate::text::lemma_split_on_nonempty(s, '\n');
    let p = split_on(s, '\n');
    assert forall|j: int| 0 <= j < lines_spec(s).len() implies avoids(#[trigger] lines_spec(s)[j], '\n') by {
        if j < p.len() - 1 {
            assert(lines_spec(s)[j] == strip_cr(p[j]));
            assert(avoids(p[j], '\n'));
        } else {
            assert(lines_spec(s)[j] == p.last());
            assert(avoids(p[p.len() - 1], '\n'));
        }
    }
}

proof fn lemma_strip_links_avoids(s: Seq<char>, c: char)
    requires
        avoids(s, c),
        c != '[',
    ensures
        avoids(strip_links_spec(s), c),
    decreases s.len(),
{
    lemma_first_index_of(s, '[');
    match first_index_of(s, '[') {
        None => {},
        Some(ob) => {
            let after = s.skip(ob + 1);
            lemma_link_parts(after);
            assert(avoids(after, c));
            assert(avoids(s.take(ob), c));
            match link_parts(after) {
                Some(p) => {
                    lemma_first_index_of(after, ']');
                    let cb = first_index_of(after, ']')->Some_0;
                    let after_close = after.skip(cb + 1);
                    lemma_first_index_of(after_close, ')');
                    let cp = first_index_of(after_close, ')')->Some_0;
                    assert(p.0 == after.take(cb));
                    assert(p.2 == after_close.skip(cp + 1));
                    assert(avoids(p.0, c));
                    assert(avoids(p.2, c));
                    lemma_strip_links_avoids(p.2, c);
                    let r = strip_links_spec(p.2);
                    assert(avoids(s.take(ob) + p.0 + r, c)) by {
                        assert forall|i: int| 0 <= i < (s.take(ob) + p.0 + r).len() implies (s.take(ob) + p.0
                            + r)[i] != c by {
                            if i < ob {
                                assert((s.take(ob) + p.0 + r)[i] == s.take(ob)[i]);
                            } else if i < ob + p.0.len() {
                                assert((s.take(ob) + p.0 + r)[i] == p.0[i - ob]);
                            } else {
                                assert((s.take(ob) + p.0 + r)[i] == r[i - ob - p.0.len()]);
                            }
                        }
                    }
                },
                None => {
                    lemma_strip_links_avoids(after, c);
                    let r = strip_links_spec(after);
                    let t = s.take(ob).push('[');
                    assert(avoids(t + r, c)) by {
                        assert forall|i: int| 0 <= i < (t + r).len() implies (t + r)[i] != c by {
                            if i < ob {
                                assert((t + r)[i] == s[i]);
                            } else if i == ob {
                                assert((t + r)[i] == '[');
                            } else {
                                assert((t + r)[i] == r[i - ob - 1]);
                            }
                        }
                    }
                },
            }
        },
    }
}

proof fn lemma_remove_char_avoids(s: Seq<char>, c: char, d: char)
    requires
        avoids(s, d),
    ensures
        avoids(remove_char(s, c), d),
    decreases s.len(),
{
    reveal_with_fuel(Seq::filter, 1);
    if s.len() > 0 {
        lemma_remove_char_avoids(s.drop_last(), c, d);
        assert(avoids(s.drop_last(), d));
    }
}

proof fn lemma_leading_run_le(s: Seq<char>, c: char)
    ensures
        leading_run(s, c) <= s.len(),
    decreases s.len(),
{
    if s.len() > 0 && s[0] == c {
        lemma_leading_run_le(s.drop_first(), c);
    }
}

/// A plain line holds no line feed.
proof fn lemma_plain_lines_avoid_feed(input: Seq<char>)
    ensures
        forall|j: int|
            0 <= j < lines_spec(input).len() ==> avoids(
                #[trigger] plain_line(lines_spec(input)[j]),
                '\n',
            ),
{
    lemma_lines_avoid_feed(input);
    assert forall|j: int| 0 <= j < lines_spec(input).len() implies avoids(
        #[trigger] plain_line(lines_spec(input)[j]),
        '\n',
    ) by {
        let l = lines_spec(input)[j];
        let t = trim_start_spec(l);
        crate::text::lemma_leading_ws(l);
        assert(avoids(l, '\n'));
        assert(avoids(t, '\n')) by {
            assert forall|i: int| 0 <= i < t.len() implies t[i] != '\n' by {
                assert(t[i] == l[i + leading_ws(l)]);
            }
        }
        if t.len() > 0 && t[0] == '#' {
            lemma_leading_run_le(t, '#');
            let u = t.skip(leading_run(t, '#') as int);
            assert(avoids(u, '\n')) by {
                assert forall|i: int| 0 <= i < u.len() implies u[i] != '\n' by {
                    assert(u[i] == t[i + leading_run(t, '#')]);
                }
            }
            crate::text::lemma_leading_ws(u);
            assert(avoids(trim_start_spec(u), '\n')) by {
                assert forall|i: int| 0 <= i < trim_start_spec(u).len() implies trim_start_spec(u)[i]
                    != '\n' by {
                    assert(trim_start_spec(u)[i] == u[i + leading_ws(u)]);
                }
            }
        }
        assert(avoids(unheaded(l), '\n'));
        lemma_strip_links_avoids(unheaded(l), '\n');
        lemma_remove_char_avoids(strip_links_spec(unheaded(l)), '*', '\n');
    }
}

proof fn lemma_split_append_piece(x: Seq<char>, b: Seq<char>, sep: char)
    requires
        avoids(b, sep),
    ensures
        split_on(x + b, sep) == split_on(x, sep).update(
            split_on(x, sep).len() - 1,
            split_on(x, sep).last() + b,
        ),
    decreases b.len(),
{
    crate::text::lemma_split_on_nonempty(x, sep);
    if b.len() == 0 {
        assert(x + b =~= x);
        assert(split_on(x, sep).last() + b =~= split_on(x, sep).last());
        assert(split_on(x, sep).update(split_on(x, sep).len() - 1, split_on(x, sep).last())
            =~= split_on(x, sep));
    } else {
        let b2 = b.drop_last();
        assert(avoids(b2, sep));
        lemma_split_append_piece(x, b2, sep);
        assert((x + b).drop_last() =~= x + b2);
        assert((x + b).last() == b.last());
        assert(b2.push(b.last()) =~= b);
        let w = split_on(x, sep);
        assert(split_on(x + b, sep) =~= w.update(w.len() - 1, w.last() + b)) by {
            assert((w.last() + b2).push(b.last()) =~= w.last() + b);
        }
    }
}

proof fn lemma_split_after_sep(a: Seq<char>, b: Seq<char>, sep: char)
    requires
        avoids(b, sep),
    ensures
        split_on(a.push(sep) + b, sep) == split_on(a, sep).push(b),
{
    lemma_split_append_piece(a.push(sep), b, sep);
    assert(a.push(sep).drop_last() =~= a);
    let w = split_on(a.push(sep), sep);
    assert(w == split_on(a, sep).push(Seq::empty()));
    assert(Seq::<char>::empty() + b =~= b);
    assert(w.update(w.len() - 1, w.last() + b) =~= split_on(a, sep).push(b));
}

proof fn lemma_split_single(b: Seq<char>, sep: char)
    requires
        avoids(b, sep),
    ensures
        split_on(b, sep) == seq![b],
{
    lemma_split_append_piece(Seq::empty(), b, sep);
    assert(Seq::<char>::empty() + b =~= b);
    assert(split_on(Seq::<char>::empty(), sep) == seq![Seq::<char>::empty()]);
    assert(seq![Seq::<char>::empty()].update(0, Seq::<char>::empty() + b) =~= seq![b]);
}

/// Joined lines are empty exactly when every line is empty.
proof fn lemma_join_empty(ls: Seq<Seq<char>>)
    ensures
        join_text(ls).len() == 0 <==> forall|i: int| 0 <= i < ls.len() ==> #[trigger] ls[i].len() == 0,
    decreases ls.len(),
{
    if ls.len() > 0 {
        lemma_join_empty(ls.drop_last());
        let d = ls.drop_last();
        if join_text(d).len() == 0 {
            assert forall|i: int| 0 <= i < d.len() implies #[trigger] ls[i].len() == 0 by {
                assert(ls[i] == d[i]);
            }
        } else {
            let i = choose|i: int| 0 <= i < d.len() && #[trigger] d[i].len() != 0;
            assert(ls[i] == d[i]);
        }
    }
}

/// Split at the line feeds, the joined lines are the lines from the first
/// non-empty one `f` on, each of them, empty ones included.
proof fn lemma_join_split(ls: Seq<Seq<char>>, f: int)
    requires
        forall|j: int| 0 <= j < ls.len() ==> avoids(#[trigger] ls[j], '\n'),
        0 <= f < ls.len(),
        ls[f].len() > 0,
        forall|i: int| 0 <= i < f ==> #[trigger] ls[i].len() == 0,
    ensures
        split_on(join_text(ls), '\n') == ls.skip(f),
    decreases ls.len(),
{
    let d = ls.drop_last();
    lemma_join_empty(d);
    assert(avoids(ls[ls.len() - 1], '\n'));
    if f == ls.len() - 1 {
        assert forall|i: int| 0 <= i < d.len() implies #[trigger] d[i].len() == 0 by {
            assert(d[i] == ls[i]);
        }
        assert(join_text(ls) == ls.last());
        lemma_split_single(ls.last(), '\n');
        assert(ls.skip(f) =~= seq![ls.last()]);
    } else {
        assert(d[f] == ls[f]);
        assert forall|j: int| 0 <= j < d.len() implies avoids(#[trigger] d[j], '\n') by {
            assert(d[j] == ls[j]);
        }
        lemma_join_split(d, f);
        assert(join_text(d).len() > 0);
        lemma_split_after_sep(join_text(d), ls.last(), '\n');
        assert(d.skip(f).push(ls.last()) =~= ls.skip(f));
    }
}

/// The plain text keeps one line per input line: when some input line has
/// non-empty plain text, the result split at its line feeds is the plain
/// form of every input line from the first such line on, in order, empty
/// ones included (so a blank line between paragraphs stays a blank line);
/// when no input line has, the result is empty.
pub proof fn law_plain_text_keeps_lines(input: Seq<char>, f: int)
    ensures
        (forall|i: int| 0 <= i < lines_spec(input).len() ==> #[trigger] plain_line(lines_spec(input)[i]).len()
            == 0) ==> plain_text(input).len() == 0,
        0 <= f < lines_spec(input).len() && plain_line(lines_spec(input)[f]).len() > 0 && (forall|i: int|
            0 <= i < f ==> #[trigger] plain_line(lines_spec(input)[i]).len() == 0) ==> split_on(
            plain_text(input),
            '\n',
        ) == lines_spec(input).skip(f).map_values(|l: Seq<char>| plain_line(l)),
{
    let ls = lines_spec(input);
    let pl = ls.map_values(|l: Seq<char>| plain_line(l));
    lemma_plain_lines_avoid_feed(input);
    lemma_join_empty(pl);
    if forall|i: int| 0 <= i < ls.len() ==> #[trigger] plain_line(ls[i]).len() == 0 {
        assert forall|i: int| 0 <= i < pl.len() implies #[trigger] pl[i].len() == 0 by {
            assert(pl[i] == plain_line(ls[i]));
        }
    }
    if 0 <= f < ls.len() && plain_line(ls[f]).len() > 0 && (forall|i: int|
        0 <= i < f ==> #[trigger] plain_line(ls[i]).len() == 0) {
        assert forall|j: int| 0 <= j < pl.len() implies avoids(#[trigger] pl[j], '\n') by {
            assert(pl[j] == plain_line(ls[j]));
        }
        assert forall|i: int| 0 <= i < f implies #[trigger] pl[i].len() == 0 by {
            assert(pl[i] == plain_line(ls[i]));
        }
        lemma_join_split(pl, f);
        assert(pl.skip(f) =~= ls.skip(f).map_values(|l: Seq<char>| plain_line(l)));
    }
}

// ---------------------------------------------------------------------------
// Building blocks
// ---------------------------------------------------------------------------

/// Appends the characters `v[from..to]` to `out`.
fn extend_chars(out: &mut Vec<char>, v: &Vec<char>, from: usize, to: usize)
    requires
        from <= to <= v@.len(),
    ensures
        final(out)@ == old(out)@ + v@.subrange(from as int, to as int),
{
    let ghost start = out@;
    let mut i = from;
    while i < to
        invariant
            from <= i <= to <= v@.len(),
            out@ == start + v@.subrange(from as int, i as int),
        decreases to - i,
    {
        out.push(v[i]);
        assert(out@ =~= start + v@.subrange(from as int, i + 1));
        i = i + 1;
    }
}

/// Where the text of the line `v` starts once its heading marker is
/// dropped.
fn unheaded_start(v: &Vec<char>) -> (r: usize)
    ensures
        r <= v@.len(),
        v@.skip(r as int) == unheaded(v@),
{
    let n = v.len();
    let a = skip_ws(v, 0, n);
    assert(v@.subrange(0, n as int) =~= v@);
    assert(trim_start_spec(v@) =~= v@.skip(a as int));
    if a < n && v[a] == '#' {
        let h = skip_run(v, '#', a);
        let b = skip_ws(v, h, n);
        proof {
            let t = v@.skip(a as int);
            assert(t[0] == v@[a as int]);
            assert(t.skip(leading_run(t, '#') as int) =~= v@.skip(h as int));
            assert(v@.subrange(h as int, n as int) =~= v@.skip(h as int));
            assert(trim_start_spec(v@.skip(h as int)) =~= v@.skip(b as int));
        }
        b
    } else {
        proof {
            if a < n {
                assert(v@.skip(a as int)[0] == v@[a as int]);
            }
        }
        a
    }
}

/// The link that starts at `a`, just after a `[`: the end of its text, the
/// bounds of its url and where the rest starts.
fn link_at(v: &Vec<char>, a: usize) -> (r: Option<(usize, usize, usize, usize)>)
    requires
        a <= v@.len(),
    ensures
        match link_parts(v@.skip(a as int)) {
            Some(p) => r matches Some((cb, us, ue, rs)) && a <= cb <= v@.len() && us <= ue
                <= v@.len() && a < rs <= v@.len() && p.0 == v@.subrange(a as int, cb as int)
                && p.1 == v@.subrange(us as int, ue as int) && p.2 == v@.skip(rs as int),
            None => r is None,
        },
{
    let ghost after = v@.skip(a as int);
    let _n = v.len();
    match find_char_suffix(v, ']', a) {
        None => None,
        Some(cb) => {
            let ac = cb + 1;
            proof {
                assert(after.skip(cb - a + 1) =~= v@.skip(ac as int));
            }
            if ac < v.len() && v[ac] == '(' {
                assert(v@.skip(ac as int)[0] == v@[ac as int]);
                match find_char_suffix(v, ')', ac) {
                    Some(cp) => {
                        proof {
                            let ac_s = v@.skip(ac as int);
                            assert(ac_s[0] == '(');
                            lemma_first_index_of(ac_s, ')');
                            assert(cp > ac);
                            assert(after.take(cb - a) =~= v@.subrange(a as int, cb as int));
                            assert(ac_s.subrange(1, cp - ac) =~= v@.subrange(ac + 1, cp as int));
                            assert(ac_s.skip(cp - ac + 1) =~= v@.skip(cp + 1));
                        }
                        Some((cb, ac + 1, cp, cp + 1))
                    },
                    None => None,
                }
            } else {
                None
            }
        },
    }
}

/// `strip_links_spec` of the suffix `v[from..]`.
fn strip_links(v: &Vec<char>, from: usize) -> (r: Vec<char>)
    requires
        from <= v@.len(),
    ensures
        r@ == strip_links_spec(v@.skip(from as int)),
{
    let mut out: Vec<char> = Vec::new();
    let mut pos = from;
    let n = v.len();
    loop
        invariant
            n == v@.len(),
            from <= pos <= n,
            strip_links_spec(v@.skip(from as int)) == out@ + strip_links_spec(v@.skip(pos as int)),
        decreases n - pos,
    {
        let ghost s = v@.skip(pos as int);
        match find_char_suffix(v, '[', pos) {
            None => {
                extend_chars(&mut out, v, pos, n);
                assert(v@.subrange(pos as int, n as int) =~= s);
                return out;
            },
            Some(ob) => {
                let ghost k = ob - pos;
                extend_chars(&mut out, v, pos, ob);
                let a = ob + 1;
                proof {
                    assert(s.take(k) =~= v@.subrange(pos as int, ob as int));
                    assert(s.skip(k + 1) =~= v@.skip(a as int));
                }
                match link_at(v, a) {
                    Some((cb, _us, _ue, rs)) => {
                        extend_chars(&mut out, v, a, cb);
                        pos = rs;
                    },
                    None => {
                        out.push('[');
                        pos = a;
                    },
                }
            },
        }
    }
}

/// The level of the heading line `v`, if it is one.
fn heading_level_of(v: &Vec<char>) -> (r: Option<usize>)
    ensures
        match heading_level(v@) {
            Some(h) => r == Some(h as usize),
            None => r is None,
        },
{
    let n = v.len();
    let a = skip_ws(v, 0, n);
    assert(v@.subrange(0, n as int) =~= v@);
    assert(trim_start_spec(v@) =~= v@.skip(a as int));
    let e = skip_run(v, '#', a);
    let h = e - a;
    if 1 <= h && h <= 6 && e < n && v[e] == ' ' {
        assert(v@.skip(a as int)[h as int] == v@[e as int]);
        Some(h)
    } else {
        proof {
            if e < n {
                assert(v@.skip(a as int)[h as int] == v@[e as int]);
            }
        }
        None
    }
}

/// `bold_spec` of `v`, which has no unclosed `**`.
fn transform_bold(v: &Vec<char>) -> (r: Vec<char>)
    requires
        bold_spec(v@) is Some,
    ensures
        r@ == bold_spec(v@)->Some_0,
{
    let pat = vec!['*', '*'];
    assert(pat@ =~= seq!['*', '*']);
    let mut out: Vec<char> = Vec::new();
    let mut pos: usize = 0;
    let n = v.len();
    assert(v@.skip(0) =~= v@);
    loop
        invariant
            n == v@.len(),
            pat@ == seq!['*', '*'],
            pos <= n,
            bold_spec(v@.skip(pos as int)) is Some,
            bold_spec(v@)->Some_0 == out@ + bold_spec(v@.skip(pos as int))->Some_0,
        decreases n - pos,
    {
        let ghost s = v@.skip(pos as int);
        match find_suffix(v, &pat, pos) {
            None => {
                extend_chars(&mut out, v, pos, n);
                assert(v@.subrange(pos as int, n as int) =~= s);
                return out;
            },
            Some(st) => {
                let ghost k = st - pos;
                let a = st + 2;
                proof {
                    assert(s.skip(k + 2) =~= v@.skip(a as int));
                    assert(s.take(k) =~= v@.subrange(pos as int, st as int));
                }
                match find_suffix(v, &pat, a) {
                    None => {
                        proof {
                            assert(false);
                        }
                        return out;
                    },
                    Some(e) => {
                        let ghost after = v@.skip(a as int);
                        extend_chars(&mut out, v, pos, st);
                        let text = string_of_slice(v, a, e);
                        let upper = to_upper(text.as_str());
                        let uc = chars_of(upper.as_str());
                        extend_chars(&mut out, &uc, 0, uc.len());
                        proof {
                            assert(after.take(e - a) =~= v@.subrange(a as int, e as int));
                            assert(after.skip(e - a + 2) =~= v@.skip(e + 2));
                            assert(uc@.subrange(0, uc@.len() as int) =~= uc@);
                        }
                        pos = e + 2;
                    },
                }
            },
        }
    }
}

/// `italic_spec` of `v`.
fn transform_italic(v: &Vec<char>) -> (r: Vec<char>)
    ensures
        r@ == italic_spec(v@),
{
    let mut out: Vec<char> = Vec::new();
    let mut pos: usize = 0;
    let n = v.len();
    assert(v@.skip(0) =~= v@);
    loop
        invariant
            n == v@.len(),
            pos <= n,
            italic_spec(v@) == out@ + italic_spec(v@.skip(pos as int)),
        decreases n - pos,
    {
        let ghost s = v@.skip(pos as int);
        match find_char_suffix(v, '*', pos) {
            None => {
                extend_chars(&mut out, v, pos, n);
                assert(v@.subrange(pos as int, n as int) =~= s);
                return out;
            },
            Some(st) => {
                let ghost k = st - pos;
                let a = st + 1;
                extend_chars(&mut out, v, pos, st);
                proof {
                    assert(s.skip(k + 1) =~= v@.skip(a as int));
                    assert(s.take(k) =~= v@.subrange(pos as int, st as int));
                }
                match find_char_suffix(v, '*', a) {
                    Some(e) => {
                        let ghost after = v@.skip(a as int);
                        let text = string_of_slice(v, a, e);
                        let lower = to_lower(text.as_str());
                        let lc = chars_of(lower.as_str());
                        extend_chars(&mut out, &lc, 0, lc.len());
                        proof {
                            assert(after.take(e - a) =~= v@.subrange(a as int, e as int));
                            assert(after.skip(e - a + 1) =~= v@.skip(e + 1));
                            assert(lc@.subrange(0, lc@.len() as int) =~= lc@);
                        }
                        pos = e + 1;
                    },
                    None => {
                        out.push('*');
                        pos = a;
                    },
                }
            },
        }
    }
}

// ---------------------------------------------------------------------------
// MarkdownProcessor
// ---------------------------------------------------------------------------

/// A Markdown-to-text processor.
pub struct MarkdownProcessor;

impl MarkdownProcessor {
    /// A processor.
    pub fn new() -> (r: Self) {
        MarkdownProcessor
    }

    /// The plain text of `input`: per line, the heading marker dropped,
    /// links replaced by their text and every `*` removed; the lines joined
    /// by line feeds (none before a line while the text so far is empty).
    pub fn to_plain_text(&self, input: &str) -> (r: String)
        ensures
            r@ == plain_text(input@),
    {
        let v = chars_of(input);
        let lb = line_bounds(&v);
        let ghost ls = lines_spec(v@);
        let ghost pl = ls.map_values(|l: Seq<char>| plain_line(l));
        let mut result = String::new();
        let mut k: usize = 0;
        while k < lb.len()
            invariant
                v@ == input@,
                ls == lines_spec(v@),
                pl == ls.map_values(|l: Seq<char>| plain_line(l)),
                lb@.len() == ls.len(),
                forall|m: int| #![trigger lb@[m]] 0 <= m < lb@.len() ==> lb@[m].0 <= lb@[m].1 <= v@.len(),
                forall|m: int| 0 <= m < lb@.len() ==> ls[m] == v@.subrange(lb@[m].0 as int, lb@[m].1 as int),
                k <= lb@.len(),
                result@ == join_text(pl.take(k as int)),
            decreases lb@.len() - k,
        {
            let (a, b) = lb[k];
            let line = chars_between(&v, a, b);
            let start = unheaded_start(&line);
            let linked = strip_links(&line, start);
            let plain = without_char(&linked, '*');
            proof {
                assert(line@ == ls[k as int]);
                assert(plain@ == pl[k as int]);
                assert(pl.take(k + 1).drop_last() =~= pl.take(k as int));
            }
            if !result.as_str().is_empty() {
                push_char(&mut result, '\n');
            }
            push_chars(&mut result, &plain, 0, plain.len());
            assert(plain@.subrange(0, plain@.len() as int) =~= plain@);
            k = k + 1;
        }
        assert(pl.take(lb@.len() as int) =~= pl);
        result
    }

    /// The links `(text, url)` of `input`, in order.
    pub fn extract_links(&self, input: &str) -> (r: Vec<(String, String)>)
        ensures
            link_views(r@) == links_spec(input@),
    {
        let v = chars_of(input);
        let n = v.len();
        let mut links: Vec<(String, String)> = Vec::new();
        let mut pos: usize = 0;
        assert(v@.skip(0) =~= v@);
        assert(link_views(links@) =~= Seq::<(Seq<char>, Seq<char>)>::empty());
        loop
            invariant
                n == v@.len(),
                v@ == input@,
                pos <= n,
                links_spec(v@) == link_views(links@) + links_spec(v@.skip(pos as int)),
            decreases n - pos,
        {
            let ghost s = v@.skip(pos as int);
            match find_char_suffix(&v, '[', pos) {
                None => {
                    assert(link_views(links@) + links_spec(s) =~= link_views(links@));
                    return links;
                },
                Some(ob) => {
                    let ghost k = ob - pos;
                    let a = ob + 1;
                    proof {
                        assert(s.skip(k + 1) =~= v@.skip(a as int));
                    }
                    match link_at(&v, a) {
                        Some((cb, us, ue, rs)) => {
                            let ghost before = links@;
                            let text = string_of_slice(&v, a, cb);
                            let url = string_of_slice(&v, us, ue);
                            links.push((text, url));
                            proof {
                                assert(link_views(links@) =~= link_views(before) + seq![
                                    (v@.subrange(a as int, cb as int), v@.subrange(us as int, ue as int)),
                                ]);
                            }
                            pos = rs;
                        },
                        None => {
                            pos = a;
                        },
                    }
                },
            }
        }
    }

    /// The number of heading lines of each level that occurs: a heading line
    /// has, after leading white space, one to six `#` and then a space.
    pub fn count_headings(&self, input: &str) -> (r: HashMap<u8, usize>)
        ensures
            forall|l: u8| #[trigger] r@.contains_key(l) <==> (1 <= l <= 6 && heading_count(lines_spec(input@), l as nat) > 0),
            forall|l: u8| #[trigger] r@.contains_key(l) ==> r@[l] == heading_count(lines_spec(input@), l as nat),
    {
        let v = chars_of(input);
        let lb = line_bounds(&v);
        let ghost ls = lines_spec(v@);
        let mut counts: Vec<usize> = Vec::new();
        let mut z: usize = 0;
        while z < 7
            invariant
                z <= 7,
                counts@.len() == z,
                forall|l: int| 0 <= l < z ==> #[trigger] counts@[l] == 0,
            decreases 7 - z,
        {
            counts.push(0);
            z = z + 1;
        }
        let mut k: usize = 0;
        while k < lb.len()
            invariant
                v@ == input@,
                ls == lines_spec(v@),
                lb@.len() == ls.len(),
                forall|m: int| #![trigger lb@[m]] 0 <= m < lb@.len() ==> lb@[m].0 <= lb@[m].1 <= v@.len(),
                forall|m: int| 0 <= m < lb@.len() ==> ls[m] == v@.subrange(lb@[m].0 as int, lb@[m].1 as int),
                k <= lb@.len(),
                counts@.len() == 7,
                forall|l: int| 0 <= l < 7 ==> #[trigger] counts@[l] == heading_count(ls.take(k as int), l as nat),
                forall|l: int| 0 <= l < 7 ==> #[trigger] counts@[l] <= k,
            decreases lb@.len() - k,
        {
            let (a, b) = lb[k];
            let line = chars_between(&v, a, b);
            let level = heading_level_of(&line);
            proof {
                assert(line@ == ls[k as int]);
                assert(ls.take(k + 1).drop_last() =~= ls.take(k as int));
                assert(ls.take(k + 1).last() == ls[k as int]);
            }
            match level {
                Some(h) => {
                    let c = counts[h];
                    counts.set(h, c + 1);
                },
                None => {},
            }
            k = k + 1;
        }
        assert(ls.take(lb@.len() as int) =~= ls);
        let mut map: HashMap<u8, usize> = HashMap::new();
        let mut l: u8 = 1;
        while l <= 6
            invariant
                1 <= l <= 7,
                counts@.len() == 7,
                forall|j: int| 0 <= j < 7 ==> #[trigger] counts@[j] == heading_count(ls, j as nat),
                forall|j: u8| #[trigger] map@.contains_key(j) <==> (1 <= j < l && heading_count(ls, j as nat) > 0),
                forall|j: u8| #[trigger] map@.contains_key(j) ==> map@[j] == heading_count(ls, j as nat),
            decreases 7 - l,
        {
            let c = counts[l as usize];
            if c > 0 {
                map.insert(l, c);
            }
            l = l + 1;
        }
        map
    }

    /// `input` with each bold span `**text**` turned to uppercase and then
    /// each italic span `*text*` turned to lowercase, the markers dropped; a
    /// single `*` without a partner stays.
    pub fn transform_emphasis(&self, input: &str) -> (r: String)
        requires
            bold_spec(input@) is Some,
        ensures
            r@ == italic_spec(bold_spec(input@)->Some_0),
    {
        let v = chars_of(input);
        let b = transform_bold(&v);
        let i = transform_italic(&b);
        string_of(&i)
    }
}

} // verus!
