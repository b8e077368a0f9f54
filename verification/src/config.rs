//! A configuration parser: lines of `key=value` pairs, with `#` comments and
//! blank lines skipped, typed lookups and the errors they report.
use vstd::prelude::*;
use vstd::string::StringExecFns;
use crate::text::{
    chars_between, chars_of, decimal, find_char_suffix, first_index_of, lemma_first_index_of,
    line_bounds, lines_spec, lowercase, owned, parse_i32_slice, parse_i32_spec, parse_unsigned,
    parse_unsigned_slice, push_decimal, string_of_slice, str_eq, to_lower, trim_bounds, trim_spec,
};

verus! {

broadcast use vstd::string::group_string_axioms;

/// An I/O error of std, carried by `ConfigError::IoError`.
#[verifier::external_type_specification]
#[verifier::external_body]
pub struct ExIoError(std::io::Error);

/// Why a configuration could not be loaded or a value not read.
#[derive(Debug)]
pub enum ConfigError {
    /// Reading the configuration failed.
    IoError(std::io::Error),
    /// The text of the configuration, or a value, is malformed.
    ParseError(String),
    /// The configuration breaks a rule, or a required key is missing.
    ValidationError(String),
}

/// A `ConfigError` as plain values.
pub enum ConfigErrorView {
    Io,
    Parse(Seq<char>),
    Validation(Seq<char>),
}

impl ConfigError {
    /// The error as plain values.
    pub open spec fn view_of(&self) -> ConfigErrorView {
        match self {
            ConfigError::IoError(_) => ConfigErrorView::Io,
            ConfigError::ParseError(m) => ConfigErrorView::Parse(m@),
            ConfigError::ValidationError(m) => ConfigErrorView::Validation(m@),
        }
    }

    /// The text that describes the error: its kind, then its message.
    pub fn message(&self) -> (r: String)
        ensures
            match self.view_of() {
                ConfigErrorView::Io => r@.take(10) == "IO error: "@,
                ConfigErrorView::Parse(m) => r@ == "Parse error: "@ + m,
                ConfigErrorView::Validation(m) => r@ == "Validation error: "@ + m,
            },
    {
        match self {
            ConfigError::IoError(e) => {
                let mut s = owned("IO error: ");
                proof {
                    reveal_strlit("IO error: ");
                }
                let t = io_error_text(e);
                let ghost head = s@;
                s.append(t.as_str());
                assert(s@.take(10) =~= head);
                s
            },
            ConfigError::ParseError(m) => {
                let mut s = owned("Parse error: ");
                s.append(m.as_str());
                s
            },
            ConfigError::ValidationError(m) => {
                let mut s = owned("Validation error: ");
                s.append(m.as_str());
                s
            },
        }
    }
}

/// The text of an I/O error (`Display` of `std::io::Error`). Nothing is
/// stated of the text: it comes from the operating system.
#[verifier::external_body]
pub(crate) fn io_error_text(e: &std::io::Error) -> String {
    e.to_string()
}

impl From<std::io::Error> for ConfigError {
    fn from(error: std::io::Error) -> (r: ConfigError) {
        ConfigError::IoError(error)
    }
}

impl vstd::std_specs::convert::FromSpecImpl<std::io::Error> for ConfigError {
    open spec fn obeys_from_spec() -> bool {
        true
    }

    open spec fn from_spec(error: std::io::Error) -> ConfigError {
        ConfigError::IoError(error)
    }
}

// ---------------------------------------------------------------------------
// What parsing gives
// ---------------------------------------------------------------------------

/// What one line of a configuration text holds.
pub enum LineOutcome {
    /// A blank line or a comment.
    Skip,
    /// A setting: key and value.
    Entry(Seq<char>, Seq<char>),
    /// A malformed line, with the message that reports it.
    Fail(Seq<char>),
}

/// What the line `line`, the `num`-th of the text, holds: blank and `#`
/// lines are skipped; otherwise the text up to the first `=` is the key and
/// the text after it the value, both trimmed.
pub open spec fn line_outcome(line: Seq<char>, num: nat) -> LineOutcome {
    let t = trim_spec(line);
    if t.len() == 0 || t[0] == '#' {
        LineOutcome::Skip
    } else {
        match first_index_of(t, '=') {
            None => LineOutcome::Fail(
                "Invalid format on line "@ + decimal(num) + ": '"@ + t + "'"@,
            ),
            Some(eq) => {
                let k = trim_spec(t.take(eq));
                let v = trim_spec(t.skip(eq + 1));
                if k.len() == 0 {
                    LineOutcome::Fail("Empty key on line "@ + decimal(num))
                } else {
                    LineOutcome::Entry(k, v)
                }
            },
        }
    }
}

/// The settings of the lines `ls`, a later line for a key replacing an
/// earlier one, or the message for the first malformed line.
pub open spec fn parse_settings(ls: Seq<Seq<char>>) -> Result<Map<Seq<char>, Seq<char>>, Seq<char>>
    decreases ls.len(),
{
    if ls.len() == 0 {
        Ok(Map::empty())
    } else {
        match parse_settings(ls.drop_last()) {
            Err(m) => Err(m),
            Ok(map) => match line_outcome(ls.last(), ls.len()) {
                LineOutcome::Skip => Ok(map),
                LineOutcome::Entry(k, v) => Ok(map.insert(k, v)),
                LineOutcome::Fail(m) => Err(m),
            },
        }
    }
}

/// A later line for a key replaces what earlier lines set for it: after
/// lines that parse to the settings `m`, a line with key `k` and value `v`
/// gives `m` with `k` set to `v`.
pub proof fn law_later_line_wins(
    ls: Seq<Seq<char>>,
    line: Seq<char>,
    m: Map<Seq<char>, Seq<char>>,
    k: Seq<char>,
    v: Seq<char>,
)
    requires
        parse_settings(ls) == Ok::<Map<Seq<char>, Seq<char>>, Seq<char>>(m),
        line_outcome(line, ls.len() + 1) == LineOutcome::Entry(k, v),
    ensures
        parse_settings(ls.push(line)) == Ok::<Map<Seq<char>, Seq<char>>, Seq<char>>(m.insert(k, v)),
        m.insert(k, v)[k] == v,
{
    assert(ls.push(line).drop_last() =~= ls);
}

/// A read gives back the last value written for a key, and a write leaves
/// the other keys as they were.
pub proof fn law_get_after_set(m: Map<Seq<char>, Seq<char>>, k: Seq<char>, v: Seq<char>, other: Seq<char>)
    requires
        other != k,
    ensures
        m.insert(k, v).contains_key(k),
        m.insert(k, v)[k] == v,
        m.insert(k, v).contains_key(other) == m.contains_key(other),
        m.contains_key(other) ==> m.insert(k, v)[other] == m[other],
{
}

/// A `port` setting that reads as a `u16` of value 0.
pub open spec fn port_is_zero(m: Map<Seq<char>, Seq<char>>) -> bool {
    m.contains_key("port"@) && parse_unsigned(m["port"@], 0xffff) == Some(0int)
}

/// What `Config::from_string` gives for a text with the characters `text`.
pub open spec fn parse_config(text: Seq<char>) -> Result<Map<Seq<char>, Seq<char>>, ConfigErrorView> {
    match parse_settings(lines_spec(text)) {
        Err(m) => Err(ConfigErrorView::Parse(m)),
        Ok(map) => if port_is_zero(map) {
            Err(ConfigErrorView::Validation("Port cannot be 0"@))
        } else {
            Ok(map)
        },
    }
}

/// What `get_bool` makes of a value: `true`, `yes` and `1` are true,
/// `false`, `no` and `0` false, in any case.
pub open spec fn bool_named(v: Seq<char>) -> Option<bool> {
    let l = lowercase(v);
    if l == "true"@ || l == "yes"@ || l == "1"@ {
        Some(true)
    } else if l == "false"@ || l == "no"@ || l == "0"@ {
        Some(false)
    } else {
        None
    }
}

proof fn lemma_parse_settings_err(ls: Seq<Seq<char>>, j: int, m: Seq<char>)
    requires
        0 <= j <= ls.len(),
        parse_settings(ls.take(j)) == Err::<Map<Seq<char>, Seq<char>>, Seq<char>>(m),
    ensures
        parse_settings(ls) == Err::<Map<Seq<char>, Seq<char>>, Seq<char>>(m),
    decreases ls.len() - j,
{
    if j == ls.len() {
        assert(ls.take(j) =~= ls);
    } else {
        assert(ls.take(j + 1).drop_last() =~= ls.take(j));
        lemma_parse_settings_err(ls, j + 1, m);
    }
}

// ---------------------------------------------------------------------------
// Config
// ---------------------------------------------------------------------------

/// The settings recorded in `e`, a later entry for a key replacing an
/// earlier one.
pub open spec fn settings_map(e: Seq<(String, String)>) -> Map<Seq<char>, Seq<char>>
    decreases e.len(),
{
    if e.len() == 0 {
        Map::empty()
    } else {
        settings_map(e.drop_last()).insert(e.last().0@, e.last().1@)
    }
}

/// No key is recorded twice.
pub open spec fn distinct_keys(e: Seq<(String, String)>) -> bool {
    forall|i: int, j: int| 0 <= i < j < e.len() ==> #[trigger] e[i].0@ != #[trigger] e[j].0@
}

proof fn lemma_settings_map(e: Seq<(String, String)>)
    requires
        distinct_keys(e),
    ensures
        settings_map(e).dom().finite(),
        settings_map(e).dom().len() == e.len(),
        forall|w: Seq<char>| #[trigger] settings_map(e).contains_key(w) <==> exists|i: int| 0 <= i < e.len() && e[i].0@ == w,
        forall|i: int| 0 <= i < e.len() ==> settings_map(e)[#[trigger] e[i].0@] == e[i].1@,
    decreases e.len(),
{
    if e.len() > 0 {
        let d = e.drop_last();
        assert forall|i: int, j: int| 0 <= i < j < d.len() implies #[trigger] d[i].0@ != #[trigger] d[j].0@ by {
            assert(e[i].0@ != e[j].0@);
        }
        lemma_settings_map(d);
        let k = e.last().0@;
        assert(!settings_map(d).contains_key(k)) by {
            if settings_map(d).contains_key(k) {
                let i = choose|i: int| 0 <= i < d.len() && d[i].0@ == k;
                assert(e[i].0@ != e[e.len() - 1].0@);
            }
        }
        assert forall|w: Seq<char>| #[trigger] settings_map(e).contains_key(w) <==> exists|i: int| 0 <= i < e.len() && e[i].0@ == w by {
            if settings_map(d).contains_key(w) {
                let i = choose|i: int| 0 <= i < d.len() && d[i].0@ == w;
                assert(e[i].0@ == w);
            }
            if exists|i: int| 0 <= i < e.len() && e[i].0@ == w {
                let i = choose|i: int| 0 <= i < e.len() && e[i].0@ == w;
                if i < d.len() {
                    assert(d[i].0@ == w);
                }
            }
        }
        assert forall|i: int| 0 <= i < e.len() implies settings_map(e)[#[trigger] e[i].0@] == e[i].1@ by {
            if i < d.len() {
                assert(d[i] == e[i]);
                assert(e[i].0@ != k);
            }
        }
    }
}

proof fn lemma_settings_map_update(e: Seq<(String, String)>, i: int, k: String, v: String)
    requires
        distinct_keys(e),
        0 <= i < e.len(),
        e[i].0@ == k@,
    ensures
        settings_map(e.update(i, (k, v))) == settings_map(e).insert(k@, v@),
        distinct_keys(e.update(i, (k, v))),
    decreases e.len(),
{
    let u = e.update(i, (k, v));
    assert forall|a: int, b: int| 0 <= a < b < u.len() implies #[trigger] u[a].0@ != #[trigger] u[b].0@ by {
        assert(e[a].0@ != e[b].0@);
    }
    lemma_settings_map(e);
    lemma_settings_map(u);
    assert forall|w: Seq<char>| #[trigger] settings_map(u).contains_key(w) <==> settings_map(e).insert(k@, v@).contains_key(w) by {
        if exists|j: int| 0 <= j < e.len() && e[j].0@ == w {
            let j = choose|j: int| 0 <= j < e.len() && e[j].0@ == w;
            assert(u[j].0@ == w);
        }
        if exists|j: int| 0 <= j < u.len() && u[j].0@ == w {
            let j = choose|j: int| 0 <= j < u.len() && u[j].0@ == w;
            assert(e[j].0@ == w);
        }
    }
    assert forall|w: Seq<char>| #[trigger] settings_map(u).contains_key(w) implies settings_map(u)[w] == settings_map(e).insert(k@, v@)[w] by {
        let j = choose|j: int| 0 <= j < u.len() && u[j].0@ == w;
        assert(settings_map(u)[u[j].0@] == u[j].1@);
        if j != i {
            assert(settings_map(e)[e[j].0@] == e[j].1@);
        }
    }
    assert(settings_map(u) =~= settings_map(e).insert(k@, v@));
}

/// A configuration: a map from keys to values.
#[derive(Debug)]
pub struct Config {
    entries: Vec<(String, String)>,
}

impl View for Config {
    type V = Map<Seq<char>, Seq<char>>;

    closed spec fn view(&self) -> Map<Seq<char>, Seq<char>> {
        settings_map(self.entries@)
    }
}

impl Config {
    #[verifier::type_invariant]
    closed spec fn inv(self) -> bool {
        distinct_keys(self.entries@)
    }

    /// An empty configuration.
    pub fn new() -> (r: Self)
        ensures
            r@ == Map::<Seq<char>, Seq<char>>::empty(),
    {
        Config { entries: Vec::new() }
    }

    /// Sets `key` to `value`.
    pub fn set(&mut self, key: String, value: String)
        ensures
            final(self)@ == old(self)@.insert(key@, value@),
    {
        proof {
            use_type_invariant(&*self);
        }
        let mut entries = Vec::new();
        std::mem::swap(&mut entries, &mut self.entries);
        let ghost e = entries@;
        let mut i: usize = 0;
        while i < entries.len()
            invariant
                entries@ == e,
                e == old(self).entries@,
                distinct_keys(e),
                i <= e.len(),
                forall|j: int| 0 <= j < i ==> #[trigger] e[j].0@ != key@,
            decreases e.len() - i,
        {
            if entries[i].0 == key {
                proof {
                    lemma_settings_map_update(e, i as int, key, value);
                }
                entries.set(i, (key, value));
                self.entries = entries;
                return;
            }
            i = i + 1;
        }
        let ghost k = key@;
        entries.push((key, value));
        proof {
            assert(entries@.drop_last() =~= e);
            assert forall|a: int, b: int| 0 <= a < b < entries@.len() implies #[trigger] entries@[a].0@
                != #[trigger] entries@[b].0@ by {
                if b == e.len() {
                    assert(e[a].0@ != k);
                }
            }
        }
        self.entries = entries;
    }

    /// The value of `key`, if set.
    pub fn get(&self, key: &str) -> (r: Option<&String>)
        ensures
            match r {
                Some(v) => self@.contains_key(key@) && v@ == self@[key@],
                None => !self@.contains_key(key@),
            },
    {
        proof {
            use_type_invariant(self);
            lemma_settings_map(self.entries@);
        }
        let mut i: usize = 0;
        while i < self.entries.len()
            invariant
                distinct_keys(self.entries@),
                i <= self.entries@.len(),
                forall|j: int| 0 <= j < i ==> #[trigger] self.entries@[j].0@ != key@,
            decreases self.entries@.len() - i,
        {
            if str_eq(self.entries[i].0.as_str(), key) {
                proof {
                    lemma_settings_map(self.entries@);
                }
                return Some(&self.entries[i].1);
            }
            i = i + 1;
        }
        None
    }

    /// The value of `key`, or a validation error when it is not set.
    pub fn get_required(&self, key: &str) -> (r: Result<&String, ConfigError>)
        ensures
            match r {
                Ok(v) => self@.contains_key(key@) && v@ == self@[key@],
                Err(e) => !self@.contains_key(key@) && e.view_of() == ConfigErrorView::Validation(
                    "Required key '"@ + key@ + "' not found"@,
                ),
            },
    {
        match self.get(key) {
            Some(v) => Ok(v),
            None => {
                let mut m = owned("Required key '");
                m.append(key);
                m.append("' not found");
                Err(ConfigError::ValidationError(m))
            },
        }
    }

    /// The value of `key` read as an `i32`.
    pub fn get_int(&self, key: &str) -> (r: Result<i32, ConfigError>)
        ensures
            !self@.contains_key(key@) ==> (r matches Err(e) && e.view_of()
                == ConfigErrorView::Validation("Required key '"@ + key@ + "' not found"@)),
            self@.contains_key(key@) ==> match parse_i32_spec(self@[key@]) {
                Some(n) => r == Ok::<i32, ConfigError>(n as i32),
                None => (r matches Err(e) && e.view_of() == ConfigErrorView::Parse(
                    "Value '"@ + self@[key@] + "' for key '"@ + key@ + "' is not a valid integer"@,
                )),
            },
    {
        let value = match self.get_required(key) {
            Ok(v) => v,
            Err(e) => {
                return Err(e);
            },
        };
        let v = chars_of(value.as_str());
        let n = v.len();
        assert(v@.subrange(0, n as int) =~= v@);
        match parse_i32_slice(&v, 0, n) {
            Some(x) => Ok(x),
            None => {
                let mut m = owned("Value '");
                m.append(value.as_str());
                m.append("' for key '");
                m.append(key);
                m.append("' is not a valid integer");
                Err(ConfigError::ParseError(m))
            },
        }
    }

    /// The value of `key` read as a boolean: `true`, `yes`, `1`, `false`,
    /// `no` or `0`, in any case.
    pub fn get_bool(&self, key: &str) -> (r: Result<bool, ConfigError>)
        ensures
            !self@.contains_key(key@) ==> (r matches Err(e) && e.view_of()
                == ConfigErrorView::Validation("Required key '"@ + key@ + "' not found"@)),
            self@.contains_key(key@) ==> match bool_named(self@[key@]) {
                Some(b) => r == Ok::<bool, ConfigError>(b),
                None => (r matches Err(e) && e.view_of() == ConfigErrorView::Parse(
                    "Value '"@ + self@[key@] + "' for key '"@ + key@ + "' is not a valid boolean"@,
                )),
            },
    {
        let value = match self.get_required(key) {
            Ok(v) => v,
            Err(e) => {
                return Err(e);
            },
        };
        let l = to_lower(value.as_str());
        let ls = l.as_str();
        if str_eq(ls, "true") || str_eq(ls, "yes") || str_eq(ls, "1") {
            Ok(true)
        } else if str_eq(ls, "false") || str_eq(ls, "no") || str_eq(ls, "0") {
            Ok(false)
        } else {
            let mut m = owned("Value '");
            m.append(value.as_str());
            m.append("' for key '");
            m.append(key);
            m.append("' is not a valid boolean");
            Err(ConfigError::ParseError(m))
        }
    }

    /// The keys, each once.
    pub fn keys(&self) -> (r: Vec<&String>)
        ensures
            r@.len() == self@.dom().len(),
            forall|i: int| 0 <= i < r@.len() ==> self@.contains_key(#[trigger] r@[i]@),
            forall|i: int, j: int| 0 <= i < j < r@.len() ==> (#[trigger] r@[i])@ != (#[trigger] r@[j])@,
            forall|w: Seq<char>| #[trigger] self@.contains_key(w) ==> exists|i: int| 0 <= i < r@.len() && r@[i]@ == w,
    {
        proof {
            use_type_invariant(self);
            lemma_settings_map(self.entries@);
        }
        let mut r: Vec<&String> = Vec::new();
        let mut i: usize = 0;
        while i < self.entries.len()
            invariant
                distinct_keys(self.entries@),
                i <= self.entries@.len(),
                r@.len() == i,
                forall|j: int| 0 <= j < i ==> (#[trigger] r@[j])@ == self.entries@[j].0@,
            decreases self.entries@.len() - i,
        {
            r.push(&self.entries[i].0);
            i = i + 1;
        }
        proof {
            let e = self.entries@;
            assert forall|i: int| 0 <= i < r@.len() implies self@.contains_key(#[trigger] r@[i]@) by {
                assert(e[i].0@ == r@[i]@);
            }
            assert forall|a: int, b: int| 0 <= a < b < r@.len() implies (#[trigger] r@[a])@ != (#[trigger] r@[b])@ by {
                assert(e[a].0@ != e[b].0@);
            }
            assert forall|w: Seq<char>| #[trigger] self@.contains_key(w) implies exists|i: int| 0 <= i < r@.len() && r@[i]@ == w by {
                let i = choose|i: int| 0 <= i < e.len() && e[i].0@ == w;
                assert(r@[i]@ == w);
            }
        }
        r
    }

    /// The number of keys.
    pub fn len(&self) -> (r: usize)
        ensures
            r == self@.dom().len(),
    {
        proof {
            use_type_invariant(self);
            lemma_settings_map(self.entries@);
        }
        self.entries.len()
    }

    /// Whether no key is set.
    pub fn is_empty(&self) -> (r: bool)
        ensures
            r == (self@.dom().len() == 0),
    {
        proof {
            use_type_invariant(self);
            lemma_settings_map(self.entries@);
        }
        self.entries.len() == 0
    }

    /// Refuses a `port` setting that reads as 0.
    fn validate(&self) -> (r: Result<(), ConfigError>)
        ensures
            !port_is_zero(self@) ==> r is Ok,
            port_is_zero(self@) ==> (r matches Err(e) && e.view_of() == ConfigErrorView::Validation(
                "Port cannot be 0"@,
            )),
    {
        match self.get("port") {
            Some(port) => {
                let pv = chars_of(port.as_str());
                let n = pv.len();
                assert(pv@.subrange(0, n as int) =~= pv@);
                match parse_unsigned_slice(&pv, 0, n, 0xffff) {
                    Some(p) => {
                        if p == 0 {
                            return Err(ConfigError::ValidationError(owned("Port cannot be 0")));
                        }
                    },
                    None => {},
                }
            },
            None => {},
        }
        Ok(())
    }

    /// Parses a configuration text: one `key=value` per line, blank lines
    /// and lines starting with `#` skipped, keys and values trimmed; a `port`
    /// of 0 is refused.
    pub fn from_string(contents: &str) -> (r: Result<Self, ConfigError>)
        ensures
            match parse_config(contents@) {
                Ok(m) => (r matches Ok(c) && c@ == m),
                Err(ev) => (r matches Err(e) && e.view_of() == ev),
            },
    {
        let v = chars_of(contents);
        let lb = line_bounds(&v);
        let ghost ls = lines_spec(v@);
        let mut config = Config::new();
        let mut k: usize = 0;
        while k < lb.len()
            invariant
                v@ == contents@,
                ls == lines_spec(v@),
                lb@.len() == ls.len(),
                forall|m: int| #![trigger lb@[m]] 0 <= m < lb@.len() ==> lb@[m].0 <= lb@[m].1 <= v@.len(),
                forall|m: int| 0 <= m < lb@.len() ==> ls[m] == v@.subrange(lb@[m].0 as int, lb@[m].1 as int),
                k <= lb@.len(),
                parse_settings(ls.take(k as int)) == Ok::<Map<Seq<char>, Seq<char>>, Seq<char>>(config@),
            decreases lb@.len() - k,
        {
            let (a, b) = lb[k];
            let (ta, tb) = trim_bounds(&v, a, b);
            let ghost t = v@.subrange(ta as int, tb as int);
            proof {
                assert(ls.take(k + 1).drop_last() =~= ls.take(k as int));
                assert(ls.take(k + 1).last() == ls[k as int]);
                assert(t == trim_spec(ls[k as int]));
            }
            if ta == tb || v[ta] == '#' {
                proof {
                    if ta < tb {
                        assert(t[0] == v@[ta as int]);
                    }
                }
            } else {
                assert(t[0] == v@[ta as int]);
                let line = chars_between(&v, ta, tb);
                match find_char_suffix(&line, '=', 0) {
                    None => {
                        assert(line@.skip(0) =~= line@);
                        let mut m = owned("Invalid format on line ");
                        push_decimal(&mut m, (k + 1) as u64);
                        m.append(": '");
                        let text = string_of_slice(&v, ta, tb);
                        m.append(text.as_str());
                        m.append("'");
                        proof {
                            lemma_parse_settings_err(ls, k + 1, m@);
                        }
                        return Err(ConfigError::ParseError(m));
                    },
                    Some(eq) => {
                        assert(line@.skip(0) =~= line@);
                        let n = line.len();
                        let (ka, kb) = trim_bounds(&line, 0, eq);
                        let (va, vb) = trim_bounds(&line, eq + 1, n);
                        proof {
                            assert(line@.subrange(0, eq as int) =~= t.take(eq as int));
                            assert(line@.subrange(eq + 1, n as int) =~= t.skip(eq + 1));
                        }
                        if ka == kb {
                            let mut m = owned("Empty key on line ");
                            push_decimal(&mut m, (k + 1) as u64);
                            proof {
                                lemma_parse_settings_err(ls, k + 1, m@);
                            }
                            return Err(ConfigError::ParseError(m));
                        }
                        let key = string_of_slice(&line, ka, kb);
                        let value = string_of_slice(&line, va, vb);
                        config.set(key, value);
                    },
                }
            }
            k = k + 1;
        }
        assert(ls.take(lb@.len() as int) =~= ls);
        match config.validate() {
            Ok(()) => {},
            Err(e) => return Err(e),
        }
        Ok(config)
    }
}

impl Default for Config {
    fn default() -> (r: Self)
        ensures
            r@ == Map::<Seq<char>, Seq<char>>::empty(),
    {
        Config::new()
    }
}

} // verus!
