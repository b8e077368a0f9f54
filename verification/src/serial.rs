//! The command console of a device on a serial line: bytes are gathered
//! into lines, a line is split into a command word and its argument, and
//! the console answers with fixed texts.
use vstd::prelude::*;
use vstd::string::StringExecFns;
use crate::text::{
    char_slice, chars_between, chars_of, find_char_suffix, first_index_of, lemma_first_index_of,
    owned, str_eq, trim_bounds, trim_spec,
};

verus! {

broadcast use vstd::string::group_string_axioms;

// ---------------------------------------------------------------------------
// Gathering lines
// ---------------------------------------------------------------------------

/// The most bytes a line keeps; further bytes are dropped.
pub const LINE_CAPACITY: usize = 64;

/// The bytes of the line being typed.
pub struct LineBuffer {
    buf: Vec<u8>,
}

impl LineBuffer {
    #[verifier::type_invariant]
    closed spec fn inv(self) -> bool {
        self.buf@.len() <= LINE_CAPACITY
    }

    /// The bytes gathered so far.
    pub closed spec fn pending(&self) -> Seq<u8> {
        self.buf@
    }

    /// No byte gathered yet.
    pub fn new() -> (r: Self)
        ensures
            r.pending() == Seq::<u8>::empty(),
    {
        LineBuffer { buf: Vec::new() }
    }

    /// Takes one byte: a carriage return or line feed ends the line, which
    /// is handed out when it is not empty; any other byte is kept while the
    /// line has fewer than `LINE_CAPACITY` bytes.
    pub fn feed(&mut self, b: u8) -> (r: Option<Vec<u8>>)
        ensures
            (b == 13 || b == 10) ==> final(self).pending() == Seq::<u8>::empty() && (if old(
                self,
            ).pending().len() > 0 {
                r matches Some(line) && line@ == old(self).pending()
            } else {
                r is None
            }),
            !(b == 13 || b == 10) ==> r is None && final(self).pending() == (if old(
                self,
            ).pending().len() < LINE_CAPACITY {
                old(self).pending().push(b)
            } else {
                old(self).pending()
            }),
    {
        proof {
            use_type_invariant(&*self);
        }
        if b == 13 || b == 10 {
            if self.buf.len() > 0 {
                let mut line = Vec::new();
                std::mem::swap(&mut line, &mut self.buf);
                return Some(line);
            }
            return None;
        }
        if self.buf.len() < LINE_CAPACITY {
            let mut buf = Vec::new();
            std::mem::swap(&mut buf, &mut self.buf);
            buf.push(b);
            self.buf = buf;
        }
        None
    }
}

// ---------------------------------------------------------------------------
// Commands
// ---------------------------------------------------------------------------

/// The command word of a line.
#[derive(Debug, Clone, Copy, PartialEq, Eq, Structural)]
pub enum CommandName {
    Status,
    Help,
    Offset,
    Unknown,
}

/// The word of a trimmed line: the text before its first space.
pub open spec fn word_of(t: Seq<char>) -> Seq<char> {
    match first_index_of(t, ' ') {
        Some(p) => t.take(p),
        None => t,
    }
}

/// The argument of a trimmed line: the trimmed text after its first space.
pub open spec fn arg_of(t: Seq<char>) -> Seq<char> {
    match first_index_of(t, ' ') {
        Some(p) => trim_spec(t.skip(p + 1)),
        None => Seq::empty(),
    }
}

/// The command a trimmed line names.
pub open spec fn name_of(t: Seq<char>) -> CommandName {
    if t.len() == 0 {
        CommandName::Unknown
    } else if word_of(t) == "status"@ {
        CommandName::Status
    } else if word_of(t) == "help"@ {
        CommandName::Help
    } else if word_of(t) == "offset"@ {
        CommandName::Offset
    } else {
        CommandName::Unknown
    }
}

/// A line split into its parts: the trimmed line, the command it names and
/// its argument.
pub struct CommandParts<'a> {
    pub trimmed: &'a str,
    pub name: CommandName,
    pub arg: &'a str,
}

/// Splits `input` into the trimmed line, its command and its argument.
pub fn split_command<'a>(input: &'a str) -> (r: CommandParts<'a>)
    ensures
        r.trimmed@ == trim_spec(input@),
        r.name == name_of(trim_spec(input@)),
        r.arg@ == arg_of(trim_spec(input@)),
{
    let v = chars_of(input);
    let n = v.len();
    let (a, b) = trim_bounds(&v, 0, n);
    assert(v@.subrange(0, n as int) =~= v@);
    let trimmed = char_slice(input, a, b);
    let t = chars_between(&v, a, b);
    assert(t@.skip(0) =~= t@);
    let (word_end, arg_from, arg_to) = match find_char_suffix(&t, ' ', 0) {
        Some(p) => {
            let m = t.len();
            let (c, d) = trim_bounds(&t, p + 1, m);
            proof {
                assert(t@.subrange(p + 1, m as int) =~= t@.skip(p + 1));
            }
            (a + p, a + c, a + d)
        },
        None => (b, b, b),
    };
    proof {
        let ts = trim_spec(input@);
        assert(ts == t@);
        match first_index_of(ts, ' ') {
            Some(p) => {
                lemma_first_index_of(ts, ' ');
                assert(t@.take(p) =~= v@.subrange(a as int, word_end as int));
            },
            None => {
                assert(t@ =~= v@.subrange(a as int, word_end as int));
            },
        }
    }
    let word = char_slice(input, a, word_end);
    let arg = char_slice(input, arg_from, arg_to);
    proof {
        match first_index_of(t@, ' ') {
            Some(p) => {
                assert(v@.subrange(arg_from as int, arg_to as int) =~= t@.subrange(
                    arg_from - a,
                    arg_to - a,
                ));
            },
            None => {},
        }
        reveal_strlit("status");
        reveal_strlit("help");
        reveal_strlit("offset");
        assert("help"@[0] != "status"@[0]);
        assert("offset"@[0] != "status"@[0]);
        assert("offset"@[0] != "help"@[0]);
    }
    let name = if a == b {
        CommandName::Unknown
    } else if str_eq(word, "status") {
        CommandName::Status
    } else if str_eq(word, "help") {
        CommandName::Help
    } else if str_eq(word, "offset") {
        CommandName::Offset
    } else {
        CommandName::Unknown
    };
    CommandParts { trimmed, name, arg }
}

// ---------------------------------------------------------------------------
// Answers
// ---------------------------------------------------------------------------

/// The lines that `help` prints.
pub fn help_lines() -> (r: Vec<&'static str>)
    ensures
        r@.len() == 4,
        r@[0]@ == "Commands:"@,
        r@[1]@ == "  status         — print current reading as JSON"@,
        r@[2]@ == "  offset <value> — set die-to-ambient offset"@,
        r@[3]@ == "  help           — show this message"@,
{
    let mut r: Vec<&'static str> = Vec::new();
    r.push("Commands:");
    r.push("  status         — print current reading as JSON");
    r.push("  offset <value> — set die-to-ambient offset");
    r.push("  help           — show this message");
    r
}

/// The answer to a line that names no command.
pub fn unknown_message(input: &str) -> (r: String)
    ensures
        r@ == "Unknown command: '"@ + input@ + "'. Type 'help' for usage."@,
{
    let mut s = owned("Unknown command: '");
    s.append(input);
    s.append("'. Type 'help' for usage.");
    s
}

/// The answer to `status` before the first reading.
pub fn no_reading_message() -> (r: &'static str)
    ensures
        r@ == "{\"error\":\"no reading yet\"}"@,
{
    "{\"error\":\"no reading yet\"}"
}

} // verus!
