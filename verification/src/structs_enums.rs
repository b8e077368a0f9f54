//! Structs and enums as state machines: a lendable book that can be
//! checked out, returned and reserved, and a traffic light that cycles
//! red, green and yellow.
use vstd::prelude::*;
use vstd::string::StringExecFns;
use crate::text::{owned, str_eq};

verus! {

broadcast use vstd::string::group_string_axioms;

// ---------------------------------------------------------------------------
// Book
// ---------------------------------------------------------------------------

/// Whether a book is on the shelf, lent out or held for someone.
#[derive(Debug)]
pub enum BookStatus {
    Available,
    CheckedOut { borrower: String, due_date: String },
    Reserved { reserver: String },
}

/// A book status as plain values.
pub enum StatusView {
    Available,
    CheckedOut { borrower: Seq<char>, due_date: Seq<char> },
    Reserved { reserver: Seq<char> },
}

impl BookStatus {
    /// The status as plain values.
    pub open spec fn view_of(&self) -> StatusView {
        match self {
            BookStatus::Available => StatusView::Available,
            BookStatus::CheckedOut { borrower, due_date } => StatusView::CheckedOut {
                borrower: borrower@,
                due_date: due_date@,
            },
            BookStatus::Reserved { reserver } => StatusView::Reserved { reserver: reserver@ },
        }
    }
}

/// The outcome of checking out a book in status `s` for `borrower` until
/// `due`: the new status, or the message of the refusal. An available book,
/// or one reserved by the borrower, is lent; otherwise the request is
/// refused, naming the current borrower or reserver.
pub open spec fn checkout_result(s: StatusView, borrower: Seq<char>, due: Seq<char>) -> Result<StatusView, Seq<char>> {
    match s {
        StatusView::Available => Ok(StatusView::CheckedOut { borrower, due_date: due }),
        StatusView::CheckedOut { borrower: b, .. } => Err("Book is already checked out by "@ + b),
        StatusView::Reserved { reserver } => if reserver == borrower {
            Ok(StatusView::CheckedOut { borrower, due_date: due })
        } else {
            Err("Book is reserved by "@ + reserver)
        },
    }
}

/// A book with its lending status.
#[derive(Debug)]
pub struct Book {
    pub title: String,
    pub author: String,
    pub isbn: String,
    pub status: BookStatus,
}

impl Book {
    /// An available book.
    pub fn new(title: String, author: String, isbn: String) -> (r: Self)
        ensures
            r.title@ == title@,
            r.author@ == author@,
            r.isbn@ == isbn@,
            r.status.view_of() == StatusView::Available,
    {
        Book { title, author, isbn, status: BookStatus::Available }
    }

    /// Lends the book to `borrower` until `due_date`.
    pub fn checkout(&mut self, borrower: String, due_date: String) -> (r: Result<(), String>)
        ensures
            final(self).title == old(self).title,
            final(self).author == old(self).author,
            final(self).isbn == old(self).isbn,
            match checkout_result(old(self).status.view_of(), borrower@, due_date@) {
                Ok(s) => r is Ok && final(self).status.view_of() == s,
                Err(m) => (r matches Err(e) && e@ == m) && final(self).status.view_of()
                    == old(self).status.view_of(),
            },
    {
        let refusal = match &self.status {
            BookStatus::Available => None,
            BookStatus::CheckedOut { borrower: b, .. } => {
                let mut m = owned("Book is already checked out by ");
                m.append(b.as_str());
                Some(m)
            },
            BookStatus::Reserved { reserver } => {
                if str_eq(reserver.as_str(), borrower.as_str()) {
                    None
                } else {
                    let mut m = owned("Book is reserved by ");
                    m.append(reserver.as_str());
                    Some(m)
                }
            },
        };
        match refusal {
            Some(m) => Err(m),
            None => {
                self.status = BookStatus::CheckedOut { borrower, due_date };
                Ok(())
            },
        }
    }

    /// Takes the book back from its borrower.
    pub fn return_book(&mut self) -> (r: Result<(), String>)
        ensures
            final(self).title == old(self).title,
            final(self).author == old(self).author,
            final(self).isbn == old(self).isbn,
            old(self).status.view_of() is CheckedOut ==> r is Ok && final(self).status.view_of()
                == StatusView::Available,
            !(old(self).status.view_of() is CheckedOut) ==> (r matches Err(e) && e@
                == "Book is not checked out"@) && final(self).status.view_of() == old(
                self,
            ).status.view_of(),
    {
        match &self.status {
            BookStatus::CheckedOut { .. } => {
                self.status = BookStatus::Available;
                Ok(())
            },
            _ => Err(owned("Book is not checked out")),
        }
    }

    /// Whether the book is on the shelf.
    pub fn is_available(&self) -> (r: bool)
        ensures
            r == (self.status.view_of() is Available),
    {
        match &self.status {
            BookStatus::Available => true,
            _ => false,
        }
    }

    /// Holds an available book for `reserver`.
    pub fn reserve(&mut self, reserver: String) -> (r: Result<(), String>)
        ensures
            final(self).title == old(self).title,
            final(self).author == old(self).author,
            final(self).isbn == old(self).isbn,
            old(self).status.view_of() is Available ==> r is Ok && final(self).status.view_of()
                == (StatusView::Reserved { reserver: reserver@ }),
            !(old(self).status.view_of() is Available) ==> (r matches Err(e) && e@
                == "Book is not available for reservation"@) && final(self).status.view_of()
                == old(self).status.view_of(),
    {
        match &self.status {
            BookStatus::Available => {
                self.status = BookStatus::Reserved { reserver };
                Ok(())
            },
            _ => Err(owned("Book is not available for reservation")),
        }
    }
}

/// Lending a book and taking it back leaves it available again, and a
/// reserved book can only be lent to its reserver.
pub proof fn law_checkout_then_return(s: StatusView, borrower: Seq<char>, due: Seq<char>)
    ensures
        checkout_result(s, borrower, due) matches Ok(t) ==> t is CheckedOut,
        s matches StatusView::Reserved { reserver } ==> (checkout_result(s, borrower, due) is Ok
            <==> reserver == borrower),
        s is CheckedOut ==> checkout_result(s, borrower, due) is Err,
{
}

// ---------------------------------------------------------------------------
// Traffic light
// ---------------------------------------------------------------------------

/// The phase of a traffic light and how long it lasts, in ticks.
#[derive(Debug, Clone, Copy, PartialEq, Eq, Structural)]
pub enum LightState {
    Red { duration: u32 },
    Yellow { duration: u32 },
    Green { duration: u32 },
}

/// A traffic light: its phase and the ticks left in it.
pub struct TrafficLight {
    pub current_state: LightState,
    pub timer: u32,
}

/// The phase and timer after one tick: the timer counts down, and when it
/// reaches zero red turns green for 25 ticks, green turns yellow for 5 and
/// yellow turns red for 30.
pub open spec fn tick_spec(state: LightState, timer: u32) -> (LightState, u32) {
    let t = if timer == 0 { 0 } else { (timer - 1) as u32 };
    if t == 0 {
        match state {
            LightState::Red { .. } => (LightState::Green { duration: 25 }, 25),
            LightState::Green { .. } => (LightState::Yellow { duration: 5 }, 5),
            LightState::Yellow { .. } => (LightState::Red { duration: 30 }, 30),
        }
    } else {
        (state, t)
    }
}

/// The phase and timer after `n` ticks.
pub open spec fn ticks(state: LightState, timer: u32, n: nat) -> (LightState, u32)
    decreases n,
{
    if n == 0 {
        (state, timer)
    } else {
        let (s, t) = tick_spec(state, timer);
        ticks(s, t, (n - 1) as nat)
    }
}

/// The name of a phase's colour.
pub open spec fn color_name(state: LightState) -> Seq<char> {
    match state {
        LightState::Red { .. } => "Red"@,
        LightState::Yellow { .. } => "Yellow"@,
        LightState::Green { .. } => "Green"@,
    }
}

impl TrafficLight {
    /// A light that turned red, with 30 ticks to go.
    pub fn new() -> (r: Self)
        ensures
            r.current_state == (LightState::Red { duration: 30 }),
            r.timer == 30,
    {
        TrafficLight { current_state: LightState::Red { duration: 30 }, timer: 30 }
    }

    /// Advances the light by one tick.
    pub fn tick(&mut self)
        ensures
            (final(self).current_state, final(self).timer) == tick_spec(
                old(self).current_state,
                old(self).timer,
            ),
    {
        self.timer = self.timer.saturating_sub(1);
        if self.timer == 0 {
            self.current_state = match self.current_state {
                LightState::Red { .. } => {
                    self.timer = 25;
                    LightState::Green { duration: 25 }
                },
                LightState::Green { .. } => {
                    self.timer = 5;
                    LightState::Yellow { duration: 5 }
                },
                LightState::Yellow { .. } => {
                    self.timer = 30;
                    LightState::Red { duration: 30 }
                },
            };
        }
    }

    /// The name of the current colour.
    pub fn current_color(&self) -> (r: &str)
        ensures
            r@ == color_name(self.current_state),
    {
        match self.current_state {
            LightState::Red { .. } => "Red",
            LightState::Yellow { .. } => "Yellow",
            LightState::Green { .. } => "Green",
        }
    }

    /// The ticks left in the current phase.
    pub fn time_remaining(&self) -> (r: u32)
        ensures
            r == self.timer,
    {
        self.timer
    }
}

proof fn lemma_ticks_split(state: LightState, timer: u32, a: nat, b: nat)
    ensures
        ticks(state, timer, a + b) == ({
            let (s, t) = ticks(state, timer, a);
            ticks(s, t, b)
        }),
    decreases a,
{
    if a > 0 {
        let (s, t) = tick_spec(state, timer);
        lemma_ticks_split(s, t, (a - 1) as nat, b);
        assert((a + b - 1) as nat == (a - 1) as nat + b);
    }
}

proof fn lemma_count_down(state: LightState, timer: u32)
    requires
        timer >= 1,
    ensures
        ticks(state, timer, timer as nat) == tick_spec(state, 1),
    decreases timer,
{
    if timer > 1 {
        assert(tick_spec(state, timer) == (state, (timer - 1) as u32));
        lemma_count_down(state, (timer - 1) as u32);
        assert(ticks(state, timer, timer as nat) == ticks(state, (timer - 1) as u32, (timer - 1) as nat));
    } else {
        assert(ticks(tick_spec(state, 1).0, tick_spec(state, 1).1, 0) == tick_spec(state, 1));
    }
}

/// A light that turned red is red again, with its full 30 ticks, after a
/// whole cycle of 60 ticks: 30 red, 25 green and 5 yellow.
pub proof fn law_light_cycles(d: u32)
    ensures
        ticks(LightState::Red { duration: d }, 30, 30) == (LightState::Green { duration: 25 }, 25u32),
        ticks(LightState::Green { duration: 25 }, 25, 25) == (LightState::Yellow { duration: 5 }, 5u32),
        ticks(LightState::Yellow { duration: 5 }, 5, 5) == (LightState::Red { duration: 30 }, 30u32),
        ticks(LightState::Red { duration: 30 }, 30, 60) == (LightState::Red { duration: 30 }, 30u32),
{
    lemma_count_down(LightState::Red { duration: d }, 30);
    lemma_count_down(LightState::Green { duration: 25 }, 25);
    lemma_count_down(LightState::Yellow { duration: 5 }, 5);
    lemma_count_down(LightState::Red { duration: 30 }, 30);
    lemma_ticks_split(LightState::Red { duration: 30 }, 30, 30, 30);
    lemma_ticks_split(LightState::Green { duration: 25 }, 25, 25, 5);
}

} // verus!
