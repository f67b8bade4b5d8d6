//! What the assistant does about a message, on the terminal and in a chat room.
//! The caller performs the action (storing, reading the agenda, sending) and
//! reports back.
use vstd::prelude::*;
use crate::grammar::{Fault, CommandView, spec_command};
use crate::parsers::{Command, TodoCmd, command_checked};

verus! {

broadcast use vstd::string::group_string_axioms;

/// Where messages come from.
#[derive(Clone, Copy, Debug, PartialEq, Eq)]
pub enum Channel {
    /// Lines typed on the terminal.
    Terminal,
    /// Messages of a Matrix chat room.
    Matrix,
}

/// What to do about a message.
#[derive(Debug, PartialEq)]
pub enum Reaction {
    /// Store the to-do under the room, then send `stored_reply`.
    Store { todo: TodoCmd, room: String },
    /// Send the agenda of the room `agenda_room()`.
    ShowAgenda,
    /// Send this text.
    Send(String),
}

/// The room whose to-dos the agenda shows, and under which the terminal stores.
pub open spec fn shared_room() -> Seq<char> {
    seq!['r', 'o', 'o', 'm', 'i', 'd', 's']
}

/// The answer to a message that is no command.
pub open spec fn not_understood() -> Seq<char> {
    "Sorry, I didn't catch that. Try again?"@
}

/// The room under which a to-do from `room` on `channel` is stored.
pub open spec fn storage_room(channel: Channel, room: Seq<char>) -> Seq<char> {
    match channel {
        Channel::Terminal => shared_room(),
        Channel::Matrix => room,
    }
}

/// The reaction to a message that reads as `c`.
pub open spec fn reaction_is(r: Reaction, c: Option<CommandView>, channel: Channel, room: Seq<char>) -> bool {
    match c {
        Some(CommandView::Todo(t)) => r matches Reaction::Store { todo, room: rm } && todo@ == t
            && rm@ == storage_room(channel, room),
        Some(CommandView::Agenda) => r matches Reaction::ShowAgenda,
        None => r matches Reaction::Send(text) && text@ == not_understood(),
    }
}

/// The room that the agenda shows.
pub fn agenda_room() -> (r: &'static str)
    ensures
        r@ == shared_room(),
{
    proof {
        reveal_strlit("roomids");
        assert("roomids"@ =~= shared_room());
    }
    "roomids"
}

/// The reaction to the message `text` from `room` on `channel`: a to-do is
/// stored, `AGENDA` shows the agenda, and anything else is answered with an
/// apology. Messages on which the command handling gives up give the reason.
pub fn react(channel: Channel, room: &str, text: &str) -> (r: Result<Reaction, Fault>)
    ensures
        match spec_command(text@) {
            Ok(c) => r matches Ok(x) && reaction_is(x, c, channel, room@),
            Err(f) => r == Err::<Reaction, Fault>(f),
        },
{
    match command_checked(text) {
        Err(f) => Err(f),
        Ok(Some(Command::Todo(todo))) => {
            let rm = match channel {
                Channel::Terminal => String::from_str(agenda_room()),
                Channel::Matrix => String::from_str(room),
            };
            Ok(Reaction::Store { todo, room: rm })
        },
        Ok(Some(Command::Agenda)) => Ok(Reaction::ShowAgenda),
        Ok(None) => Ok(Reaction::Send(String::from_str("Sorry, I didn't catch that. Try again?"))),
    }
}

/// The answer after storing a to-do, by channel and by whether it was stored.
pub open spec fn stored_text(channel: Channel, stored: bool) -> Seq<char> {
    match (channel, stored) {
        (Channel::Terminal, true) => "New TODO added..."@,
        (Channel::Terminal, false) => "Error: Couldn't insert TODO in the database."@,
        (Channel::Matrix, true) => "New TODO added"@,
        (Channel::Matrix, false) => "Error adding TODO to datbaase."@,
    }
}

/// The answer after storing a to-do.
pub fn stored_reply(channel: Channel, stored: bool) -> (r: String)
    ensures
        r@ == stored_text(channel, stored),
{
    match (channel, stored) {
        (Channel::Terminal, true) => String::from_str("New TODO added..."),
        (Channel::Terminal, false) => String::from_str("Error: Couldn't insert TODO in the database."),
        (Channel::Matrix, true) => String::from_str("New TODO added"),
        (Channel::Matrix, false) => String::from_str("Error adding TODO to datbaase."),
    }
}

// ---------------------------------------------------------------------------
// The chat room
// ---------------------------------------------------------------------------

/// A timeline event of a Matrix sync, as the assistant sees it.
#[derive(Debug, PartialEq)]
pub struct ChatEvent {
    /// The index of the sync batch that brought it; the first batch is 0.
    pub batch: u64,
    /// Whether it comes from a room that the user has joined.
    pub joined: bool,
    /// The room it comes from.
    pub room: String,
    /// Who sent it.
    pub sender: String,
    /// The body of a text message; `None` for any other event.
    pub text: Option<String>,
}

/// The characters of an optional text.
pub open spec fn text_view(t: Option<String>) -> Option<Seq<char>> {
    match t {
        Some(t) => Some(t@),
        None => None,
    }
}

/// The events that are answered: text messages of joined rooms that come after
/// the first batch (which holds what happened before the assistant started).
pub open spec fn is_answered(e: ChatEvent) -> bool {
    e.batch >= 1 && e.joined && e.text is Some
}

/// What an event is answered by: nothing for events that are not answered, else
/// the reading of its text as a command.
pub open spec fn event_outcome(e: ChatEvent) -> Option<Result<Option<CommandView>, Fault>> {
    if is_answered(e) {
        match text_view(e.text) {
            Some(t) => Some(spec_command(t)),
            None => None,
        }
    } else {
        None
    }
}

/// The reaction to an event of a chat room: none for events that are not
/// answered, else exactly one reaction to its text (or the reason the command
/// handling gives up).
pub fn on_chat_event(e: &ChatEvent) -> (r: Option<Result<Reaction, Fault>>)
    ensures
        match event_outcome(*e) {
            None => r is None,
            Some(Ok(c)) => r matches Some(Ok(x)) && reaction_is(x, c, Channel::Matrix, e.room@),
            Some(Err(f)) => r == Some(Err::<Reaction, Fault>(f)),
        },
{
    if e.batch >= 1 && e.joined {
        match &e.text {
            Some(t) => Some(react(Channel::Matrix, e.room.as_str(), t.as_str())),
            None => None,
        }
    } else {
        None
    }
}

/// The one message that answers a reaction, once the caller has performed it:
/// the answer to storing (by whether it was stored), the agenda, or the text.
pub open spec fn reply_text(channel: Channel, r: Reaction, stored: bool, agenda: Seq<char>) -> Seq<
    char,
> {
    match r {
        Reaction::Store { .. } => stored_text(channel, stored),
        Reaction::ShowAgenda => agenda,
        Reaction::Send(t) => t@,
    }
}

/// The message that answers a reaction, once the caller has performed it.
pub fn reply(channel: Channel, r: &Reaction, stored: bool, agenda: &str) -> (m: String)
    ensures
        m@ == reply_text(channel, *r, stored, agenda@),
{
    match r {
        Reaction::Store { .. } => stored_reply(channel, stored),
        Reaction::ShowAgenda => String::from_str(agenda),
        Reaction::Send(t) => t.clone(),
    }
}

} // verus!
