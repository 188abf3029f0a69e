//! The client's editing state: the line being typed, its cursor (a character
//! index), the history of shown messages, and the user's display name.

use vstd::prelude::*;
use crate::message::{encode_view, ChatMessage};
use crate::text::string_of_range;

verus! {

/// The client's screen state.
pub struct App {
    input: Vec<char>,
    character_index: usize,
    messages: Vec<String>,
    username: String,
}

impl App {
    /// The line being typed.
    pub closed spec fn spec_input(&self) -> Seq<char> {
        self.input@
    }

    /// The cursor, as a character index into the line.
    pub closed spec fn spec_cursor(&self) -> nat {
        self.character_index as nat
    }

    /// The shown messages, oldest first.
    pub closed spec fn spec_messages(&self) -> Seq<Seq<char>> {
        self.messages@.map_values(|m: String| m@)
    }

    /// The user's display name.
    pub closed spec fn spec_username(&self) -> Seq<char> {
        self.username@
    }

    /// The cursor stands within the line or just after it.
    pub open spec fn wf(&self) -> bool {
        self.spec_cursor() <= self.spec_input().len()
    }

    /// An empty screen for the user `username`.
    pub fn new(username: String) -> (r: App)
        ensures
            r.wf(),
            r.spec_input().len() == 0,
            r.spec_cursor() == 0,
            r.spec_messages().len() == 0,
            r.spec_username() == username@,
    {
        let r = App { input: Vec::new(), character_index: 0, messages: Vec::new(), username };
        assert(r.spec_messages() =~= Seq::<Seq<char>>::empty());
        r
    }

    /// The line being typed, as text.
    pub fn input(&self) -> (r: String)
        ensures
            r@ == self.spec_input(),
    {
        assert(self.input@.subrange(0, self.input@.len() as int) =~= self.input@);
        string_of_range(&self.input, 0, self.input.len())
    }

    /// The cursor position, in characters.
    pub fn cursor(&self) -> (r: usize)
        ensures
            r == self.spec_cursor(),
    {
        self.character_index
    }

    /// The shown messages, oldest first.
    pub fn messages(&self) -> (r: &Vec<String>)
        ensures
            r@.map_values(|m: String| m@) == self.spec_messages(),
    {
        &self.messages
    }

    /// The user's display name.
    pub fn username(&self) -> (r: &String)
        ensures
            r@ == self.spec_username(),
    {
        &self.username
    }

    /// `pos`, brought within the line.
    pub fn clamp_cursor(&self, pos: usize) -> (r: usize)
        ensures
            r == if pos <= self.spec_input().len() {
                pos as nat
            } else {
                self.spec_input().len()
            },
    {
        if pos <= self.input.len() {
            pos
        } else {
            self.input.len()
        }
    }

    /// Moves the cursor one character left, stopping at the start.
    pub fn move_cursor_left(&mut self)
        requires
            old(self).wf(),
        ensures
            final(self).wf(),
            final(self).spec_input() == old(self).spec_input(),
            final(self).spec_messages() == old(self).spec_messages(),
            final(self).spec_username() == old(self).spec_username(),
            final(self).spec_cursor() == if old(self).spec_cursor() == 0 {
                0
            } else {
                (old(self).spec_cursor() - 1) as nat
            },
    {
        let moved = if self.character_index == 0 {
            0
        } else {
            self.character_index - 1
        };
        self.character_index = self.clamp_cursor(moved);
    }

    /// Moves the cursor one character right, stopping at the end of the line.
    pub fn move_cursor_right(&mut self)
        requires
            old(self).wf(),
        ensures
            final(self).wf(),
            final(self).spec_input() == old(self).spec_input(),
            final(self).spec_messages() == old(self).spec_messages(),
            final(self).spec_username() == old(self).spec_username(),
            final(self).spec_cursor() == if old(self).spec_cursor() < old(
                self,
            ).spec_input().len() {
                old(self).spec_cursor() + 1
            } else {
                old(self).spec_cursor()
            },
    {
        let moved = if self.character_index < self.input.len() {
            self.character_index + 1
        } else {
            self.character_index
        };
        self.character_index = self.clamp_cursor(moved);
    }

    /// Puts the cursor back at the start of the line.
    pub fn reset_cursor(&mut self)
        ensures
            final(self).wf(),
            final(self).spec_cursor() == 0,
            final(self).spec_input() == old(self).spec_input(),
            final(self).spec_messages() == old(self).spec_messages(),
            final(self).spec_username() == old(self).spec_username(),
    {
        self.character_index = 0;
    }

    /// Inserts `c` at the cursor and moves the cursor past it.
    pub fn enter_char(&mut self, c: char)
        requires
            old(self).wf(),
        ensures
            final(self).wf(),
            final(self).spec_input() == old(self).spec_input().insert(
                old(self).spec_cursor() as int,
                c,
            ),
            final(self).spec_cursor() == old(self).spec_cursor() + 1,
            final(self).spec_messages() == old(self).spec_messages(),
            final(self).spec_username() == old(self).spec_username(),
    {
        self.input.insert(self.character_index, c);
        self.move_cursor_right();
    }

    /// Deletes the character left of the cursor, if there is one, and moves the
    /// cursor onto its place.
    pub fn delete_char(&mut self)
        requires
            old(self).wf(),
        ensures
            final(self).wf(),
            old(self).spec_cursor() == 0 ==> final(self).spec_input() == old(self).spec_input()
                && final(self).spec_cursor() == 0,
            old(self).spec_cursor() > 0 ==> final(self).spec_input() == old(
                self,
            ).spec_input().remove(old(self).spec_cursor() - 1) && final(self).spec_cursor()
                == old(self).spec_cursor() - 1,
            final(self).spec_messages() == old(self).spec_messages(),
            final(self).spec_username() == old(self).spec_username(),
    {
        if self.character_index != 0 {
            let at = self.character_index - 1;
            self.input.remove(at);
            self.character_index = at;
        }
    }

    /// Adds a received message to the history, in its wire form.
    pub fn receive_message(&mut self, message: &ChatMessage)
        ensures
            final(self).spec_messages() == old(self).spec_messages().push(
                encode_view(message.username@, message.content@),
            ),
            final(self).spec_input() == old(self).spec_input(),
            final(self).spec_cursor() == old(self).spec_cursor(),
            final(self).spec_username() == old(self).spec_username(),
    {
        self.messages.push(message.encode());
        assert(self.spec_messages() =~= old(self).spec_messages().push(
            encode_view(message.username@, message.content@),
        ));
    }

    /// Turns the typed line into a message from this user: the message joins the
    /// history, the line is emptied and the cursor reset. The message is handed
    /// back for sending.
    pub fn submit_message(&mut self) -> (r: ChatMessage)
        ensures
            r@ == (old(self).spec_username(), old(self).spec_input()),
            final(self).wf(),
            final(self).spec_messages() == old(self).spec_messages().push(
                encode_view(old(self).spec_username(), old(self).spec_input()),
            ),
            final(self).spec_input().len() == 0,
            final(self).spec_cursor() == 0,
            final(self).spec_username() == old(self).spec_username(),
    {
        assert(self.input@.subrange(0, self.input@.len() as int) =~= self.input@);
        let content = string_of_range(&self.input, 0, self.input.len());
        let message = ChatMessage::new(self.username.clone(), content);
        self.receive_message(&message);
        self.input = Vec::new();
        self.reset_cursor();
        message
    }
}

} // verus!
