//! A line of text that the user types.

use crate::components::event::{KeyCode, KeyEvent, KeyEventKind};
use crate::text::{pop_char, push_char};
use vstd::prelude::*;
use vstd::string::StrSliceExecFns;

verus! {

/// A line of text that the user types.
#[derive(Debug)]
pub struct TextInput {
    text: String,
}

impl View for TextInput {
    type V = Seq<char>;

    closed spec fn view(&self) -> Seq<char> {
        self.text@
    }
}

/// The text after the key event `key`: a pressed character is added at the
/// end, a pressed backspace takes the last character away, and nothing else
/// changes the text.
pub open spec fn typed(text: Seq<char>, key: KeyEvent) -> Seq<char> {
    if key.kind != KeyEventKind::Press {
        text
    } else {
        match key.code {
            KeyCode::Char(c) => text.push(c),
            KeyCode::Backspace => if text.len() > 0 {
                text.drop_last()
            } else {
                text
            },
            _ => text,
        }
    }
}

impl TextInput {
    /// The text typed so far.
    pub fn text(&self) -> (text: &str)
        ensures
            text@ == self@,
    {
        self.text.as_str()
    }

    /// A line that holds `text`.
    pub fn new(text: String) -> (input: Self)
        ensures
            input@ == text@,
    {
        Self { text }
    }

    /// Takes the key event `key` into the text.
    pub fn handle_key(&mut self, key: &KeyEvent)
        ensures
            final(self)@ == typed(old(self)@, *key),
    {
        match key.kind {
            KeyEventKind::Press => {},
            _ => {
                return ;
            },
        }
        match key.code {
            KeyCode::Char(c) => push_char(&mut self.text, c),
            KeyCode::Backspace => {
                let _ = pop_char(&mut self.text);
            },
            _ => (),
        }
    }

    /// The length of the text in characters, as far as sixteen bits hold it.
    pub fn text_len(&self) -> (len: u16)
        ensures
            len == self@.len() % 0x1_0000,
    {
        let count: usize = self.text.as_str().unicode_len();
        (count % 0x1_0000) as u16
    }
}

impl Default for TextInput {
    fn default() -> (input: TextInput)
        ensures
            input@ == Seq::<char>::empty(),
    {
        TextInput { text: String::new() }
    }
}

} // verus!
