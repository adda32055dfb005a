//! Decisions of the text-input front end.
//!
//! The front end polls an event, hands it to `Editor::handle` and performs
//! the action it gets back: quitting, switching text-input delivery, or
//! showing new text in the text box.
use crate::io::event::{Event, KEY_F1};
use vstd::prelude::*;

verus! {

/// What the front end does after an event.
#[derive(Debug, PartialEq, Eq)]
pub enum Action {
    /// Leave the loop.
    Quit,
    /// Turn text-input delivery on (`true`) or off.
    TextInput(bool),
    /// Replace the text box's buffer with these bytes and redraw it.
    Show(Vec<u8>),
    /// Nothing to do.
    Nothing,
}

/// The bytes shown in front of typed text: `"Edit Mode:\n"`.
pub open spec fn prompt() -> Seq<u8> {
    seq![69u8, 100, 105, 116, 32, 77, 111, 100, 101, 58, 10]
}

/// `text` up to its first NUL, or all of it when there is none.
pub open spec fn before_nul(text: Seq<i8>) -> Seq<u8>
    decreases text.len(),
{
    if text.len() == 0 || text[0] == 0 {
        Seq::empty()
    } else {
        seq![text[0] as u8] + before_nul(text.drop_first())
    }
}

/// Whether edit mode is on.
pub struct Editor {
    pub edit: bool,
}

/// The bytes of a text-input buffer before its first NUL.
pub fn typed_bytes(text: &[i8; 32]) -> (r: Vec<u8>)
    ensures
        r@ == before_nul(text@),
{
    let mut out: Vec<u8> = Vec::new();
    let mut i: usize = 0;
    let ghost whole = text@;
    proof {
        assert(whole.subrange(0, 32) =~= whole);
    }
    while i < 32 && text[i] != 0
        invariant
            whole == text@,
            whole.len() == 32,
            i <= 32,
            forall|j: int| 0 <= j < i ==> whole[j] != 0,
            out@ + before_nul(whole.subrange(i as int, 32)) == before_nul(whole),
        decreases 32 - i,
    {
        let ghost rest = whole.subrange(i as int, 32);
        proof {
            assert(rest.drop_first() =~= whole.subrange(i as int + 1, 32));
        }
        out.push(text[i] as u8);
        proof {
            assert(out@ + before_nul(whole.subrange(i as int + 1, 32)) =~= out@.drop_last() + (seq![
                text@[i as int] as u8,
            ] + before_nul(rest.drop_first())));
        }
        i = i + 1;
    }
    proof {
        if i < 32 {
            assert(whole.subrange(i as int, 32)[0] == 0);
        }
        assert(before_nul(whole.subrange(i as int, 32)) =~= Seq::<u8>::empty());
        assert(out@ + Seq::<u8>::empty() =~= out@);
    }
    out
}

impl Editor {
    /// Edit mode off.
    pub fn new() -> (r: Editor)
        ensures
            !r.edit,
    {
        Editor { edit: false }
    }

    /// Decides what an event does: quit ends the loop; pressing F1 toggles
    /// edit mode and text-input delivery with it; text typed in edit mode is
    /// shown after the prompt; anything else is ignored.
    pub fn handle(&mut self, event: &Event) -> (r: Action)
        ensures
            match *event {
                Event::Quit => r == Action::Quit && final(self).edit == old(self).edit,
                Event::Keyboard { down, sym, .. } => if down && sym == KEY_F1 {
                    final(self).edit == !old(self).edit && r == Action::TextInput(final(self).edit)
                } else {
                    r == Action::Nothing && final(self).edit == old(self).edit
                },
                Event::TextInput { text } => final(self).edit == old(self).edit && if old(
                    self,
                ).edit {
                    r matches Action::Show(bytes) && bytes@ == prompt() + before_nul(text@)
                } else {
                    r == Action::Nothing
                },
            },
    {
        match event {
            Event::Quit => Action::Quit,
            Event::Keyboard { down, sym, .. } => {
                if *down && *sym == KEY_F1 {
                    self.edit = !self.edit;
                    Action::TextInput(self.edit)
                } else {
                    Action::Nothing
                }
            },
            Event::TextInput { text } => {
                if self.edit {
                    let mut bytes: Vec<u8> = vec![69u8, 100, 105, 116, 32, 77, 111, 100, 101, 58, 10];
                    let mut typed = typed_bytes(text);
                    let ghost p = bytes@;
                    let ghost t = typed@;
                    bytes.append(&mut typed);
                    proof {
                        assert(p =~= prompt());
                    }
                    Action::Show(bytes)
                } else {
                    Action::Nothing
                }
            },
        }
    }
}

} // verus!
