//! The command that the user pinned as the default one. It is kept in a file of one line.

use crate::text::{
    is_white, push_text, same_text, trim, trimmed, trimming_takes_off_what_surrounds,
};
use vstd::prelude::*;

verus! {

/// The pinned command, if there is one.
#[derive(Debug, Clone)]
pub struct Pinned {
    command: Option<String>,
}

impl View for Pinned {
    type V = Option<Seq<char>>;

    closed spec fn view(&self) -> Option<Seq<char>> {
        match self.command {
            Some(s) => Some(s@),
            None => None,
        }
    }
}

/// The command that a file with this text pins.
pub open spec fn pinned_by(text: Seq<char>) -> Option<Seq<char>> {
    if trimmed(text).len() == 0 {
        None
    } else {
        Some(trimmed(text))
    }
}

impl Default for Pinned {
    fn default() -> (r: Pinned)
        ensures
            r@ is None,
    {
        Pinned { command: None }
    }
}

impl Pinned {
    /// Reads the file that holds the pinned command. Without one, nothing is pinned.
    pub fn load(text: Option<&str>) -> (r: Pinned)
        ensures
            r@ == (match text {
                Some(t) => pinned_by(t@),
                None => None,
            }),
    {
        match text {
            Some(t) => {
                let bare = trim(t);
                if bare.as_str().is_empty() {
                    Pinned { command: None }
                } else {
                    Pinned { command: Some(bare) }
                }
            },
            None => Pinned { command: None },
        }
    }

    /// The pinned command.
    pub fn exec(&self) -> (r: Option<&str>)
        ensures
            r is Some <==> self@ is Some,
            r matches Some(s) ==> self@ == Some(s@),
    {
        match &self.command {
            Some(s) => Some(s.as_str()),
            None => None,
        }
    }

    /// Is `exec` the pinned command?
    pub fn is(&self, exec: &str) -> (r: bool)
        ensures
            r == (self@ == Some(exec@)),
    {
        match &self.command {
            Some(s) => same_text(s.as_str(), exec),
            None => false,
        }
    }

    /// Pins `exec`. The result is what the file holds from then on.
    pub fn set(&mut self, exec: &str) -> (r: String)
        ensures
            final(self)@ == Some(exec@),
            r@ == exec@.push('\n'),
    {
        self.command = Some(exec.to_owned());
        let mut line = String::new();
        push_text(&mut line, exec);
        line.push('\n');
        assert(line@ =~= exec@.push('\n'));
        line
    }

    /// Pins nothing any more. The file is removed.
    pub fn clear(&mut self)
        ensures
            final(self)@ is None,
    {
        self.command = None;
    }
}

/// The file that `set` asks for is read back as the command that was pinned.
pub proof fn pinned_command_is_loaded(exec: Seq<char>)
    requires
        trimmed(exec) == exec,
        exec.len() > 0,
    ensures
        pinned_by(exec.push('\n')) == Some(exec),
{
    crate::text::lemma_trimmed_push_white(exec, '\n');
}

/// The pinned command is what the file holds, without the white space around it. A file with
/// nothing but white space pins nothing.
pub proof fn white_space_around_a_pin_does_not_count(a: Seq<char>, exec: Seq<char>, b: Seq<char>)
    requires
        forall|i: int| 0 <= i < a.len() ==> is_white(#[trigger] a[i]),
        forall|i: int| 0 <= i < b.len() ==> is_white(#[trigger] b[i]),
        exec.len() > 0 ==> !is_white(exec[0]) && !is_white(exec[exec.len() - 1]),
    ensures
        exec.len() > 0 ==> pinned_by(a + exec + b) == Some(exec),
        exec.len() == 0 ==> pinned_by(a + exec + b) is None,
{
    trimming_takes_off_what_surrounds(a, exec, b);
}

} // verus!
