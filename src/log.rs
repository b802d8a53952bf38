//! A log of the errors met while the application runs.
use vstd::prelude::*;

verus! {

/// Relies on the `Debug` formatting of `E`: the text of an error.
#[verifier::external_body]
fn debug_text<E: std::fmt::Debug>(err: &E) -> (r: String) {
    format!("{:?}", err)
}

/// Messages in the order they were logged.
pub struct Logger {
    messages: Vec<String>,
}

impl Logger {
    /// The messages logged so far, oldest first.
    pub closed spec fn entries(&self) -> Seq<String> {
        self.messages@
    }

    pub fn new() -> (r: Self)
        ensures
            r.entries() == Seq::<String>::empty(),
    {
        Logger { messages: Vec::new() }
    }

    /// Appends the text of `err`; earlier messages stay as they were.
    pub fn log<E: std::fmt::Debug>(&mut self, err: E)
        ensures
            final(self).entries().len() == old(self).entries().len() + 1,
            final(self).entries().drop_last() == old(self).entries(),
    {
        let text = debug_text(&err);
        self.messages.push(text);
        assert(self.entries().drop_last() =~= old(self).entries());
    }

    /// The messages logged so far, oldest first.
    pub fn messages(&self) -> (r: &Vec<String>)
        ensures
            r@ == self.entries(),
    {
        &self.messages
    }
}

} // verus!
