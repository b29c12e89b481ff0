//! The library's error: a chain of messages, outermost context first.

use vstd::prelude::*;

use crate::text::{join, owned, views};

verus! {

/// Why a step of the bootstrap failed. `chain[0]` is the outermost context
/// and the last entry the root cause, the order in which an error report
/// reads.
#[derive(Debug, PartialEq, Eq)]
pub struct Failure {
    pub chain: Vec<String>,
}

impl Failure {
    /// The messages of the chain, outermost first.
    pub open spec fn causes(&self) -> Seq<Seq<char>> {
        views(self.chain@)
    }

    /// The chain on one line, each cause separated by `": "` (the alternate
    /// rendering of an error chain).
    pub open spec fn flat(&self) -> Seq<char> {
        join(self.causes(), ": "@)
    }

    /// A failure with a single message.
    pub fn msg(message: String) -> (f: Failure)
        ensures
            f.causes() == seq![message@],
    {
        let mut chain = Vec::new();
        chain.push(message);
        let f = Failure { chain };
        assert(f.causes() =~= seq![message@]);
        f
    }

    /// A failure with a single message taken from a literal or slice.
    pub fn from_str(message: &str) -> (f: Failure)
        ensures
            f.causes() == seq![message@],
    {
        Failure::msg(owned(message))
    }

    /// Wraps the failure in an outer context message.
    pub fn context(self, outer: String) -> (f: Failure)
        ensures
            f.causes() == seq![outer@] + self.causes(),
    {
        let mut chain = Vec::new();
        chain.push(outer);
        let ghost inner = self.causes();
        let mut rest = self.chain;
        chain.append(&mut rest);
        let f = Failure { chain };
        assert(f.causes() =~= seq![outer@] + inner);
        f
    }

    /// The outermost message (empty for an empty chain).
    pub fn message(&self) -> (m: String)
        ensures
            self.chain@.len() > 0 ==> m@ == self.chain@[0]@,
            self.chain@.len() == 0 ==> m@ == Seq::<char>::empty(),
    {
        if self.chain.len() > 0 {
            owned(self.chain[0].as_str())
        } else {
            String::new()
        }
    }

    /// The whole chain on one line, causes separated by `": "`.
    pub fn flatten(&self) -> (s: String)
        ensures
            s@ == self.flat(),
    {
        crate::text::join_strings(&self.chain, ": ")
    }
}

} // verus!
