//! The failure that the library's operations report.

use vstd::prelude::*;
use vstd::string::*;

use crate::text;

verus! {

/// A failure: its message, and below it the messages of what caused it, nearest first.
#[derive(Debug)]
pub struct Failure {
    chain: Vec<String>,
}

impl View for Failure {
    type V = Seq<Seq<char>>;

    closed spec fn view(&self) -> Seq<Seq<char>> {
        crate::seqs::texts(self.chain@)
    }
}

impl Failure {
    #[verifier::type_invariant]
    spec fn has_message(self) -> bool {
        self.chain@.len() >= 1
    }

    /// A failure with no cause below it.
    pub fn new(message: String) -> (r: Failure)
        ensures
            r@ == seq![message@],
    {
        let mut chain: Vec<String> = Vec::new();
        chain.push(message);
        let r = Failure { chain };
        assert(r@ =~= seq![message@]);
        r
    }

    /// The same failure below a wider message.
    pub fn context(self, message: String) -> (r: Failure)
        ensures
            r@ == seq![message@] + self@,
    {
        let ghost old = self@;
        let mut rest = self.chain;
        let mut chain: Vec<String> = Vec::new();
        chain.push(message);
        chain.append(&mut rest);
        let r = Failure { chain };
        assert(r@ =~= seq![message@] + old);
        r
    }

    /// The message itself, without its causes.
    pub fn to_string(&self) -> (r: String)
        ensures
            self@.len() >= 1,
            r@ == self@[0],
    {
        proof {
            use_type_invariant(self);
        }
        self.chain[0].clone()
    }

    /// The message, and below it those of its causes.
    pub fn messages(&self) -> (r: &Vec<String>)
        ensures
            crate::seqs::texts(r@) == self@,
            r@.len() >= 1,
    {
        proof {
            use_type_invariant(self);
        }
        &self.chain
    }

    /// Whether the message or one of its causes holds `part`.
    pub fn mentions(&self, part: &str) -> (r: bool)
        ensures
            r == exists|i: int|
                0 <= i < self@.len() && text::holds(#[trigger] self@[i], part@),
    {
        let mut i: usize = 0;
        while i < self.chain.len()
            invariant
                i <= self.chain@.len(),
                forall|j: int| 0 <= j < i ==> !text::holds(#[trigger] self@[j], part@),
            decreases self.chain@.len() - i,
        {
            if text::contains(&self.chain[i], part) {
                assert(text::holds(self@[i as int], part@));
                return true;
            }
            assert(self@[i as int] == self.chain@[i as int]@);
            i += 1;
        }
        false
    }
}

/// Whether `r` failed with exactly this message and no cause below it.
pub open spec fn failed<T>(r: Result<T, Failure>, message: Seq<char>) -> bool {
    r matches Err(e) && e@ == seq![message]
}

/// What an operation without a result came to.
pub open spec fn told_unit(r: Result<(), Failure>) -> Result<(), Seq<Seq<char>>> {
    match r {
        Ok(()) => Ok(()),
        Err(e) => Err(e@),
    }
}

/// What an operation that gives a text came to.
pub open spec fn told_text(r: Result<String, Failure>) -> Result<Seq<char>, Seq<Seq<char>>> {
    match r {
        Ok(s) => Ok(s@),
        Err(e) => Err(e@),
    }
}

/// What an operation that gives texts came to.
pub open spec fn told_texts(r: Result<Vec<String>, Failure>) -> Result<
    Seq<Seq<char>>,
    Seq<Seq<char>>,
> {
    match r {
        Ok(v) => Ok(crate::seqs::texts(v@)),
        Err(e) => Err(e@),
    }
}

/// A failure with this message.
pub fn fail(message: &str) -> (r: Failure)
    ensures
        r@ == seq![message@],
{
    Failure::new(message.to_owned())
}

} // verus!
