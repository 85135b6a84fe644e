//! The raw command: a dispatch name and the tokens that follow it.

use vstd::prelude::*;
use crate::arguments::{Arg, Token, tokens_view};

verus! {

/// A command as it was entered: its name and its argument tokens, both
/// borrowed from the input. It is handed to the parser once and is not
/// copied.
#[derive(Debug, PartialEq, Eq)]
pub struct RawCommand<'a> {
    name: &'a str,
    args: &'a [Arg<'a>],
}

impl<'a> RawCommand<'a> {
    /// The dispatch name, as a sequence of characters.
    pub closed spec fn spec_name(&self) -> Seq<char> {
        self.name@
    }

    /// The models of the argument tokens, in order.
    pub closed spec fn spec_args(&self) -> Seq<Token> {
        tokens_view(self.args@)
    }

    /// A raw command of the given name and tokens.
    pub fn new(name: &'a str, args: &'a [Arg<'a>]) -> (raw: Self)
        ensures
            raw.spec_name() == name@,
            raw.spec_args() == tokens_view(args@),
    {
        RawCommand { name, args }
    }

    /// The dispatch name.
    pub fn name(&self) -> (name: &'a str)
        ensures
            name@ == self.spec_name(),
    {
        self.name
    }

    /// The argument tokens.
    pub fn args(&self) -> (args: &'a [Arg<'a>])
        ensures
            tokens_view(args@) == self.spec_args(),
    {
        self.args
    }
}

} // verus!
