use vstd::prelude::*;

verus! {

/// Everything that can go wrong between a typed line and its rendered answer.
#[derive(Debug, Clone, Copy, PartialEq, Eq, Structural)]
pub enum Error {
    /// A command ran and declined, for a reason of its own.
    CmdFailure,
    /// A text did not fit the bounded buffer it was meant for.
    BufferOverflow,
    /// The command table holds no command of the given name.
    CmdNotFound,
    /// The line held no token.
    EmptyCmd,
    /// A command asked for a token after the last one.
    NotEnoughArgs,
    /// A token was there but is not a value of the type asked for.
    InvalidArgType,
}

impl Error {
    /// The line shown to the user for this error.
    pub open spec fn message(self) -> Seq<char> {
        match self {
            Error::CmdFailure => "Command execution failed!"@,
            Error::BufferOverflow => "String buffer overflow!"@,
            Error::CmdNotFound => "Command was not found!"@,
            Error::EmptyCmd => "Empty command!"@,
            Error::NotEnoughArgs => "Not enough arguments for the command!"@,
            Error::InvalidArgType => "Invalid argument type!"@,
        }
    }

    pub fn to_str(&self) -> (text: &'static str)
        ensures
            text@ == self.message(),
    {
        match self {
            Error::CmdFailure => "Command execution failed!",
            Error::BufferOverflow => "String buffer overflow!",
            Error::CmdNotFound => "Command was not found!",
            Error::EmptyCmd => "Empty command!",
            Error::NotEnoughArgs => "Not enough arguments for the command!",
            Error::InvalidArgType => "Invalid argument type!",
        }
    }
}

} // verus!
