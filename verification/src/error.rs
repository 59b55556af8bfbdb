use vstd::prelude::*;

verus! {

/// Kernel error codes.
#[derive(PartialEq, Eq, Structural, Copy, Clone, Debug)]
pub enum Error {
    NoError,
    Error,
    TimeOut,
    Full,
    Empty,
    NoMem,
    NoSys,
    Busy,
    IO,
    Intr,
    Inval,
    NoEnt,
    NoSpc,
    Perm,
    Trap,
    Fault,
    NoBufs,
}

/// The text of an error: "Error type : " and its description, then "!".
pub open spec fn error_text(e: Error) -> Seq<char> {
    match e {
        Error::NoError => "Error type : There is no error!"@,
        Error::Error => "Error type : A generic/unknown error happens!"@,
        Error::TimeOut => "Error type : Timed out!"@,
        Error::Full => "Error type : The resource is full!"@,
        Error::Empty => "Error type : The resource is empty!"@,
        Error::NoMem => "Error type : No memory!"@,
        Error::NoSys => "Error type : Function not implemented!"@,
        Error::Busy => "Error type : Busy!"@,
        Error::IO => "Error type : IO error!"@,
        Error::Intr => "Error type : Interrupted system call!"@,
        Error::Inval => "Error type : Invalid argument!"@,
        Error::NoEnt => "Error type : No entry!"@,
        Error::NoSpc => "Error type : No space left!"@,
        Error::Perm => "Error type : Operation not permitted!"@,
        Error::Trap => "Error type : Trap event!"@,
        Error::Fault => "Error type : Bad address !"@,
        Error::NoBufs => "Error type : No buffer space is available!"@,
    }
}

impl Error {
    /// The text of the error (see `error_text`).
    pub fn to_string(&self) -> (s: String)
        ensures
            s@ == error_text(*self),
    {
        match self {
            Error::NoError => String::from_str("Error type : There is no error!"),
            Error::Error => String::from_str("Error type : A generic/unknown error happens!"),
            Error::TimeOut => String::from_str("Error type : Timed out!"),
            Error::Full => String::from_str("Error type : The resource is full!"),
            Error::Empty => String::from_str("Error type : The resource is empty!"),
            Error::NoMem => String::from_str("Error type : No memory!"),
            Error::NoSys => String::from_str("Error type : Function not implemented!"),
            Error::Busy => String::from_str("Error type : Busy!"),
            Error::IO => String::from_str("Error type : IO error!"),
            Error::Intr => String::from_str("Error type : Interrupted system call!"),
            Error::Inval => String::from_str("Error type : Invalid argument!"),
            Error::NoEnt => String::from_str("Error type : No entry!"),
            Error::NoSpc => String::from_str("Error type : No space left!"),
            Error::Perm => String::from_str("Error type : Operation not permitted!"),
            Error::Trap => String::from_str("Error type : Trap event!"),
            Error::Fault => String::from_str("Error type : Bad address !"),
            Error::NoBufs => String::from_str("Error type : No buffer space is available!"),
        }
    }
}

/// `Result` with the kernel error type.
pub type ResultE<R> = Result<R, Error>;

} // verus!
