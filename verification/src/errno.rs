//! The error numbers that the interface answers with.

use vstd::prelude::*;

verus! {

/// An error of the interface. Its number is the operating system's.
#[derive(Debug, Clone, Copy, PartialEq, Eq, Structural)]
pub enum Errno {
    /// An argument is invalid.
    Inval,
    /// There is no such context or entry.
    NoEnt,
    /// There is no such device.
    NoDev,
    /// The thing to be made exists.
    Exist,
    /// Not supported here.
    NotSup,
    /// Not supported by this build.
    OpNotSupp,
    /// There is no room.
    NoMem,
    /// It has been done already.
    Already,
    /// Not a terminal.
    NotTty,
    /// Not a directory.
    NotDir,
    /// Input or output failed.
    Io,
    /// The number that the operating system gave.
    Os(i32),
}

/// The operating system's numbers of the errors that have a name here.
#[derive(Debug, Clone, Copy)]
pub struct Numbers {
    pub inval: i32,
    pub noent: i32,
    pub nodev: i32,
    pub exist: i32,
    pub notsup: i32,
    pub opnotsupp: i32,
    pub nomem: i32,
    pub already: i32,
    pub notty: i32,
    pub notdir: i32,
    pub io: i32,
}

impl Numbers {
    /// Numbers of errors are positive.
    pub open spec fn wf(self) -> bool {
        &&& self.inval > 0
        &&& self.noent > 0
        &&& self.nodev > 0
        &&& self.exist > 0
        &&& self.notsup > 0
        &&& self.opnotsupp > 0
        &&& self.nomem > 0
        &&& self.already > 0
        &&& self.notty > 0
        &&& self.notdir > 0
        &&& self.io > 0
    }
}

impl Errno {
    /// The number of the error.
    pub open spec fn number(self, numbers: Numbers) -> i32 {
        match self {
            Errno::Inval => numbers.inval,
            Errno::NoEnt => numbers.noent,
            Errno::NoDev => numbers.nodev,
            Errno::Exist => numbers.exist,
            Errno::NotSup => numbers.notsup,
            Errno::OpNotSupp => numbers.opnotsupp,
            Errno::NoMem => numbers.nomem,
            Errno::Already => numbers.already,
            Errno::NotTty => numbers.notty,
            Errno::NotDir => numbers.notdir,
            Errno::Io => numbers.io,
            Errno::Os(n) => n,
        }
    }

    /// What a call answers that fails with the error: its number, negated.
    pub fn answer(&self, numbers: &Numbers) -> (r: i32)
        requires
            self.number(*numbers) > i32::MIN,
        ensures
            r == -self.number(*numbers),
    {
        let n: i32 = match self {
            Errno::Inval => numbers.inval,
            Errno::NoEnt => numbers.noent,
            Errno::NoDev => numbers.nodev,
            Errno::Exist => numbers.exist,
            Errno::NotSup => numbers.notsup,
            Errno::OpNotSupp => numbers.opnotsupp,
            Errno::NoMem => numbers.nomem,
            Errno::Already => numbers.already,
            Errno::NotTty => numbers.notty,
            Errno::NotDir => numbers.notdir,
            Errno::Io => numbers.io,
            Errno::Os(n) => *n,
        };
        -n
    }
}

/// A failing call never answers as one that succeeds: its answer is negative.
pub proof fn failures_are_negative(errno: Errno, numbers: Numbers)
    requires
        numbers.wf(),
        errno matches Errno::Os(n) ==> n > 0,
    ensures
        -errno.number(numbers) < 0,
{
}

/// A wrapped number of an operating-system error.
#[derive(Debug, Clone, Copy, PartialEq, Eq, Structural)]
pub struct Error(i32);

impl Error {
    pub closed spec fn number(self) -> i32 {
        self.0
    }

    /// Construct from a raw error number.
    pub fn new(errno: i32) -> (r: Self)
        ensures
            r.number() == errno,
    {
        Error(errno)
    }

    /// The error that the operating system reported, or 0 where it gave no
    /// number.
    pub fn reported(raw: Option<i32>) -> (r: Self)
        ensures
            r.number() == raw.unwrap_or(0),
    {
        match raw {
            Some(n) => Error(n),
            None => Error(0),
        }
    }

    /// The wrapped number.
    pub fn errno(self) -> (r: i32)
        ensures
            r == self.number(),
    {
        self.0
    }
}

} // verus!
