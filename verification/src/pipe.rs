//! The decisions of the named-pipe transfers: how far a read or write of a
//! whole buffer has come, when a short transfer is an error, and when a
//! failed wait for a client still means that the client is there.
use vstd::prelude::*;

verus! {

/// Windows error code by which waiting for a client reports that the client
/// connected before the wait began (`ERROR_PIPE_CONNECTED`).
pub const ERROR_PIPE_CONNECTED: u32 = 535;

/// Why a transfer of a whole buffer stopped short.
#[derive(Debug, Clone, Copy, PartialEq, Eq, Structural)]
pub enum PipeError {
    /// A read returned no byte: the other end closed the pipe.
    Closed,
    /// A write accepted no byte.
    WriteZero,
}

/// How far the transfer of a buffer of `total` bytes has come.
pub struct Transfer {
    done: usize,
    total: usize,
}

impl View for Transfer {
    type V = (nat, nat);

    closed spec fn view(&self) -> (nat, nat) {
        (self.done as nat, self.total as nat)
    }
}

impl Transfer {
    /// No more bytes are moved than the buffer holds.
    #[verifier::type_invariant]
    spec fn moved_within_buffer(&self) -> bool {
        self.done <= self.total
    }

    /// A transfer of `total` bytes that has not begun.
    pub fn new(total: usize) -> (t: Transfer)
        ensures
            t@ == (0nat, total as nat),
    {
        Transfer { done: 0, total }
    }

    /// Bytes moved so far: where the next call starts in the buffer.
    pub fn done(&self) -> (d: usize)
        ensures
            d == self@.0,
    {
        self.done
    }

    /// Whether the whole buffer has been moved.
    pub fn is_complete(&self) -> (c: bool)
        ensures
            c == (self@.0 == self@.1),
            self@.0 <= self@.1,
    {
        proof {
            use_type_invariant(self);
        }
        self.done >= self.total
    }

    /// Takes in that a read call delivered `n` bytes; none at all means
    /// that the pipe was closed.
    pub fn record_read(&mut self, n: u32) -> (r: Result<(), PipeError>)
        requires
            old(self)@.0 < old(self)@.1,
            n <= old(self)@.1 - old(self)@.0,
        ensures
            final(self)@.0 <= final(self)@.1,
            n == 0 ==> r == Err::<(), PipeError>(PipeError::Closed) && final(self)@ == old(self)@,
            n != 0 ==> r == Ok::<(), PipeError>(()) && final(self)@ == (
                (old(self)@.0 + n) as nat,
                old(self)@.1,
            ),
    {
        if n == 0 {
            return Err(PipeError::Closed);
        }
        self.done = self.done + n as usize;
        Ok(())
    }

    /// Takes in that a write call accepted `n` bytes; none at all is an
    /// error.
    pub fn record_write(&mut self, n: u32) -> (r: Result<(), PipeError>)
        requires
            old(self)@.0 < old(self)@.1,
            n <= old(self)@.1 - old(self)@.0,
        ensures
            final(self)@.0 <= final(self)@.1,
            n == 0 ==> r == Err::<(), PipeError>(PipeError::WriteZero) && final(self)@ == old(
                self,
            )@,
            n != 0 ==> r == Ok::<(), PipeError>(()) && final(self)@ == (
                (old(self)@.0 + n) as nat,
                old(self)@.1,
            ),
    {
        if n == 0 {
            return Err(PipeError::WriteZero);
        }
        self.done = self.done + n as usize;
        Ok(())
    }
}

/// Whether a client is connected after waiting for one: the wait succeeded,
/// or it failed because the client had connected before it began.
pub fn client_connected(wait_succeeded: bool, error_code: u32) -> (c: bool)
    ensures
        c == (wait_succeeded || error_code == ERROR_PIPE_CONNECTED),
{
    wait_succeeded || error_code == ERROR_PIPE_CONNECTED
}

} // verus!
