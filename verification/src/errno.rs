//! The error categories that system calls report.

use vstd::prelude::*;

verus! {

/// Why a system call failed.
#[derive(Clone, Copy, Debug, PartialEq, Eq, Structural)]
pub enum SysError {
    /// No such process or thread.
    ESRCH,
    /// The caller has no child to wait for.
    ECHILD,
    /// A pointer does not lead into the caller's memory.
    EFAULT,
    /// An argument is not valid.
    EINVAL,
    /// The call, or that form of it, is not supported.
    ENOSYS,
    /// The socket is not connected.
    ENOTCONN,
    /// No buffer space is left.
    ENOBUFS,
    /// The file descriptor does not name a socket.
    EBADF,
    /// The option is not known at that level.
    ENOPROTOOPT,
    /// The address family is not supported.
    EAFNOSUPPORT,
    /// The peer refused the connection.
    ECONNREFUSED,
    /// The address is in use: no local port is free.
    EADDRINUSE,
}

/// What a system call returns to its caller.
pub type SysResult = Result<usize, SysError>;

impl SysError {
    /// The number of the error.
    pub open spec fn spec_code(self) -> isize {
        match self {
            SysError::ESRCH => 3,
            SysError::ECHILD => 10,
            SysError::EFAULT => 14,
            SysError::EINVAL => 22,
            SysError::ENOSYS => 38,
            SysError::ENOTCONN => 107,
            SysError::ENOBUFS => 105,
            SysError::EBADF => 9,
            SysError::ENOPROTOOPT => 92,
            SysError::EAFNOSUPPORT => 97,
            SysError::ECONNREFUSED => 111,
            SysError::EADDRINUSE => 98,
        }
    }

    /// The number of the error.
    pub fn code(&self) -> (r: isize)
        ensures
            r == self.spec_code(),
    {
        match self {
            SysError::ESRCH => 3,
            SysError::ECHILD => 10,
            SysError::EFAULT => 14,
            SysError::EINVAL => 22,
            SysError::ENOSYS => 38,
            SysError::ENOTCONN => 107,
            SysError::ENOBUFS => 105,
            SysError::EBADF => 9,
            SysError::ENOPROTOOPT => 92,
            SysError::EAFNOSUPPORT => 97,
            SysError::ECONNREFUSED => 111,
            SysError::EADDRINUSE => 98,
        }
    }
}

} // verus!
