//! The checks on a Linux `SO_PEERCRED` answer.

use vstd::prelude::*;

verus! {

/// A peer's process, user and group IDs as the kernel reports them.
#[derive(Debug, Clone, Copy, PartialEq, Eq)]
pub struct Credentials {
    pub pid: u32,
    pub uid: u32,
    pub gid: u32,
}

/// The credentials in a `ucred` answer: refused when the answer's length is
/// not the structure's length or the process ID is negative.
pub fn credentials_from_ucred(length_matches: bool, pid: i32, uid: u32, gid: u32) -> (r: Option<Credentials>)
    ensures
        (length_matches && pid >= 0) <==> r is Some,
        r matches Some(c) ==> c.pid == pid && c.uid == uid && c.gid == gid,
{
    if !length_matches || pid < 0 {
        return None;
    }
    Some(Credentials { pid: pid as u32, uid, gid })
}

} // verus!
