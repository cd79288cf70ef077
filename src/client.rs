use vstd::prelude::*;
use crate::abi::Tid;

verus! {

/// A client of the block server, which it reaches by ITC.
#[derive(Clone, Copy, Debug, PartialEq, Eq, Structural)]
pub struct VirtioClient {
    pub server_tid: Tid,
}

impl VirtioClient {
    /// A client of the block server, once that server has registered;
    /// `None` before, and the caller waits and asks again.
    pub fn new(server: Option<Tid>) -> (r: Option<VirtioClient>)
        ensures
            match server {
                Some(t) => r == Some(VirtioClient { server_tid: t }),
                None => r is None,
            },
    {
        match server {
            Some(t) => Some(VirtioClient { server_tid: t }),
            None => None,
        }
    }
}

/// Bytes laid out at the alignment of `Align`.
pub struct AlignedAs<Align, Bytes> {
    pub align: [Align; 0],
    pub bytes: Bytes,
}

} // verus!
