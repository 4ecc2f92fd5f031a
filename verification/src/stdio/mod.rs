use vstd::prelude::*;

mod io_uring_def;

pub use io_uring_def::{
    CmdOp, CqOffset, Idk1, IoAddr3, IoAddrLen, IoUringParam, IouCQEntry, IouCQResult, IouOpcode,
    SqOffset,
};

verus! {

/// `std::io::Error`, carried through as it is.
#[verifier::external_type_specification]
#[verifier::external_body]
pub struct ExIoError(std::io::Error);

/// How a [`StdIo`] device completes its requests.
pub enum IoType {
    Synchronous,
    BusyAsynchronous,
    EventAsynchronous,
}

/// The byte channel behind a terminal: implementors connect it to their input and output.
pub trait StdIo: Sized {
    fn new_stdio() -> std::io::Result<Self>;

    fn io_type() -> IoType;

    /// Writes every byte of `buf`, or fails.
    fn write_all(&mut self, buf: &[u8]) -> std::io::Result<()>;

    /// Reads some bytes into `buf` and says how many: never more than `buf` holds, as
    /// `std::io::Read::read` promises.
    fn read(&mut self, buf: &mut [u8]) -> (r: std::io::Result<usize>)
        ensures
            r matches Ok(n) ==> n <= old(buf)@.len(),
    ;
}

} // verus!
