use vstd::prelude::*;

verus! {

pub struct IoUringParam {
    pub sq_entries: u32,
    pub cq_entries: u32,
    pub flags: u32,
    pub sq_thread_cpu: u32,
    pub sq_thread_idle: u32,
    pub features: u32,
    pub wq_fd: u32,
    pub resv: [u32; 3],
    pub sq_offs: SqOffset,
    pub cq_offs: CqOffset,
}

pub struct SqOffset {
    pub head: u32,
    pub tail: u32,
    pub ring_mask: u32,
    pub ring_entries: u32,
    pub flags: u32,
    pub dropped: u32,
    pub array: u32,
    pub resv1: u32,
    pub user_addr: u64,
}

pub struct CqOffset {
    pub head: u32,
    pub tail: u32,
    pub ring_mask: u32,
    pub ring_entries: u32,
    pub overflow: u32,
    pub cqes: u32,
    pub flags: u32,
    pub resv1: u32,
    pub user_addr: u64,
}

#[derive(Clone, Copy)]
pub struct CmdOp {
    pub cmd_op: u32,
    pub pad: u32,
}

#[derive(Clone, Copy)]
pub struct Idk1 {
    pub level: u32,
    pub optname: u32,
}

#[derive(Clone, Copy)]
pub struct IoAddr3 {
    pub addr3: u64,
    pub pad: u64,
}

#[derive(Clone, Copy)]
pub struct IoAddrLen {
    pub addr_len: u16,
    pub pad: u16,
}

/// The operation codes of io_uring submission entries.
#[allow(non_camel_case_types)]
#[derive(Clone, Copy)]
pub enum IouOpcode {
    IORING_OP_NOP,
    IORING_OP_READV,
    IORING_OP_WRITEV,
    IORING_OP_FSYNC,
    IORING_OP_READ_FIXED,
    IORING_OP_WRITE_FIXED,
    IORING_OP_POLL_ADD,
    IORING_OP_POLL_REMOVE,
    IORING_OP_SYNC_FILE_RANGE,
    IORING_OP_SENDMSG,
    IORING_OP_RECVMSG,
    IORING_OP_TIMEOUT,
    IORING_OP_TIMEOUT_REMOVE,
    IORING_OP_ACCEPT,
    IORING_OP_ASYNC_CANCEL,
    IORING_OP_LINK_TIMEOUT,
    IORING_OP_CONNECT,
    IORING_OP_FALLOCATE,
    IORING_OP_OPENAT,
    IORING_OP_CLOSE,
    IORING_OP_FILES_UPDATE,
    IORING_OP_STATX,
    IORING_OP_READ,
    IORING_OP_WRITE,
    IORING_OP_FADVISE,
    IORING_OP_MADVISE,
    IORING_OP_SEND,
    IORING_OP_RECV,
    IORING_OP_OPENAT2,
    IORING_OP_EPOLL_CTL,
    IORING_OP_SPLICE,
    IORING_OP_PROVIDE_BUFFERS,
    IORING_OP_REMOVE_BUFFERS,
    IORING_OP_TEE,
    IORING_OP_SHUTDOWN,
    IORING_OP_RENAMEAT,
    IORING_OP_UNLINKAT,
    IORING_OP_MKDIRAT,
    IORING_OP_SYMLINKAT,
    IORING_OP_LINKAT,
    IORING_OP_MSG_RING,
    IORING_OP_FSETXATTR,
    IORING_OP_SETXATTR,
    IORING_OP_FGETXATTR,
    IORING_OP_GETXATTR,
    IORING_OP_SOCKET,
    IORING_OP_URING_CMD,
    IORING_OP_SEND_ZC,
    IORING_OP_SENDMSG_ZC,
    IORING_OP_READ_MULTISHOT,
    IORING_OP_WAITID,
    IORING_OP_FUTEX_WAIT,
    IORING_OP_FUTEX_WAKE,
    IORING_OP_FUTEX_WAITV,
    IORING_OP_FIXED_FD_INSTALL,
    IORING_OP_FTRUNCATE,
    IORING_OP_BIND,
    IORING_OP_LISTEN,
    IORING_OP_RECV_ZC,

    IORING_OP_EPOLL_WAIT,
    IORING_OP_READV_FIXED,
    IORING_OP_WRITEV_FIXED,
    IORING_OP_PIPE,
    IORING_OP_NOP128,
    IORING_OP_URING_CMD128,

    IORING_OP_LAST,
}

/// A completion queue entry of an io_uring.
#[derive(Clone, Copy)]
pub struct IouCQEntry {
    pub user_data: u64,
    pub result: i32,
    pub flags: u32,
}

/// A completion that succeeded, or the completion and the error that its result encodes.
pub type IouCQResult = Result<IouCQEntry, (IouCQEntry, std::io::Error)>;

/// The error that the kernel's error number `code` stands for.
pub uninterp spec fn os_error(code: i32) -> std::io::Error;

/// `std::io::Error::from_raw_os_error`: the error value is a function of the code alone.
#[verifier::external_body]
fn error_from_os(code: i32) -> (e: std::io::Error)
    ensures
        e == os_error(code),
{
    std::io::Error::from_raw_os_error(code)
}

impl IouCQEntry {
    /// The entry itself when its result is not negative; else the entry with the error whose
    /// number is the negated result.
    pub fn as_result(self) -> (r: IouCQResult)
        requires
            self.result > i32::MIN,
        ensures
            self.result >= 0 ==> r == Ok::<IouCQEntry, (IouCQEntry, std::io::Error)>(self),
            self.result < 0 ==> r == Err::<IouCQEntry, (IouCQEntry, std::io::Error)>(
                (self, os_error((-self.result) as i32)),
            ),
    {
        if self.result < 0 {
            Err((self, error_from_os(-self.result)))
        } else {
            Ok(self)
        }
    }

    /// `Ok` when the result is not negative; else the error whose number is the negated result.
    pub fn get_result(&self) -> (r: std::io::Result<()>)
        requires
            self.result > i32::MIN,
        ensures
            self.result >= 0 ==> r == Ok::<(), std::io::Error>(()),
            self.result < 0 ==> r == Err::<(), std::io::Error>(os_error((-self.result) as i32)),
    {
        if self.result < 0 {
            Err(error_from_os(-self.result))
        } else {
            Ok(())
        }
    }
}

} // verus!
