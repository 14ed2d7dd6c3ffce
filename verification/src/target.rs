//! The client memory that one read delivers into, and whose fault a refusal is.
//!
//! A descriptor that this node cannot honour degrades to a read with a body: that is the
//! node's limitation. One that is malformed, or names memory that cannot back it, is the
//! client's mistake and is told so.

use vstd::prelude::*;

use crate::answer::{failure, ErrorCode, Failure};
use crate::text::{decimal, push_decimal, push_text};

verus! {

/// Why a target was refused.
#[derive(Clone, Copy, Debug, PartialEq, Eq, Structural)]
pub enum RejectionKind {
    /// The descriptor does not parse.
    Malformed,
    /// It names memory that cannot back the request.
    Unusable,
    /// Honouring it would pin more memory than this node may.
    Quota,
    /// This node has no way to write into such memory.
    Unsupported,
}

impl RejectionKind {
    /// Whether the request is served with a body in place of being refused.
    pub open spec fn degrades(&self) -> bool {
        self is Quota || self is Unsupported
    }

    /// Whether the request is served with a body in place of being refused.
    pub fn is_degradable(&self) -> (r: bool)
        ensures
            r == self.degrades(),
    {
        matches!(self, RejectionKind::Quota | RejectionKind::Unsupported)
    }
}

/// A refused target, with the text that says why.
#[derive(Debug)]
pub struct TargetRejection {
    /// The kind of the refusal.
    pub kind: RejectionKind,
    /// What is wrong, in words.
    pub text: String,
}

/// What becomes of a request whose target was refused: `Ok` where its body is served, and
/// otherwise the client's error, with `told` as its message.
pub fn target_rejected(kind: RejectionKind, told: &str) -> (r: Result<(), Failure>)
    ensures
        r is Ok <==> kind.degrades(),
        r is Ok <==> kind is Quota || kind is Unsupported,
        r matches Err(f) ==> f.code is InvalidRequest && f.message@ == told@,
{
    if kind.is_degradable() {
        Ok(())
    } else {
        Err(failure(ErrorCode::InvalidRequest, told))
    }
}

/// The client memory of a request, in one of two registration models.
#[derive(Clone, Copy, Debug, PartialEq, Eq, Structural)]
pub enum ClientMemory {
    /// This node holds the memory: it can be copied into and read back.
    Mapped {
        /// The window's length in bytes.
        len: usize,
    },
    /// The client registered the memory: it can be written into, and nothing else.
    Token {
        /// The window's length in bytes.
        len: usize,
        /// Whether the client wants its delivery verified.
        checksum: bool,
    },
}

impl ClientMemory {
    /// How many bytes the window holds.
    pub open spec fn room(&self) -> nat {
        match *self {
            ClientMemory::Mapped { len } => len as nat,
            ClientMemory::Token { len, checksum } => len as nat,
        }
    }

    /// How many bytes the window holds.
    pub fn window_len(&self) -> (n: usize)
        ensures
            n == self.room(),
    {
        match *self {
            ClientMemory::Mapped { len } => len,
            ClientMemory::Token { len, .. } => len,
        }
    }

    /// Whether this node can read the window back.
    pub fn is_mapped(&self) -> (r: bool)
        ensures
            r <==> self is Mapped,
    {
        matches!(self, ClientMemory::Mapped { .. })
    }
}

/// A window has room for the bytes that it was opened with, in either model.
pub proof fn a_window_has_its_own_room(len: usize, checksum: bool)
    ensures
        (ClientMemory::Mapped { len }).room() == len,
        (ClientMemory::Token { len, checksum }).room() == len,
{
}

/// A request is turned down for what the client got wrong, and is served with a body for what
/// this node cannot do.
pub proof fn whose_fault_a_refusal_is(kind: RejectionKind)
    ensures
        kind is Malformed || kind is Unusable ==> !kind.degrades(),
        kind is Quota || kind is Unsupported ==> kind.degrades(),
{
}

/// Whose memory a descriptor names.
#[derive(Clone, Copy, Debug, PartialEq, Eq, Structural)]
pub enum TargetMemory {
    /// A shared segment, which this node maps.
    Shm,
    /// Memory that the client registered on its own network card.
    Nic,
}

/// How the memory of a request is come by.
#[derive(Clone, Copy, Debug, PartialEq, Eq, Structural)]
pub enum OpenStep {
    /// By mapping the segment, which may fail for reasons of its own.
    MapSegment,
    /// It is named, and that is all.
    Ready(ClientMemory),
}

/// Open the memory that a descriptor names, of `len` bytes. A segment has to be mapped.
/// Client-registered memory is only named: it is refused where this node was built without the
/// plane that writes it, or cannot count its bytes. Whether the plane is up is not asked here.
pub fn open_client_memory(memory: TargetMemory, len: u64, checksum: bool, built_rdma: bool) -> (r:
    Result<OpenStep, TargetRejection>)
    ensures
        memory is Shm ==> r == Ok::<OpenStep, TargetRejection>(OpenStep::MapSegment),
        memory is Nic && !built_rdma ==> (r matches Err(e) && e.kind is Unsupported && e.text@
            == "client-registered memory (this daemon was built without the RDMA plane)"@),
        memory is Nic && built_rdma && len > usize::MAX ==> (r matches Err(e) && e.kind is Malformed
            && e.text@ == "len "@ + decimal(len as nat) + " exceeds this platform"@),
        memory is Nic && built_rdma && len <= usize::MAX ==> r == Ok::<
            OpenStep,
            TargetRejection,
        >(OpenStep::Ready(ClientMemory::Token { len: len as usize, checksum })),
{
    match memory {
        TargetMemory::Shm => Ok(OpenStep::MapSegment),
        TargetMemory::Nic => {
            if !built_rdma {
                Err(
                    TargetRejection {
                        kind: RejectionKind::Unsupported,
                        text:
                            "client-registered memory (this daemon was built without the RDMA plane)".to_owned(),
                    },
                )
            } else if len > usize::MAX as u64 {
                let mut text = String::new();
                push_text(&mut text, "len ");
                push_decimal(&mut text, len);
                push_text(&mut text, " exceeds this platform");
                assert(text@ =~= "len "@ + decimal(len as nat) + " exceeds this platform"@);
                Err(TargetRejection { kind: RejectionKind::Malformed, text })
            } else {
                Ok(OpenStep::Ready(ClientMemory::Token { len: len as usize, checksum }))
            }
        },
    }
}

/// Whether the window holds the requested bytes. One that does not is the client's
/// mistake.
pub fn window_fits(memory: &ClientMemory, start: u64, end: u64) -> (r: Result<(), TargetRejection>)
    requires
        start <= end,
    ensures
        r is Ok <==> end - start <= memory.room(),
        r matches Err(e) ==> e.kind is Unusable && e.text@ == "window is "@ + decimal(memory.room())
            + " B, too small for the "@ + decimal((end - start) as nat) + " B requested"@,
{
    let want: u64 = end - start;
    let room: u64 = memory.window_len() as u64;
    if want <= room {
        return Ok(());
    }
    let mut text = String::new();
    push_text(&mut text, "window is ");
    push_decimal(&mut text, room);
    push_text(&mut text, " B, too small for the ");
    push_decimal(&mut text, want);
    push_text(&mut text, " B requested");
    assert(text@ =~= "window is "@ + decimal(memory.room()) + " B, too small for the "@ + decimal(
        (end - start) as nat,
    ) + " B requested"@);
    Err(TargetRejection { kind: RejectionKind::Unusable, text })
}

/// The refusal of a target that no path of this node reaches at the moment.
pub fn unreachable_target() -> (r: TargetRejection)
    ensures
        r.kind is Unsupported,
        r.text@ == "client-registered memory (no usable RDMA path to it right now)"@,
{
    TargetRejection {
        kind: RejectionKind::Unsupported,
        text: "client-registered memory (no usable RDMA path to it right now)".to_owned(),
    }
}

} // verus!
