//! The dynamic linker's list of loaded objects.

use vstd::prelude::*;

use crate::elf::{list_outcome_of, list_read, outcome_of};
use crate::error::{
    CopyFromProcessError, DebuggerRendezvousError, DebuggerRendezvousErrorView,
};

verus! {

/// Shared object loading information for the debugger
///
/// The Linux dynamic linker fills this info in the Dynamic section of the ELF headers at
/// runtime. It is known as the "debugger rendez-vous" point and is a legacy structure to assist
/// debuggers in locating loaded shared modules.
///
/// (But we're going to use it for minidump generation purposes.)
///
/// <https://sourceware.org/git/?p=glibc.git;a=blob;f=elf/link.h;h=b645760402514c4839686aaeade20dd5bb7725dd;hb=HEAD#l40>
#[derive(Debug, Clone, Copy, PartialEq, Eq, Structural)]
pub struct RDebug {
    /// Version number of the protocol
    pub r_version: i32,
    /// Address of the first link_map structure
    pub r_map: usize,
    /// Address of callback function for module map/unmap
    pub r_brk: usize,
    /// Argument to r_brk on whether mapping is being added, subtracted, or is done
    pub r_state: i32,
    /// Base address the linker is loaded at
    pub r_ldbase: usize,
}

/// Information for a single dynamically loaded module
///
/// This structure contains important information about a dynamically-loaded module, like its
/// name and virtual address. It is also a node in a doubly-linked list of such modules.
///
/// <https://sourceware.org/git/?p=glibc.git;a=blob;f=elf/link.h;h=b645760402514c4839686aaeade20dd5bb7725dd;hb=HEAD#l101>
#[derive(Debug, Clone, Copy, PartialEq, Eq, Structural)]
pub struct LinkMap {
    /// Difference between the addresses in the ELF file and the addresses in memory
    pub l_addr: usize,
    /// Name of file for module
    pub l_name: usize,
    /// Address of the Dynamic section
    pub l_ld: usize,
    /// Address of next node in list
    pub l_next: usize,
    /// Address of previous node in list
    pub l_prev: usize,
}

/// `RDebug::r_state`: the mapping change is complete, so the link map can be
/// trusted.
///
/// The linker moves `r_state` to `RT_ADD` (1) or `RT_DELETE` (2) before it
/// starts mutating the list and back to `RT_CONSISTENT` once it is done,
/// calling `r_brk` at each transition so that a debugger can observe them.
///
/// <https://sourceware.org/git/?p=glibc.git;a=blob;f=elf/link.h;h=b645760402514c4839686aaeade20dd5bb7725dd;hb=HEAD#l52>
pub const RT_CONSISTENT: i32 = 0;

/// What reading the debugger rendez-vous amounts to.
pub open spec fn rendezvous_outcome(
    read: Result<RDebug, CopyFromProcessError>,
    distrusted: bool,
) -> Result<RDebug, DebuggerRendezvousErrorView> {
    match read {
        Ok(rendezvous) => if rendezvous.r_version != 1 {
            Err(
                DebuggerRendezvousErrorView::UnexpectedDebuggerRendezvousVersion(
                    rendezvous.r_version,
                ),
            )
        } else if rendezvous.r_state != RT_CONSISTENT || distrusted {
            Err(DebuggerRendezvousErrorView::DebuggerRendezvousNotConsistent(rendezvous.r_state))
        } else {
            Ok(rendezvous)
        },
        Err(error) => Err(
            DebuggerRendezvousErrorView::ReadDebuggerRendezvousAddressFailed(error),
        ),
    }
}

/// Checks a debugger rendez-vous that was read.
///
/// `dlopen`/`dlclose` are exactly when the linker is rewriting the list, so
/// a crash taken during one can find it half-linked: an entry spliced in but
/// not yet filled, or unmapped but not yet unlinked. Walking that either
/// fails per-module -- which we would report as a soft error and carry on
/// from, quietly short an entry -- or, worse, succeeds and yields a module
/// list that is silently wrong.
///
/// Refusing here sends the caller to `/proc/<pid>/maps`, which the kernel
/// keeps consistent whatever the linker is in the middle of.
pub fn read_debugger_rendezvous(
    read: Result<RDebug, CopyFromProcessError>,
    distrusted: bool,
) -> (outcome: Result<RDebug, DebuggerRendezvousError>)
    ensures
        outcome_of(outcome) == rendezvous_outcome(read, distrusted),
{
    match read {
        Ok(rendezvous) => {
            if rendezvous.r_version != 1 {
                Err(
                    DebuggerRendezvousError::UnexpectedDebuggerRendezvousVersion(
                        rendezvous.r_version,
                    ),
                )
            } else if rendezvous.r_state != RT_CONSISTENT || distrusted {
                Err(DebuggerRendezvousError::DebuggerRendezvousNotConsistent(rendezvous.r_state))
            } else {
                Ok(rendezvous)
            }
        },
        Err(error) => Err(DebuggerRendezvousError::ReadDebuggerRendezvousAddressFailed(error)),
    }
}

/// What reading a null-terminated string amounts to: its bytes, without the
/// terminator.
pub open spec fn c_string_outcome(read: Result<Seq<u8>, CopyFromProcessError>) -> Result<
    Seq<u8>,
    DebuggerRendezvousErrorView,
> {
    match read {
        Ok(bytes) => if bytes.len() > 0 && bytes.last() == 0 {
            Ok(bytes.drop_last())
        } else {
            Ok(bytes)
        },
        Err(error) => Err(DebuggerRendezvousErrorView::ReadModuleNameFailed(error)),
    }
}

/// Takes a null-terminated string as it was read.
pub fn read_c_string(read: Result<Vec<u8>, CopyFromProcessError>) -> (outcome: Result<
    Vec<u8>,
    DebuggerRendezvousError,
>)
    ensures
        list_outcome_of(outcome) == c_string_outcome(list_read(read)),
{
    match read {
        Ok(bytes) => {
            let mut buf: Vec<u8> = bytes;
            let length: usize = buf.len();
            if length > 0 && buf[length - 1] == 0 {
                buf.truncate(length - 1);
                assert(buf@ =~= bytes@.drop_last());
            }
            Ok(buf)
        },
        Err(error) => Err(DebuggerRendezvousError::ReadModuleNameFailed(error)),
    }
}

/// Where in the linker's list a walk stands.
#[derive(Debug, Clone, Copy, PartialEq, Eq, Structural)]
pub struct LinkMaps {
    /// The node to read next, or zero at the end of the list.
    pub address: usize,
    /// Whether that node is the head of the list.
    pub first_node: bool,
}

/// What reading a node amounts to: the head of the list has no predecessor.
pub open spec fn link_outcome(
    read: Result<LinkMap, CopyFromProcessError>,
    first_node: bool,
) -> Result<LinkMap, DebuggerRendezvousErrorView> {
    match read {
        Ok(link) => if first_node && link.l_prev != 0 {
            Err(DebuggerRendezvousErrorView::InvalidLinkEntry)
        } else {
            Ok(link)
        },
        Err(error) => Err(DebuggerRendezvousErrorView::ReadLinkMapEntryFailed(error)),
    }
}

impl LinkMaps {
    /// Starts at the head of the list.
    pub fn new(first_address: usize) -> (links: LinkMaps)
        ensures
            links == (LinkMaps { address: first_address, first_node: true }),
    {
        LinkMaps { address: first_address, first_node: true }
    }

    /// Takes the node at the present address, which has to be read unless the
    /// list is at its end, and moves on to the next one.
    pub fn next(&mut self, read: Option<Result<LinkMap, CopyFromProcessError>>) -> (link: Result<
        Option<LinkMap>,
        DebuggerRendezvousError,
    >)
        requires
            old(self).address != 0 ==> read is Some,
        ensures
            old(self).address == 0 ==> link == Ok::<_, DebuggerRendezvousError>(None::<LinkMap>)
                && *final(self) == *old(self),
            old(self).address != 0 ==> match link_outcome(read->0, old(self).first_node) {
                Ok(node) => link == Ok::<_, DebuggerRendezvousError>(Some(node)) && *final(self)
                    == (LinkMaps { address: node.l_next, first_node: false }),
                Err(error) => link is Err && link->Err_0.view() == error && *final(self) == *old(
                    self,
                ),
            },
    {
        if self.address == 0 {
            return Ok(None);
        }
        let link: LinkMap = match read.unwrap() {
            Ok(link) => link,
            Err(error) => {
                return Err(DebuggerRendezvousError::ReadLinkMapEntryFailed(error));
            },
        };
        if self.first_node {
            if link.l_prev != 0 {
                return Err(DebuggerRendezvousError::InvalidLinkEntry);
            }
            self.first_node = false;
        }
        self.address = link.l_next;
        Ok(Some(link))
    }
}

} // verus!
