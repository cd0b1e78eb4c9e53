//! The parts of the ELF format that tell where an object was loaded.

use vstd::prelude::*;

use crate::error::{
    CopyFromProcessError, DebuggerRendezvousError, DebuggerRendezvousErrorView,
};

verus! {

/// Program header: a loadable segment.
pub const PT_LOAD: u32 = 1;

/// Program header: the dynamic section.
pub const PT_DYNAMIC: u32 = 2;

/// Program header: the program header table itself.
pub const PT_PHDR: u32 = 6;

/// Program header flag: the segment is executable.
pub const PF_X: u32 = 1;

/// ELF type: a shared object, or an executable that can be loaded anywhere.
pub const ET_DYN: u16 = 3;

/// Dynamic entry: address of the debugger rendez-vous.
pub const DT_DEBUG: u64 = 21;

/// Dynamic entry: Android's packed `REL` relocations.
pub const DT_ANDROID_REL: u64 = 0x6000_000f;

/// Dynamic entry: Android's packed `RELA` relocations.
pub const DT_ANDROID_RELA: u64 = 0x6000_0011;

/// What of an ELF header tells where the object's program headers are.
#[derive(Debug, Clone, Copy, PartialEq, Eq)]
pub struct ElfHeader {
    pub e_ident: [u8; 16],
    pub e_type: u16,
    pub e_phoff: usize,
    pub e_phnum: u16,
}

/// What of a program header tells where its segment was loaded.
#[derive(Debug, Clone, Copy, PartialEq, Eq, Structural)]
pub struct ProgramHeader {
    pub p_type: u32,
    pub p_flags: u32,
    pub p_offset: usize,
    pub p_vaddr: usize,
    pub p_memsz: usize,
}

/// An entry of a dynamic section.
#[derive(Debug, Clone, Copy, PartialEq, Eq, Structural)]
pub struct Dyn {
    pub d_tag: u64,
    pub d_val: usize,
}

/// The bytes that every ELF object starts with.
pub open spec fn elf_magic() -> Seq<u8> {
    seq![0x7fu8, 0x45u8, 0x4cu8, 0x46u8]
}

/// What a result stands for whose error is one of the rendez-vous.
pub open spec fn outcome_of<T>(result: Result<T, DebuggerRendezvousError>) -> Result<
    T,
    DebuggerRendezvousErrorView,
> {
    match result {
        Ok(value) => Ok(value),
        Err(error) => Err(error.view()),
    }
}

/// What reading a list amounts to.
pub open spec fn list_outcome_of<T>(result: Result<Vec<T>, DebuggerRendezvousError>) -> Result<
    Seq<T>,
    DebuggerRendezvousErrorView,
> {
    match result {
        Ok(list) => Ok(list@),
        Err(error) => Err(error.view()),
    }
}

/// What was read of a list.
pub open spec fn list_read<T>(read: Result<Vec<T>, CopyFromProcessError>) -> Result<
    Seq<T>,
    CopyFromProcessError,
> {
    match read {
        Ok(list) => Ok(list@),
        Err(error) => Err(error),
    }
}

/// What reading a program header table amounts to.
pub open spec fn program_headers_outcome(
    read: Result<Seq<ProgramHeader>, CopyFromProcessError>,
) -> Result<Seq<ProgramHeader>, DebuggerRendezvousErrorView> {
    match read {
        Ok(headers) => Ok(headers),
        Err(error) => Err(DebuggerRendezvousErrorView::ReadProgramHeaderTableFailed(error)),
    }
}

/// Takes a program header table as it was read.
pub fn read_program_headers(
    read: Result<Vec<ProgramHeader>, CopyFromProcessError>,
) -> (outcome: Result<Vec<ProgramHeader>, DebuggerRendezvousError>)
    ensures
        list_outcome_of(outcome) == program_headers_outcome(list_read(read)),
{
    match read {
        Ok(headers) => Ok(headers),
        Err(error) => Err(DebuggerRendezvousError::ReadProgramHeaderTableFailed(error)),
    }
}

/// The virtual address and in-memory size of the first segment of the given
/// type, if there is one.
pub open spec fn segment_of_type(headers: Seq<ProgramHeader>, segment_type: u32) -> Option<
    (usize, usize),
>
    decreases headers.len(),
{
    if headers.len() == 0 {
        None
    } else if headers[0].p_type == segment_type {
        Some((headers[0].p_vaddr, headers[0].p_memsz))
    } else {
        segment_of_type(headers.drop_first(), segment_type)
    }
}

/// Returns the virtual address and in-memory size of the first segment of the
/// given type, if the program header table has one.
pub fn find_segment(program_headers: &[ProgramHeader], segment_type: u32) -> (segment: Option<
    (usize, usize),
>)
    ensures
        segment == segment_of_type(program_headers@, segment_type),
{
    assert(program_headers@.skip(0) =~= program_headers@);
    for i in 0..program_headers.len()
        invariant
            segment_of_type(program_headers@, segment_type) == segment_of_type(
                program_headers@.skip(i as int),
                segment_type,
            ),
    {
        assert(program_headers@.skip(i as int).drop_first() =~= program_headers@.skip(i + 1));
        if program_headers[i].p_type == segment_type {
            return Some((program_headers[i].p_vaddr, program_headers[i].p_memsz));
        }
    }
    None
}

/// What reading an ELF header amounts to: it has to start with the magic bytes.
pub open spec fn elf_header_outcome(read: Result<ElfHeader, CopyFromProcessError>) -> Result<
    ElfHeader,
    DebuggerRendezvousErrorView,
> {
    match read {
        Ok(header) => if header.e_ident@.take(4) == elf_magic() {
            Ok(header)
        } else {
            Err(DebuggerRendezvousErrorView::InvalidElfSignature(header.e_ident@.take(4)))
        },
        Err(error) => Err(DebuggerRendezvousErrorView::ReadElfHeaderFailed(error)),
    }
}

/// Checks an ELF header that was read.
pub fn read_elf_header(read: Result<ElfHeader, CopyFromProcessError>) -> (outcome: Result<
    ElfHeader,
    DebuggerRendezvousError,
>)
    ensures
        outcome_of(outcome) == elf_header_outcome(read),
{
    let elf_header: ElfHeader = match read {
        Ok(header) => header,
        Err(error) => {
            return Err(DebuggerRendezvousError::ReadElfHeaderFailed(error));
        },
    };
    let signature: [u8; 4] = [
        elf_header.e_ident[0],
        elf_header.e_ident[1],
        elf_header.e_ident[2],
        elf_header.e_ident[3],
    ];
    assert(signature@ =~= elf_header.e_ident@.take(4));
    if signature[0] == 0x7f && signature[1] == 0x45 && signature[2] == 0x4c && signature[3]
        == 0x46 {
        assert(signature@ =~= elf_magic());
        Ok(elf_header)
    } else {
        assert(signature@ != elf_magic());
        Err(DebuggerRendezvousError::InvalidElfSignature(signature))
    }
}

/// How many bytes an entry of a dynamic section takes: two addresses.
pub open spec fn dyn_size() -> int {
    usize::BITS as int / 4
}

/// How many entries a dynamic section of `size` bytes has.
pub open spec fn dynamic_entries(size: usize) -> Result<usize, DebuggerRendezvousErrorView> {
    if size as int % dyn_size() == 0 {
        Ok((size as int / dyn_size()) as usize)
    } else {
        Err(DebuggerRendezvousErrorView::InvalidDynamicSectionSize(size))
    }
}

/// How many entries to read of a dynamic section of `dynamic_segment_size`
/// bytes.
pub fn dynamic_entry_count(dynamic_segment_size: usize) -> (count: Result<
    usize,
    DebuggerRendezvousError,
>)
    ensures
        outcome_of(count) == dynamic_entries(dynamic_segment_size),
{
    // Check that the dynamic section size is a multiple of the size of a dynamic entry
    let entry_size: usize = (usize::BITS / 4) as usize;
    if dynamic_segment_size % entry_size != 0 {
        return Err(DebuggerRendezvousError::InvalidDynamicSectionSize(dynamic_segment_size));
    }
    Ok(dynamic_segment_size / entry_size)
}

/// What reading a dynamic section amounts to: its last entry has to be null.
pub open spec fn dynamic_section_outcome(
    read: Result<Seq<Dyn>, CopyFromProcessError>,
) -> Result<Seq<Dyn>, DebuggerRendezvousErrorView> {
    match read {
        Ok(section) => if section.len() > 0 && section.last() == (Dyn { d_tag: 0, d_val: 0 }) {
            Ok(section)
        } else {
            Err(DebuggerRendezvousErrorView::DynamicSectionMissingTerminator)
        },
        Err(error) => Err(DebuggerRendezvousErrorView::ReadDynamicSectionFailed(error)),
    }
}

/// Checks a dynamic section that was read.
pub fn read_dynamic_section(read: Result<Vec<Dyn>, CopyFromProcessError>) -> (outcome: Result<
    Vec<Dyn>,
    DebuggerRendezvousError,
>)
    ensures
        list_outcome_of(outcome) == dynamic_section_outcome(list_read(read)),
{
    match read {
        Ok(section) => {
            let length: usize = section.len();
            if length > 0 && section[length - 1].d_tag == 0 && section[length - 1].d_val == 0 {
                Ok(section)
            } else {
                Err(DebuggerRendezvousError::DynamicSectionMissingTerminator)
            }
        },
        Err(error) => Err(DebuggerRendezvousError::ReadDynamicSectionFailed(error)),
    }
}

/// Value of the first `DT_DEBUG` entry.
pub open spec fn debug_entry(section: Seq<Dyn>) -> Result<usize, DebuggerRendezvousErrorView>
    decreases section.len(),
{
    if section.len() == 0 {
        Err(DebuggerRendezvousErrorView::MissingDebugEntry)
    } else if section[0].d_tag == DT_DEBUG {
        Ok(section[0].d_val)
    } else {
        debug_entry(section.drop_first())
    }
}

/// Where the dynamic section says that the debugger rendez-vous is.
pub fn get_rendezvous_address(dynamic_section: &[Dyn]) -> (address: Result<
    usize,
    DebuggerRendezvousError,
>)
    ensures
        outcome_of(address) == debug_entry(dynamic_section@),
{
    assert(dynamic_section@.skip(0) =~= dynamic_section@);
    for i in 0..dynamic_section.len()
        invariant
            debug_entry(dynamic_section@) == debug_entry(dynamic_section@.skip(i as int)),
    {
        assert(dynamic_section@.skip(i as int).drop_first() =~= dynamic_section@.skip(i + 1));
        if dynamic_section[i].d_tag == DT_DEBUG {
            return Ok(dynamic_section[i].d_val);
        }
    }
    Err(DebuggerRendezvousError::MissingDebugEntry)
}

/// Whether a dynamic section carries one of Android's packed relocation tags.
pub open spec fn packs_relocations(section: Seq<Dyn>) -> bool {
    exists|i: int|
        0 <= i < section.len() && ((#[trigger] section[i]).d_tag == DT_ANDROID_REL
            || section[i].d_tag == DT_ANDROID_RELA)
}

/// Whether a dynamic section that was read carries Android's packed relocation
/// tags. One that could not be read, or has no end, does not.
pub open spec fn packs_relocations_outcome(
    read: Result<Seq<Dyn>, CopyFromProcessError>,
) -> bool {
    match dynamic_section_outcome(read) {
        Ok(section) => packs_relocations(section),
        Err(_) => false,
    }
}

/// Whether the object carries Android's packed relocation tags.
pub fn has_packed_relocations(read: Result<Vec<Dyn>, CopyFromProcessError>) -> (packed: bool)
    ensures
        packed == packs_relocations_outcome(list_read(read)),
{
    let dynamic_section: Vec<Dyn> = match read_dynamic_section(read) {
        Ok(section) => section,
        Err(_) => {
            return false;
        },
    };
    for i in 0..dynamic_section.len()
        invariant
            forall|j: int|
                0 <= j < i ==> (#[trigger] dynamic_section@[j]).d_tag != DT_ANDROID_REL
                    && dynamic_section@[j].d_tag != DT_ANDROID_RELA,
            packs_relocations_outcome(list_read(read)) == packs_relocations(dynamic_section@),
    {
        let tag: u64 = dynamic_section[i].d_tag;
        if tag == DT_ANDROID_REL || tag == DT_ANDROID_RELA {
            assert(dynamic_section@[i as int].d_tag == tag);
            return true;
        }
    }
    false
}

} // verus!
