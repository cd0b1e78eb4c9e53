//! The parts of the ELF format that the module list goes by.

use module_list::elf::{
    dynamic_entry_count, find_segment, get_rendezvous_address, has_packed_relocations,
    read_dynamic_section, read_elf_header, read_program_headers, Dyn, ElfHeader, ProgramHeader,
    DT_ANDROID_REL, DT_ANDROID_RELA, DT_DEBUG, ET_DYN, PF_X, PT_DYNAMIC, PT_LOAD, PT_PHDR,
};
use module_list::error::{CopyFromProcessError, DebuggerRendezvousError};

const FAULT: CopyFromProcessError = CopyFromProcessError { address: 8, length: 16, errno: 14 };

fn header(e_ident: [u8; 16]) -> ElfHeader {
    ElfHeader { e_ident, e_type: 3, e_phoff: 64, e_phnum: 9 }
}

fn segment(p_type: u32, p_vaddr: usize, p_memsz: usize) -> ProgramHeader {
    ProgramHeader { p_type, p_flags: 0, p_offset: 0, p_vaddr, p_memsz }
}

fn entry(d_tag: u64, d_val: usize) -> Dyn {
    Dyn { d_tag, d_val }
}

#[test]
fn constants_are_those_of_the_format() {
    assert_eq!(PT_LOAD, goblin::elf64::program_header::PT_LOAD);
    assert_eq!(PT_DYNAMIC, goblin::elf64::program_header::PT_DYNAMIC);
    assert_eq!(PT_PHDR, goblin::elf64::program_header::PT_PHDR);
    assert_eq!(PF_X, goblin::elf64::program_header::PF_X);
    assert_eq!(ET_DYN, goblin::elf64::header::ET_DYN);
    assert_eq!(DT_DEBUG, goblin::elf64::dynamic::DT_DEBUG);
    assert_eq!(DT_ANDROID_REL, goblin::elf64::dynamic::DT_LOOS + 2);
    assert_eq!(DT_ANDROID_RELA, goblin::elf64::dynamic::DT_LOOS + 4);
}

#[test]
fn dynamic_entries_have_the_size_of_the_format() {
    let size = if usize::BITS == 64 {
        std::mem::size_of::<goblin::elf64::dynamic::Dyn>()
    } else {
        std::mem::size_of::<goblin::elf32::dynamic::Dyn>()
    };
    assert_eq!(dynamic_entry_count(0), Ok(0));
    assert_eq!(dynamic_entry_count(size), Ok(1));
    assert_eq!(dynamic_entry_count(31 * size), Ok(31));
    assert_eq!(
        dynamic_entry_count(size + 1),
        Err(DebuggerRendezvousError::InvalidDynamicSectionSize(size + 1))
    );
    assert_eq!(
        dynamic_entry_count(size - 1),
        Err(DebuggerRendezvousError::InvalidDynamicSectionSize(size - 1))
    );
}

#[test]
fn headers_have_to_start_with_the_magic_bytes() {
    let mut e_ident = [0u8; 16];
    e_ident[..4].copy_from_slice(goblin::elf64::header::ELFMAG);
    assert_eq!(read_elf_header(Ok(header(e_ident))), Ok(header(e_ident)));
    for i in 0..4 {
        let mut broken = e_ident;
        broken[i] ^= 1;
        let signature = [broken[0], broken[1], broken[2], broken[3]];
        assert_eq!(
            read_elf_header(Ok(header(broken))),
            Err(DebuggerRendezvousError::InvalidElfSignature(signature))
        );
    }
    let mut other = e_ident;
    other[4] = 0xff;
    assert_eq!(read_elf_header(Ok(header(other))), Ok(header(other)));
    assert_eq!(
        read_elf_header(Err(FAULT)),
        Err(DebuggerRendezvousError::ReadElfHeaderFailed(FAULT))
    );
}

#[test]
fn the_first_segment_of_a_type_is_found() {
    let headers = [
        segment(PT_LOAD, 1, 2),
        segment(PT_DYNAMIC, 3, 4),
        segment(PT_LOAD, 5, 6),
        segment(PT_DYNAMIC, 7, 8),
    ];
    assert_eq!(find_segment(&headers, PT_LOAD), Some((1, 2)));
    assert_eq!(find_segment(&headers, PT_DYNAMIC), Some((3, 4)));
    assert_eq!(find_segment(&headers, PT_PHDR), None);
    assert_eq!(find_segment(&[], PT_LOAD), None);
}

#[test]
fn program_headers_are_taken_as_read() {
    let headers = vec![segment(PT_LOAD, 1, 2)];
    assert_eq!(read_program_headers(Ok(headers.clone())), Ok(headers));
    assert_eq!(
        read_program_headers(Err(FAULT)),
        Err(DebuggerRendezvousError::ReadProgramHeaderTableFailed(FAULT))
    );
}

#[test]
fn dynamic_sections_have_to_end_in_a_null_entry() {
    let section = vec![entry(DT_DEBUG, 5), entry(0, 0)];
    assert_eq!(read_dynamic_section(Ok(section.clone())), Ok(section));
    for broken in [vec![], vec![entry(0, 1)], vec![entry(1, 0)], vec![entry(0, 0), entry(1, 1)]] {
        assert_eq!(
            read_dynamic_section(Ok(broken)),
            Err(DebuggerRendezvousError::DynamicSectionMissingTerminator)
        );
    }
    assert_eq!(
        read_dynamic_section(Err(FAULT)),
        Err(DebuggerRendezvousError::ReadDynamicSectionFailed(FAULT))
    );
}

#[test]
fn the_first_debug_entry_is_the_rendezvous() {
    let section = [entry(1, 1), entry(DT_DEBUG, 5), entry(DT_DEBUG, 6), entry(0, 0)];
    assert_eq!(get_rendezvous_address(&section), Ok(5));
    assert_eq!(
        get_rendezvous_address(&[entry(1, 1)]),
        Err(DebuggerRendezvousError::MissingDebugEntry)
    );
}

#[test]
fn packed_relocations_are_told_by_their_tags() {
    assert!(has_packed_relocations(Ok(vec![entry(DT_ANDROID_REL, 5), entry(0, 0)])));
    assert!(has_packed_relocations(Ok(vec![
        entry(1, 1),
        entry(DT_ANDROID_RELA, 5),
        entry(0, 0)
    ])));
    assert!(!has_packed_relocations(Ok(vec![entry(DT_DEBUG, 5), entry(0, 0)])));
    assert!(!has_packed_relocations(Ok(vec![entry(DT_ANDROID_REL, 5)])));
    assert!(!has_packed_relocations(Err(FAULT)));
}
