//! The module list of a scripted process, as its debugger rendez-vous tells it.

use module_list::elf::{
    Dyn, ElfHeader, ProgramHeader, DT_ANDROID_REL, DT_DEBUG, ET_DYN, PF_X, PT_DYNAMIC, PT_LOAD,
    PT_PHDR,
};
use module_list::error::{CopyFromProcessError, DebuggerRendezvousError};
use module_list::link_map::{read_c_string, LinkMap, LinkMaps, RDebug};
use module_list::link_walk::Listing;
use module_list::mapping::MappingInfo;
use module_list::module::{from_mappings, ModuleCandidate, ModuleInfo};
use module_list::module_read::{base_address, read_module, ModuleExtent, ModuleProgress};
use module_list::path::file_name;
use module_list::process::{Reply, Request};
use module_list::rendezvous::{from_debugger_rendezvous, RendezvousWalk};
use module_list::resolve::{can_resolve, resolve};
use module_list::segment::{check_segments_fit, module_span};
use std::collections::HashMap;

const PAGE: usize = 0x1000;
const DYN_SIZE: usize = 2 * std::mem::size_of::<usize>();
const TABLE: usize = 0x1_0040;
const ET_EXEC: u16 = 2;

#[derive(Default)]
struct Process {
    program_headers: HashMap<usize, Vec<ProgramHeader>>,
    elf_headers: HashMap<usize, ElfHeader>,
    dynamic_sections: HashMap<usize, Vec<Dyn>>,
    rendezvous: HashMap<usize, RDebug>,
    links: HashMap<usize, LinkMap>,
    names: HashMap<usize, Vec<u8>>,
    executable: Option<Vec<u8>>,
    distrusted: bool,
}

fn fault(address: usize) -> CopyFromProcessError {
    CopyFromProcessError { address, length: 0, errno: 14 }
}

fn found<T: Clone>(map: &HashMap<usize, T>, address: usize) -> Result<T, CopyFromProcessError> {
    map.get(&address).cloned().ok_or(fault(address))
}

fn counted<T: Clone>(
    map: &HashMap<usize, Vec<T>>,
    address: usize,
    count: usize,
) -> Result<Vec<T>, CopyFromProcessError> {
    let list = found(map, address)?;
    assert_eq!(list.len(), count, "as many as there are");
    Ok(list)
}

impl Process {
    fn answer(&self, request: Request) -> Reply {
        match request {
            Request::ProgramHeaders { address, count } => {
                Reply::ProgramHeaders(counted(&self.program_headers, address, count))
            }
            Request::ElfHeader { address } => Reply::ElfHeader(found(&self.elf_headers, address)),
            Request::DynamicSection { address, count } => {
                Reply::DynamicSection(counted(&self.dynamic_sections, address, count))
            }
            Request::DebuggerRendezvous { address } => {
                Reply::DebuggerRendezvous(found(&self.rendezvous, address), self.distrusted)
            }
            Request::LinkMap { address } => Reply::LinkMap(found(&self.links, address)),
            Request::ModuleName { address } => Reply::ModuleName(found(&self.names, address)),
            Request::ExecutableName => Reply::ExecutableName(self.executable.clone()),
        }
    }

    /// The walk over this process's list, and all that it asked for.
    fn walk(&self) -> (Listing, Vec<Request>) {
        let mut walk = from_debugger_rendezvous(TABLE, self.program_headers[&TABLE].len(), PAGE);
        let mut requests = Vec::new();
        while let Some(request) = walk.request() {
            requests.push(request);
            let reply = self.answer(request);
            assert!(walk.fits(&reply));
            walk = walk.step(reply);
        }
        (walk.finish(), requests)
    }

    fn candidates(&self) -> Vec<ModuleCandidate> {
        let (listing, _) = self.walk();
        assert!(listing.soft_errors.is_empty());
        listing.result.unwrap()
    }

    fn modules(&self) -> Vec<ModuleInfo> {
        let candidates = self.candidates();
        assert!(can_resolve(&candidates));
        resolve(candidates, Some(0x1_1100), &mut Vec::new())
    }

    fn error(&self) -> DebuggerRendezvousError {
        let (listing, _) = self.walk();
        listing.result.unwrap_err()
    }

    fn object(&mut self, address: usize, e_type: u16, headers: Vec<ProgramHeader>) {
        self.elf_headers.insert(address, elf_header(e_type, 0x40, headers.len()));
        self.program_headers.insert(address + 0x40, headers);
    }

    fn link(&mut self, at: usize, l_addr: usize, name: &str, l_next: usize, l_prev: usize) {
        self.names.insert(at + 0x80, [name.as_bytes(), b"\0"].concat());
        self.links.insert(at, LinkMap { l_addr, l_name: at + 0x80, l_ld: 0, l_next, l_prev });
    }
}

fn elf_header(e_type: u16, e_phoff: usize, count: usize) -> ElfHeader {
    let mut e_ident = [0u8; 16];
    e_ident[..4].copy_from_slice(b"\x7fELF");
    ElfHeader { e_ident, e_type, e_phoff, e_phnum: count as u16 }
}

fn header(p_type: u32, p_flags: u32, p_offset: usize, p_vaddr: usize, p_memsz: usize) -> ProgramHeader {
    ProgramHeader { p_type, p_flags, p_offset, p_vaddr, p_memsz }
}

fn load(p_flags: u32, p_offset: usize, p_vaddr: usize, p_memsz: usize) -> ProgramHeader {
    header(PT_LOAD, p_flags, p_offset, p_vaddr, p_memsz)
}

/// A program, a C library, and a dynamic linker with the vDSO in the hole between
/// its segments.
fn process() -> Process {
    let mut process = Process::default();
    process.object(
        0x1_0000,
        ET_DYN,
        vec![
            header(PT_PHDR, 4, 0x40, 0x40, 0x1c0),
            load(6, 0x2010, 0x3010, 0x234),
            load(4, 0, 0, 0x900),
            load(4 | PF_X, 0x1000, 0x1000, 0x801),
            header(PT_DYNAMIC, 6, 0x3020, 0x3020, 2 * DYN_SIZE),
        ],
    );
    process.dynamic_sections.insert(
        0x1_3020,
        vec![Dyn { d_tag: DT_DEBUG, d_val: 0x5_0000 }, Dyn { d_tag: 0, d_val: 0 }],
    );
    process.rendezvous.insert(
        0x5_0000,
        RDebug { r_version: 1, r_map: 0x6_0000, r_brk: 0, r_state: 0, r_ldbase: 0x4_0000 },
    );
    process.object(0x2_0000, ET_DYN, vec![load(4 | PF_X, 0, 0, 0x5000)]);
    process.object(
        0x4_0000,
        ET_DYN,
        vec![load(4 | PF_X, 0, 0, 0x2000), load(6, 0x2000, 0x6000, 0x2000)],
    );
    process.object(0x4_3000, ET_DYN, vec![load(4 | PF_X, 0, 0, 0x800)]);
    process.link(0x6_0000, 0x1_0000, "", 0x6_0100, 0);
    process.link(0x6_0100, 0x4_3000, "linux-vdso.so.1", 0x6_0200, 0x6_0000);
    process.link(0x6_0200, 0x2_0000, "/lib/libc.so.6", 0x6_0300, 0x6_0100);
    process.link(0x6_0300, 0x4_0000, "/lib/ld-linux.so.2", 0, 0x6_0200);
    process.executable = Some(b"/target/debug/test".to_vec());
    process
}

fn proc_maps() -> Vec<MappingInfo> {
    let mapping = |name: &str, start_address: usize, size: usize| MappingInfo {
        start_address,
        size,
        offset: 0,
        name: Some(name.as_bytes().to_vec()),
        executable: true,
        path_named: name.starts_with('/'),
        interesting: true,
        load_base: None,
    };
    vec![
        mapping("/target/debug/test", 0x1_0000, 0x2000),
        mapping("/target/debug/test", 0x1_3000, 0x1000),
        mapping("/lib/libc.so.6", 0x2_0000, 0x5000),
        mapping("/lib/ld-linux.so.2", 0x4_0000, 0x2000),
        mapping("linux-gate.so", 0x4_3000, 0x1000),
    ]
}

fn names(modules: &[ModuleInfo]) -> Vec<String> {
    modules
        .iter()
        .map(|module| String::from_utf8(module.name.clone().unwrap_or_default()).unwrap())
        .collect()
}

fn assert_module_list_is_sane(modules: &[String]) {
    assert!(!modules.is_empty(), "empty module list");
    assert!(modules[0].contains("test"), "first module should be the executable: {modules:?}");
    assert!(
        modules.iter().any(|name| name.contains("libc")),
        "no libc in the module list: {modules:?}"
    );
}

fn extent(candidate: &ModuleCandidate) -> (usize, usize, usize, usize) {
    (candidate.base_address, candidate.end_address, candidate.code_end, candidate.file_offset)
}

#[test]
fn module_list_from_debugger_rendezvous() {
    assert_module_list_is_sane(&names(&process().modules()));
}

/// Nothing but the process's memory is asked for, and the name of its executable.
#[test]
fn module_list_from_debugger_rendezvous_without_proc_maps() {
    let (listing, requests) = process().walk();
    let modules = resolve(listing.result.unwrap(), None, &mut Vec::new());
    let names = names(&modules);
    assert!(!names.is_empty(), "empty module list");
    assert!(
        names.iter().any(|name| name.contains("libc")),
        "no libc in the module list: {names:?}"
    );
    assert_eq!(
        requests[..9],
        [
            Request::ProgramHeaders { address: TABLE, count: 5 },
            Request::ElfHeader { address: 0x1_0000 },
            Request::DynamicSection { address: 0x1_3020, count: 2 },
            Request::DebuggerRendezvous { address: 0x5_0000 },
            Request::LinkMap { address: 0x6_0000 },
            Request::ModuleName { address: 0x6_0080 },
            Request::ExecutableName,
            Request::ElfHeader { address: 0x1_0000 },
            Request::ProgramHeaders { address: TABLE, count: 5 },
        ]
    );
}

#[test]
fn both_module_list_sources_agree_on_files() {
    let file_names = |modules: Vec<String>| {
        let mut names = modules
            .into_iter()
            .filter(|name| name.starts_with('/'))
            .map(|name| file_name(name.as_bytes()).unwrap())
            .collect::<Vec<_>>();
        names.sort();
        names.dedup();
        names
    };
    let from_rendezvous = file_names(names(&process().modules()));
    let from_proc_maps =
        file_names(names(&resolve(from_mappings(&proc_maps()), None, &mut Vec::new())));
    for name in &from_proc_maps {
        assert!(from_rendezvous.contains(name));
    }
    assert_eq!(from_rendezvous, from_proc_maps);
}

#[test]
fn module_list_has_no_duplicates() {
    let modules = names(&process().modules());
    let mut seen = modules.clone();
    seen.sort();
    seen.dedup();
    assert_eq!(
        seen.len(),
        modules.len(),
        "duplicate modules in the rendez-vous list: {modules:?}"
    );
    assert_eq!(modules.len(), 4);
}

#[test]
fn module_list_includes_the_vdso() {
    let modules = names(&process().modules());
    assert!(
        modules.iter().any(|name| name.contains("vdso") || name.contains("linux-gate")),
        "no vDSO in the module list: {modules:?}"
    );
}

#[test]
fn every_module_is_reachable_by_address() {
    let modules = process().modules();
    for module in &modules {
        let found = modules
            .iter()
            .filter(|other| {
                (other.base_address..other.base_address + other.size).contains(&module.base_address)
            })
            .map(|other| other.base_address)
            .collect::<Vec<_>>();
        assert_eq!(found, [module.base_address]);
    }
    let linker = modules.iter().find(|module| module.base_address == 0x4_0000).unwrap();
    assert_eq!(linker.size, 0x3000);
}

#[test]
fn inconsistent_debugger_rendezvous_falls_back_to_proc_maps() {
    let mut process = process();
    process.distrusted = true;
    let (listing, requests) = process.walk();
    assert_eq!(
        listing.result.unwrap_err(),
        DebuggerRendezvousError::DebuggerRendezvousNotConsistent(0)
    );
    assert!(listing.soft_errors.is_empty());
    assert!(!requests.iter().any(|request| matches!(request, Request::LinkMap { .. })));

    let names = names(&resolve(from_mappings(&proc_maps()), None, &mut Vec::new()));
    assert!(!names.is_empty(), "empty module list");
    assert!(
        names.iter().any(|name| name.contains("libc")),
        "no libc in the module list: {names:?}"
    );

    for r_state in [1, 2, -1] {
        process.distrusted = false;
        process.rendezvous.get_mut(&0x5_0000).unwrap().r_state = r_state;
        assert_eq!(
            process.error(),
            DebuggerRendezvousError::DebuggerRendezvousNotConsistent(r_state)
        );
    }
}

#[test]
fn modules_span_their_segments_in_whole_pages() {
    let candidates = process().candidates();
    assert_eq!(
        candidates.iter().map(extent).collect::<Vec<_>>(),
        [
            (0x1_0000, 0x1_4000, 0x1_2000, 0),
            (0x4_3000, 0x4_4000, 0x4_4000, 0),
            (0x2_0000, 0x2_5000, 0x2_5000, 0),
            (0x4_0000, 0x4_8000, 0x4_2000, 0),
        ]
    );
    assert!(candidates.iter().all(|candidate| !candidate.source.is_user()));
}

#[test]
fn one_unreadable_object_does_not_cost_the_rest() {
    let mut process = process();
    process.elf_headers.get_mut(&0x2_0000).unwrap().e_ident[0] = 0;
    process.program_headers.remove(&0x4_3040);
    let (listing, _) = process.walk();
    let candidates = listing.result.unwrap();
    assert_eq!(
        candidates.iter().map(|found| found.base_address).collect::<Vec<_>>(),
        [0x1_0000, 0x4_0000]
    );
    assert_eq!(
        listing.soft_errors,
        [
            DebuggerRendezvousError::SkippedModule {
                name: b"linux-vdso.so.1".to_vec(),
                address: 0x4_3000,
                source: Box::new(DebuggerRendezvousError::ReadProgramHeaderTableFailed(fault(
                    0x4_3040
                ))),
            },
            DebuggerRendezvousError::SkippedModule {
                name: b"/lib/libc.so.6".to_vec(),
                address: 0x2_0000,
                source: Box::new(DebuggerRendezvousError::InvalidElfSignature(*b"\0ELF")),
            },
        ]
    );
}

#[test]
fn objects_without_loadable_segments_are_skipped() {
    let mut process = process();
    process.object(0x2_0000, ET_DYN, vec![header(PT_DYNAMIC, 0, 0, 0, 0)]);
    process.elf_headers.remove(&0x4_0000);
    let (listing, _) = process.walk();
    assert_eq!(listing.result.unwrap().len(), 2);
    assert_eq!(
        listing.soft_errors,
        [
            DebuggerRendezvousError::SkippedModule {
                name: b"/lib/libc.so.6".to_vec(),
                address: 0x2_0000,
                source: Box::new(DebuggerRendezvousError::ProgramHeaderTableNoLoad),
            },
            DebuggerRendezvousError::SkippedModule {
                name: b"/lib/ld-linux.so.2".to_vec(),
                address: 0x4_0000,
                source: Box::new(DebuggerRendezvousError::ReadElfHeaderFailed(fault(0x4_0000))),
            },
        ]
    );
}

#[test]
fn modules_with_unreadable_names_are_left_out() {
    let mut process = process();
    process.names.remove(&0x6_0280);
    let (listing, _) = process.walk();
    assert_eq!(listing.result.unwrap().len(), 3);
    assert_eq!(
        listing.soft_errors,
        [DebuggerRendezvousError::ReadModuleNameFailed(fault(0x6_0280))]
    );
}

#[test]
fn only_a_nameless_main_executable_is_looked_up() {
    let mut process = process();
    process.names.insert(0x6_0180, b"\0".to_vec());
    let candidates = process.candidates();
    assert_eq!(candidates[0].name.as_deref(), Some(&b"/target/debug/test"[..]));
    assert_eq!(candidates[1].name.as_deref(), Some(&b""[..]));

    process.executable = None;
    assert_eq!(process.candidates()[0].name, None);

    process.names.insert(0x6_0080, b"/system/bin/app\0".to_vec());
    let (listing, requests) = process.walk();
    assert_eq!(
        listing.result.unwrap()[0].name.as_deref(),
        Some(&b"/system/bin/app"[..])
    );
    assert!(!requests.contains(&Request::ExecutableName));
}

#[test]
fn a_skipped_nameless_executable_is_reported_without_a_name() {
    let mut process = process();
    process.executable = None;
    let mut walk = from_debugger_rendezvous(TABLE, 5, PAGE);
    while let Some(request) = walk.request() {
        if request == Request::ExecutableName {
            process.elf_headers.remove(&0x1_0000);
        }
        walk = walk.step(process.answer(request));
    }
    let listing = walk.finish();
    assert_eq!(
        listing.soft_errors,
        [DebuggerRendezvousError::SkippedModule {
            name: Vec::new(),
            address: 0x1_0000,
            source: Box::new(DebuggerRendezvousError::ReadElfHeaderFailed(fault(0x1_0000))),
        }]
    );
    assert_eq!(listing.result.unwrap().len(), 3);
}

#[test]
fn a_fixed_executable_has_no_load_bias() {
    let mut process = process();
    process.links.get_mut(&0x6_0000).unwrap().l_addr = 0;
    process.object(
        0x1_0000,
        ET_EXEC,
        vec![
            header(PT_PHDR, 4, 0x40, 0x40, 0x118),
            load(4, 0, 0x1_0000, 0x900),
            load(4 | PF_X, 0x1000, 0x1_1000, 0x900),
            load(6, 0x2000, 0x1_3000, 0x900),
            header(PT_DYNAMIC, 6, 0x2020, 0x3020, 2 * DYN_SIZE),
        ],
    );
    let candidates = process.candidates();
    assert_eq!(extent(&candidates[0]), (0x1_0000, 0x1_4000, 0x1_2000, 0));
}

#[test]
fn the_way_to_the_list_can_be_blocked() {
    let blocked = |change: &dyn Fn(&mut Process)| {
        let mut process = process();
        change(&mut process);
        let (listing, requests) = process.walk();
        assert!(listing.soft_errors.is_empty());
        assert!(!requests.iter().any(|request| matches!(request, Request::ModuleName { .. })));
        listing.result.unwrap_err()
    };
    let headers = |process: &mut Process, i: usize, p_type: u32| {
        process.program_headers.get_mut(&TABLE).unwrap()[i].p_type = p_type;
    };

    assert_eq!(
        blocked(&|process| headers(process, 0, 0)),
        DebuggerRendezvousError::ProgramHeaderTableNoSelf
    );
    assert_eq!(
        blocked(&|process| headers(process, 4, 0)),
        DebuggerRendezvousError::ProgramHeaderTableNoDynamic
    );
    assert_eq!(
        blocked(&|process| {
            process.elf_headers.remove(&0x1_0000);
            headers(process, 4, 0)
        }),
        DebuggerRendezvousError::ReadElfHeaderFailed(fault(0x1_0000))
    );
    assert_eq!(
        blocked(&|process| process.elf_headers.get_mut(&0x1_0000).unwrap().e_ident[3] = b'f'),
        DebuggerRendezvousError::InvalidElfSignature(*b"\x7fELf")
    );
    assert_eq!(
        blocked(&|process| {
            process.program_headers.get_mut(&TABLE).unwrap()[4].p_memsz = DYN_SIZE + 1;
        }),
        DebuggerRendezvousError::InvalidDynamicSectionSize(DYN_SIZE + 1)
    );
    assert_eq!(
        blocked(&|process| {
            process.dynamic_sections.remove(&0x1_3020);
        }),
        DebuggerRendezvousError::ReadDynamicSectionFailed(fault(0x1_3020))
    );
    assert_eq!(
        blocked(&|process| process.dynamic_sections.get_mut(&0x1_3020).unwrap()[1].d_val = 1),
        DebuggerRendezvousError::DynamicSectionMissingTerminator
    );
    assert_eq!(
        blocked(&|process| process.dynamic_sections.get_mut(&0x1_3020).unwrap()[0].d_tag = 1),
        DebuggerRendezvousError::MissingDebugEntry
    );
    assert_eq!(
        blocked(&|process| {
            process.rendezvous.clear();
        }),
        DebuggerRendezvousError::ReadDebuggerRendezvousAddressFailed(fault(0x5_0000))
    );
    assert_eq!(
        blocked(&|process| {
            let rendezvous = process.rendezvous.get_mut(&0x5_0000).unwrap();
            rendezvous.r_version = 2;
            rendezvous.r_state = 1;
        }),
        DebuggerRendezvousError::UnexpectedDebuggerRendezvousVersion(2)
    );
    assert_eq!(
        blocked(&|process| process.links.get_mut(&0x6_0000).unwrap().l_prev = 1),
        DebuggerRendezvousError::IterateLinkMapFailed(Box::new(
            DebuggerRendezvousError::InvalidLinkEntry
        ))
    );
    assert_eq!(
        blocked(&|process| {
            process.links.remove(&0x6_0000);
        }),
        DebuggerRendezvousError::IterateLinkMapFailed(Box::new(
            DebuggerRendezvousError::ReadLinkMapEntryFailed(fault(0x6_0000))
        ))
    );
}

#[test]
fn unreadable_program_headers_end_the_walk() {
    let walk = from_debugger_rendezvous(TABLE, 5, PAGE).step(Reply::ProgramHeaders(Err(fault(TABLE))));
    assert_eq!(walk.request(), None);
    assert_eq!(
        walk.finish().result.unwrap_err(),
        DebuggerRendezvousError::ReadProgramHeaderTableFailed(fault(TABLE))
    );
}

#[test]
fn a_list_that_breaks_off_is_not_used() {
    let mut process = process();
    process.elf_headers.remove(&0x4_3000);
    process.links.remove(&0x6_0300);
    let (listing, _) = process.walk();
    assert_eq!(
        listing.result.unwrap_err(),
        DebuggerRendezvousError::IterateLinkMapFailed(Box::new(
            DebuggerRendezvousError::ReadLinkMapEntryFailed(fault(0x6_0300))
        ))
    );
    assert_eq!(listing.soft_errors.len(), 1);
}

#[test]
fn an_empty_list_has_no_modules() {
    let mut process = process();
    process.rendezvous.get_mut(&0x5_0000).unwrap().r_map = 0;
    assert!(process.candidates().is_empty());
}

fn read(process: &Process, elf_header_address: usize, load_bias: usize) -> ModuleExtent {
    let mut read = read_module(elf_header_address, load_bias, PAGE);
    loop {
        let reply = process.answer(read.request());
        assert!(read.fits(&reply));
        match read.step(reply) {
            ModuleProgress::Reading(next) => read = next,
            ModuleProgress::Done(outcome) => return outcome.unwrap(),
        }
    }
}

#[test]
fn objects_with_packed_relocations_are_based_at_their_load_bias() {
    let object = |e_type: u16, tag: u64, executable: u32| {
        let mut process = Process::default();
        process.object(
            0x3_0000,
            e_type,
            vec![
                load(4 | executable, 0x5000, 0x5000, 0x1000),
                header(PT_DYNAMIC, 4, 0x5800, 0x5800, 2 * DYN_SIZE),
            ],
        );
        process
            .dynamic_sections
            .insert(0x3_5800, vec![Dyn { d_tag: tag, d_val: 1 }, Dyn { d_tag: 0, d_val: 0 }]);
        process
    };
    let packed = read(&object(ET_DYN, DT_ANDROID_REL, PF_X), 0x3_0000, 0x3_0000);
    assert_eq!((packed.base_address, packed.end_address), (0x3_0000, 0x3_6000));
    assert_eq!((packed.code_end, packed.file_offset), (0x3_6000, 0x5000));

    let data = read(&object(ET_DYN, DT_ANDROID_REL, 0), 0x3_0000, 0x3_0000);
    assert_eq!((data.base_address, data.code_end), (0x3_0000, 0x3_0000));

    let unpacked = read(&object(ET_DYN, DT_DEBUG, PF_X), 0x3_0000, 0x3_0000);
    assert_eq!(unpacked.base_address, 0x3_5000);

    let fixed = read(&object(ET_EXEC, DT_ANDROID_REL, PF_X), 0x3_0000, 0x3_0000);
    assert_eq!(fixed.base_address, 0x3_5000);

    let mut unreadable = object(ET_DYN, DT_ANDROID_REL, PF_X);
    unreadable.dynamic_sections.clear();
    assert_eq!(read(&unreadable, 0x3_0000, 0x3_0000).base_address, 0x3_5000);

    let mut odd = object(ET_DYN, DT_ANDROID_REL, PF_X);
    odd.program_headers.get_mut(&0x3_0040).unwrap()[1].p_memsz += 1;
    assert_eq!(read(&odd, 0x3_0000, 0x3_0000).base_address, 0x3_5000);
}

#[test]
fn base_addresses_are_the_lowest_segments_or_the_load_bias() {
    let shared = elf_header(ET_DYN, 0, 0);
    let fixed = elf_header(ET_EXEC, 0, 0);
    assert_eq!(base_address(&shared, 1, 2, true), 1);
    assert_eq!(base_address(&shared, 1, 2, false), 2);
    assert_eq!(base_address(&fixed, 1, 2, true), 2);
    assert_eq!(base_address(&shared, 2, 2, true), 2);
}

#[test]
fn addresses_beyond_the_address_space_do_not_fit() {
    let table = |headers: Vec<ProgramHeader>| Reply::ProgramHeaders(Ok(headers));
    let walk = from_debugger_rendezvous(TABLE, 1, PAGE);
    assert!(walk.fits(&table(vec![header(PT_PHDR, 0, 0, TABLE, 0)])));
    assert!(!walk.fits(&table(vec![header(PT_PHDR, 0, 0, TABLE + 1, 0)])));

    let with_dynamic = |vaddr: usize| -> RendezvousWalk {
        from_debugger_rendezvous(TABLE, 2, PAGE).step(table(vec![
            header(PT_PHDR, 0, 0, 0x40, 0),
            header(PT_DYNAMIC, 0, 0, vaddr, 0),
        ]))
    };
    let header_reply = Reply::ElfHeader(Ok(elf_header(ET_DYN, 0, 0)));
    assert!(with_dynamic(usize::MAX - 0x1_0000).fits(&header_reply));
    assert!(!with_dynamic(usize::MAX - 0xffff).fits(&header_reply));
    assert!(with_dynamic(usize::MAX).fits(&Reply::ElfHeader(Err(fault(0x1_0000)))));

    let module = read_module(0x1_0000, 0x1_0000, PAGE);
    assert!(module.fits(&Reply::ElfHeader(Ok(elf_header(ET_DYN, usize::MAX - 0x1_0000, 0)))));
    assert!(!module.fits(&Reply::ElfHeader(Ok(elf_header(ET_DYN, usize::MAX - 0xffff, 0)))));

    let ModuleProgress::Reading(module) =
        module.step(Reply::ElfHeader(Ok(elf_header(ET_DYN, 0x40, 2))))
    else {
        panic!("the program headers are to be read");
    };
    assert!(module.fits(&table(vec![load(0, 0, 0x1000, 0x1000)])));
    assert!(!module.fits(&table(vec![load(0, 0, usize::MAX, 0)])));
    assert!(!module.fits(&table(vec![load(0, 0, 0x1000, usize::MAX)])));
    assert!(module.fits(&table(vec![header(PT_DYNAMIC, 0, 0, usize::MAX, 0)])));
    assert!(!module.fits(&table(vec![
        load(0, 0, 0x1000, 0x1000),
        header(PT_DYNAMIC, 0, 0, usize::MAX, 0)
    ])));
    assert!(module.fits(&table(vec![
        load(0, 0, 0, 0x1000),
        header(PT_DYNAMIC, 0, 0, usize::MAX, 0)
    ])));
}

#[test]
fn segments_are_rounded_out_to_pages() {
    let headers = [
        load(4, 0x3123, 0x3123, 0x10),
        load(4 | PF_X, 0x1fff, 0x1fff, 2),
        header(PT_DYNAMIC, PF_X, 0, 0, 0x10_0000),
    ];
    assert!(check_segments_fit(&headers, 0x1_0000, PAGE));
    let span = module_span(&headers, 0x1_0000, PAGE).unwrap();
    assert_eq!((span.start, span.end), (0x1_1000, 0x1_4000));
    assert_eq!((span.code_end, span.file_offset), (Some(0x1_3000), 0x1000));
    assert!(module_span(&headers[2..], 0x1_0000, PAGE).is_none());
    assert_eq!(module_span(&headers[..1], 0x1_0000, PAGE).unwrap().code_end, None);
    assert!(!check_segments_fit(&headers, usize::MAX - 0x3132, PAGE));
}

#[test]
fn of_segments_at_one_page_the_first_gives_the_file_offset() {
    let headers = [load(4, 0x7000, 0x900, 1), load(4, 0x2000, 0x100, 1)];
    let span = module_span(&headers, 0, PAGE).unwrap();
    assert_eq!((span.start, span.end, span.file_offset), (0, 0x1000, 0x7000));
}

#[test]
fn link_maps_are_followed_to_their_end() {
    let link = LinkMap { l_addr: 1, l_name: 2, l_ld: 3, l_next: 0x20, l_prev: 0 };
    let mut links = LinkMaps::new(0x10);
    assert_eq!(links.next(Some(Err(fault(0x10)))), Err(DebuggerRendezvousError::ReadLinkMapEntryFailed(fault(0x10))));
    assert_eq!(links, LinkMaps { address: 0x10, first_node: true });
    let middle = LinkMap { l_prev: 0x10, l_next: 0, ..link };
    assert_eq!(links.next(Some(Ok(middle))), Err(DebuggerRendezvousError::InvalidLinkEntry));
    assert_eq!(links.next(Some(Ok(link))), Ok(Some(link)));
    assert_eq!(links, LinkMaps { address: 0x20, first_node: false });
    assert_eq!(links.next(Some(Ok(middle))), Ok(Some(middle)));
    assert_eq!(links.next(None), Ok(None));
    assert_eq!(LinkMaps::new(0).next(None), Ok(None));
}

#[test]
fn names_lose_their_terminator() {
    assert_eq!(read_c_string(Ok(b"name\0".to_vec())), Ok(b"name".to_vec()));
    assert_eq!(read_c_string(Ok(b"name".to_vec())), Ok(b"name".to_vec()));
    assert_eq!(read_c_string(Ok(b"\0".to_vec())), Ok(Vec::new()));
    assert_eq!(read_c_string(Ok(Vec::new())), Ok(Vec::new()));
    assert_eq!(
        read_c_string(Err(fault(1))),
        Err(DebuggerRendezvousError::ReadModuleNameFailed(fault(1)))
    );
}

#[test]
fn code_ends_with_the_last_executable_segment() {
    let headers = [
        load(4 | PF_X, 0, 0x5000, 0x800),
        load(4 | PF_X, 0, 0x1000, 0x1800),
        load(4, 0, 0x8000, 0x10),
    ];
    let span = module_span(&headers, 0, PAGE).unwrap();
    assert_eq!((span.end, span.code_end), (0x9000, Some(0x6000)));
}

#[test]
fn the_order_of_program_headers_does_not_matter() {
    let headers = [
        load(4 | PF_X, 0x1000, 0x1000, 0x1800),
        load(6, 0x4000, 0x8000, 0x10),
        load(4, 0, 0x200, 0x10),
    ];
    let span = module_span(&headers, 0x1_0000, PAGE).unwrap();
    assert_eq!((span.start, span.end), (0x1_0000, 0x1_9000));
    for order in [[0, 1, 2], [0, 2, 1], [1, 0, 2], [1, 2, 0], [2, 0, 1], [2, 1, 0]] {
        let shuffled = order.map(|i| headers[i]);
        assert_eq!(module_span(&shuffled, 0x1_0000, PAGE), Some(span));
    }
}
