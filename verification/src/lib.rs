//! Enumeration of the ELF modules loaded into a target process.
//!
//! Modules come from three places: the dynamic linker's debugger rendez-vous
//! ([`rendezvous`]), the kernel's memory mappings ([`module::from_mappings`]) and
//! the user ([`module::from_user_mappings`]). All of them are
//! [`module::ModuleCandidate`]s, which [`resolve::resolve`] turns into the entries
//! of the module list, none of which reaches over another. What an entry is called
//! is settled by [`naming`].
//!
//! Nothing here reads the process. A walk along the rendez-vous says what to read
//! next ([`process::Request`]) and is handed what was read ([`process::Reply`]).

pub mod align;
pub mod bytes;
pub mod elf;
pub mod elf_laws;
pub mod error;
pub mod link_laws;
pub mod link_map;
pub mod link_walk;
pub mod list_laws;
pub mod mapping;
pub mod module;
pub mod module_laws;
pub mod module_read;
pub mod naming;
pub mod naming_laws;
pub mod path;
pub mod path_laws;
pub mod process;
pub mod reading_laws;
pub mod rendezvous;
pub mod rendezvous_laws;
pub mod resolve;
pub mod resolve_laws;
pub mod segment;
pub mod segment_laws;
pub mod so_version;
pub mod text;
pub mod text_laws;
pub mod version_laws;
pub mod view_laws;
