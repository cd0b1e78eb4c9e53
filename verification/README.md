# module_list

Which ELF modules are loaded into a Linux process, where, and under what names: the
module list that a minidump writer puts into the `ModuleListStream`. The logic is
written in Rust and verified with [Verus](https://github.com/verus-lang/verus).

## How it works

1. Candidates are collected from the dynamic linker's debugger rendez-vous
   (`rendezvous::from_debugger_rendezvous`), from memory mappings
   (`module::from_mappings`) and from what the user supplied
   (`module::from_user_mappings`).
2. `resolve::resolve` drops detected modules that start within a user-supplied one,
   puts the module with the entry point first, and shortens modules that overlap.
3. `ModuleInfo::effective_path_name_and_version` settles on the path, the name and the
   version of an entry.

The library does not read the process itself. `RendezvousWalk::request` says what to
read next, `RendezvousWalk::fits` whether what was read can be taken, and
`RendezvousWalk::step` takes it, until there is nothing left to ask for and
`RendezvousWalk::finish` hands out the listing.

## Layout

- `src/`: the verified library. Modules that end in `_laws` hold properties that
  relate several functions; laws on a single module stand in it.
- `app/`: reading a live process through a `ProcessInspector`, and the errors in the
  form in which they are displayed and serialised.
- `tests/`: tests on concrete values.

## What is taken on trust

`text::decode_lossy`, which calls `String::from_utf8_lossy`. Its contract names the
text that comes out, says what it is for bytes that are valid UTF-8, and that others
leave a replacement character.
