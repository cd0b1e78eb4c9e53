//! What a module is called in the minidump.

use vstd::prelude::*;
use vstd::utf8::{decode_utf8, encode_utf8, valid_utf8};

use crate::bytes::{copy_name_or_empty, name_or_empty};
use crate::error::{ModuleListError, ModuleReaderError};
use crate::module::{ModuleInfo, ModuleInfoView};
use crate::path::{
    file_name, file_name_of, is_file_name, joined, law_the_directory_stays,
    law_the_name_put_last_is_the_file_name, parent_of, push, set_file_name, with_file_name,
    SEPARATOR,
};
use crate::so_version::{path_so_version, so_version_of, SoVersion};
use crate::text::{decode_lossy, utf8_lossy};

verus! {

/// What a search for a SONAME amounts to: that a module has none is no error.
pub open spec fn so_name_found(read: Result<String, ModuleReaderError>) -> Result<
    Option<String>,
    ModuleListError,
> {
    match read {
        Ok(soname) => Ok(Some(soname)),
        Err(ModuleReaderError::NoSoName) => Ok(None),
        Err(error) => Err(ModuleListError::ReadSoNameFromFileFailed(error)),
    }
}

/// The file name of a path as text, or nothing if it has none.
pub open spec fn file_name_text(path: Seq<u8>) -> Seq<char> {
    match file_name_of(path) {
        Some(name) => utf8_lossy(name),
        None => Seq::empty(),
    }
}

impl ModuleInfoView {
    /// Whether the SONAME has to be read from the module's file: nobody supplied
    /// one, and the user did not supply the file name either.
    pub open spec fn reads_so_name(&self, soname: Option<String>) -> bool {
        soname is None && self.source is Process
    }

    /// The module's own path.
    pub open spec fn path(&self) -> Seq<u8> {
        name_or_empty(self.name)
    }

    /// The module's path once it is called `soname`.
    ///
    /// An executable that is mapped from within a file is likely part of an
    /// archive, whose path then stays whole.
    pub open spec fn path_with_so_name(&self, soname: Seq<char>) -> Seq<u8> {
        let name = encode_utf8(soname);
        if self.executable && self.file_offset != 0 {
            joined(self.path(), name)
        } else {
            with_file_name(self.path(), name)
        }
    }

    /// The version that the module's name tells.
    pub open spec fn so_version(&self) -> Option<SoVersion> {
        match self.name {
            Some(name) => path_so_version(name),
            None => None,
        }
    }

    /// The SONAME to go by, if any.
    pub open spec fn chosen_so_name(
        &self,
        soname: Option<String>,
        read: Option<Result<String, ModuleReaderError>>,
    ) -> Option<Seq<char>> {
        match soname {
            Some(supplied) => Some(supplied@),
            None => if self.source is Process {
                match so_name_found(read->0) {
                    Ok(Some(found)) => Some(found@),
                    _ => None,
                }
            } else {
                None
            },
        }
    }
}

impl ModuleInfo {
    /// Whether [`ModuleInfo::effective_path_name_and_version`] needs to be told
    /// what the module's file has for a SONAME.
    pub fn reads_so_name(&self, soname: &Option<String>) -> (reads: bool)
        ensures
            reads == self@.reads_so_name(*soname),
    {
        // User supplied the filename, let's use that directly.
        soname.is_none() && !self.source.is_user()
    }

    /// The path, file name and version to write for the module.
    ///
    /// Tools such as minidump_stackwalk use the name of the module to look up
    /// symbols produced by dump_syms. dump_syms will prefer to use a module's
    /// DT_SONAME as the module name, if one exists, and will fall back to the
    /// filesystem name of the module.
    ///
    /// We prefer the SONAME if it's available rather than parse the path.
    pub fn effective_path_name_and_version(
        &self,
        soname: Option<String>,
        read: Option<Result<String, ModuleReaderError>>,
        soft_errors: &mut Vec<ModuleListError>,
    ) -> (named: (Vec<u8>, String, Option<SoVersion>))
        requires
            self@.reads_so_name(soname) ==> read is Some,
        ensures
            match self@.chosen_so_name(soname, read) {
                Some(chosen) => named.0@ == self@.path_with_so_name(chosen) && named.1@ == chosen,
                None => named.0@ == self@.path() && named.1@ == file_name_text(self@.path()) && (
                file_name_of(self@.path()) matches Some(name) ==> if valid_utf8(name) {
                    named.1@ == decode_utf8(name)
                } else {
                    named.1@.contains('\u{fffd}')
                }),
            },
            named.2 == self@.so_version(),
            self@.name matches Some(path) ==> (file_name_of(path) matches Some(file) ==> (valid_utf8(
                file,
            ) ==> named.2 == so_version_of(decode_utf8(file)))),
            final(soft_errors)@ == match so_name_found(read->0) {
                Err(error) if self@.reads_so_name(soname) => old(soft_errors)@.push(error),
                _ => old(soft_errors)@,
            },
    {
        let mut file_path: Vec<u8> = copy_name_or_empty(&self.name);
        let version: Option<SoVersion> = self.so_version();
        let chosen: Option<String> = if self.reads_so_name(&soname) {
            match ModuleInfo::so_name(read.unwrap()) {
                Ok(found) => found,
                Err(error) => {
                    // Log error and move on to fallback path.
                    soft_errors.push(error);
                    None
                },
            }
        } else {
            soname
        };

        match chosen {
            Some(name) => {
                if self.executable && self.file_offset != 0 {
                    // If an executable is mapped from a non-zero offset, this is likely because
                    // the executable was loaded directly from inside an archive file (e.g., an
                    // apk on Android).
                    // In this case, we append the file_name to the mapped archive path:
                    //   file_name := libname.so
                    //   file_path := /path/to/ARCHIVE.APK/libname.so
                    push(&mut file_path, name.as_str().as_bytes());
                } else {
                    // Otherwise, replace the basename with the SONAME.
                    set_file_name(&mut file_path, name.as_str().as_bytes());
                }
                (file_path, name, version)
            },
            None => {
                // Just use the filesystem name if no SONAME is present.
                //   file_path := /path/to/libname.so
                //   file_name := libname.so
                let name: String = match file_name(file_path.as_slice()) {
                    Some(bytes) => decode_lossy(bytes.as_slice()),
                    None => String::new(),
                };
                (file_path, name, version)
            },
        }
    }

    /// The version that the module's name tells.
    pub fn so_version(&self) -> (version: Option<SoVersion>)
        ensures
            version == self@.so_version(),
            self@.name matches Some(path) ==> (file_name_of(path) matches Some(file) ==> (valid_utf8(
                file,
            ) ==> version == so_version_of(decode_utf8(file)))),
    {
        match &self.name {
            Some(name) => SoVersion::parse(name.as_slice()),
            None => None,
        }
    }

    /// What looking into a module's ELF metadata for its soname amounts to.
    /// Typically, executables don't have one.
    pub fn so_name(read: Result<String, ModuleReaderError>) -> (found: Result<
        Option<String>,
        ModuleListError,
    >)
        ensures
            found == so_name_found(read),
    {
        match read {
            Ok(soname) => Ok(Some(soname)),
            Err(error) => match error {
                ModuleReaderError::NoSoName => Ok(None),
                error => Err(ModuleListError::ReadSoNameFromFileFailed(error)),
            },
        }
    }
}

/// A module that goes by a SONAME is written with a path that ends in it: in
/// place of the file name, and in the same directory, or behind the whole path of
/// an archive.
pub proof fn law_the_path_ends_in_the_so_name(module: ModuleInfoView, soname: Seq<char>)
    requires
        is_file_name(encode_utf8(soname)),
        !encode_utf8(soname).contains(SEPARATOR),
    ensures
        file_name_of(module.path_with_so_name(soname)) == Some(encode_utf8(soname)),
        !(module.executable && module.file_offset != 0) && file_name_of(module.path()) is Some
            ==> parent_of(module.path_with_so_name(soname)) == parent_of(module.path()),
        module.executable && module.file_offset != 0 ==> module.path().is_prefix_of(
            module.path_with_so_name(soname),
        ),
{
    let name = encode_utf8(soname);
    law_the_name_put_last_is_the_file_name(module.path(), name);
    if module.executable && module.file_offset != 0 {
        assert(name.contains(name[0]));
    } else if file_name_of(module.path()) is Some {
        law_the_directory_stays(module.path(), name);
    }
}

} // verus!
