//! What goes into the name that a module is written with.

use vstd::prelude::*;
use vstd::utf8::encode_utf8;

use crate::error::{ModuleListError, ModuleReaderError};
use crate::module::ModuleInfoView;
use crate::naming::{file_name_text, so_name_found};
use crate::path::{file_name_of, joined, with_file_name};
use crate::so_version::path_so_version;
use crate::text::utf8_lossy;

verus! {

/// A SONAME that was found is used, that there is none is no error, and any other
/// failure is handed on as it is.
pub proof fn law_only_a_failed_search_is_an_error(read: Result<String, ModuleReaderError>)
    ensures
        match read {
            Ok(soname) => so_name_found(read) == Ok::<_, ModuleListError>(Some(soname)),
            Err(ModuleReaderError::NoSoName) => so_name_found(read) == Ok::<_, ModuleListError>(
                None::<String>,
            ),
            Err(ModuleReaderError::Unreadable { reason }) => so_name_found(read) == Err::<
                Option<String>,
                _,
            >(
                ModuleListError::ReadSoNameFromFileFailed(
                    ModuleReaderError::Unreadable { reason },
                ),
            ),
        },
{
}

/// The module's file is looked into exactly if nobody supplied a SONAME and the
/// module was detected.
pub proof fn law_only_detected_modules_without_a_so_name_are_read(
    module: ModuleInfoView,
    soname: Option<String>,
)
    ensures
        module.reads_so_name(soname) <==> soname is None && module.source is Process,
{
}

/// A SONAME that was supplied goes before all else, then the one that was read of a
/// detected module. A module of the user's has no other.
pub proof fn law_a_supplied_so_name_goes_first(
    module: ModuleInfoView,
    soname: Option<String>,
    read: Option<Result<String, ModuleReaderError>>,
)
    ensures
        soname matches Some(supplied) ==> module.chosen_so_name(soname, read) == Some(supplied@),
        soname is None && module.source is User ==> module.chosen_so_name(soname, read) is None,
        soname is None && module.source is Process ==> (read matches Some(Ok(found))
            ==> module.chosen_so_name(soname, read) == Some(found@)),
        soname is None && module.source is Process ==> (read matches Some(Err(_))
            ==> module.chosen_so_name(soname, read) is None),
{
}

/// The SONAME goes behind the module's whole path if the module is executable and
/// not at the start of its file, and in place of the file name in all other cases.
pub proof fn law_only_archives_keep_their_path(module: ModuleInfoView, soname: Seq<char>)
    ensures
        module.name matches Some(path) ==> module.path() == path,
        module.name is None ==> module.path().len() == 0,
        module.executable && module.file_offset > 0 ==> module.path_with_so_name(soname)
            == joined(module.path(), encode_utf8(soname)),
        !module.executable || module.file_offset == 0 ==> module.path_with_so_name(soname)
            == with_file_name(module.path(), encode_utf8(soname)),
{
}

/// Without a SONAME a module is called what its file is called, and nothing if its
/// path names no file.
pub proof fn law_the_file_name_is_the_fallback(path: Seq<u8>, name: Seq<u8>)
    ensures
        file_name_of(path) == Some(name) ==> file_name_text(path) == utf8_lossy(name),
        file_name_of(path) is None ==> file_name_text(path).len() == 0,
{
}

/// The version of a module is the one that its own path tells, whatever SONAME it
/// goes by.
pub proof fn law_the_version_is_that_of_the_path(module: ModuleInfoView)
    ensures
        module.name matches Some(path) ==> module.so_version() == path_so_version(path),
        module.name is None ==> module.so_version() is None,
{
}

} // verus!
