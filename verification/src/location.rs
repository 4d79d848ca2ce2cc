//! Where notes are kept when the user has chosen no place.
//!
//! The default store is a folder of a fixed name inside the user's
//! documents directory. Where the system names no documents directory, the
//! folder lies under a fixed root instead.

use vstd::prelude::*;

verus! {

/// The name of the folder that holds the notes.
pub open spec fn data_folder() -> Seq<char> {
    seq!['E', 'a', 's', 'y', 'N', 'o', 't', 'e', 's', '_', 'D', 'a', 't', 'a']
}

/// The root under which the folder lies where no documents directory is
/// known.
pub open spec fn fallback_root() -> Seq<char> {
    seq!['C', ':', '/']
}

/// The default store: the folder `folder` directly inside `parent`.
#[derive(Debug)]
pub struct SaveLocation {
    pub parent: String,
    pub folder: String,
}

/// The directory in which the default store lies: the documents directory
/// where one is known, the fixed root where none is.
pub open spec fn default_parent_of(documents_dir: Option<String>) -> Seq<char> {
    match documents_dir {
        Some(dir) => dir@,
        None => fallback_root(),
    }
}

/// Returns the default store for a user whose documents directory is
/// `documents_dir`, or for one who has none. It always answers; whether the
/// store can be created there shows when a note is saved.
pub fn get_default_save_path(documents_dir: Option<String>) -> (location: SaveLocation)
    ensures
        location.parent@ == default_parent_of(documents_dir),
        location.folder@ == data_folder(),
{
    proof {
        reveal_strlit("EasyNotes_Data");
        reveal_strlit("C:/");
        assert("EasyNotes_Data"@ =~= data_folder());
        assert("C:/"@ =~= fallback_root());
    }
    let parent = match documents_dir {
        Some(dir) => dir,
        None => String::from_str("C:/"),
    };
    SaveLocation { parent, folder: String::from_str("EasyNotes_Data") }
}

} // verus!
