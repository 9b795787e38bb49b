//! Where the engine keeps its data.

use vstd::prelude::*;

verus! {

/// The data directory where no home directory is configured.
pub open spec fn default_data_dir() -> Seq<char> {
    "/var/lib/sawtooth-raft"@
}

/// Whether `sep` can be a platform's main path separator: `/` on Unix,
/// `\\` on Windows.
pub open spec fn main_separator(sep: char) -> bool {
    sep == '/' || sep == '\\'
}

/// Whether `c` separates path components on a platform whose main
/// separator is `sep`: `/` does everywhere, and so does `sep`.
pub open spec fn is_path_separator(c: char, sep: char) -> bool {
    c == '/' || c == sep
}

/// Whether Windows reads the start of `base` as a path prefix: two
/// separators (a share, a device or a verbatim path) or a letter and a
/// colon (a drive).
pub open spec fn has_windows_prefix(base: Seq<char>) -> bool {
    &&& base.len() >= 2
    &&& ((base[0] == '/' || base[0] == '\\') && (base[1] == '/' || base[1] == '\\')) || base[1] == ':'
}

/// `base` with the component `name` appended: directly where `base` is
/// empty or already ends in a separator, and after the main separator `sep`
/// otherwise.
pub open spec fn joined_path(base: Seq<char>, name: Seq<char>, sep: char) -> Seq<char> {
    if base.len() == 0 || is_path_separator(base.last(), sep) {
        base + name
    } else {
        base + seq![sep] + name
    }
}

/// What joining `name` to `base` gives on a platform: on Unix (main
/// separator `/`) always the plain join; on Windows the plain join where
/// `base` has no prefix (a prefixed base, verbatim ones above all, is
/// normalized first, which is left unsaid).
pub open spec fn joins_to(base: Seq<char>, name: Seq<char>, joined: Seq<char>) -> bool {
    exists|sep: char|
        #![trigger joined_path(base, name, sep)]
        main_separator(sep) && (sep == '/' || !has_windows_prefix(base) ==> joined == joined_path(base, name, sep))
}

/// Whether `name` is a single plain path component: no separator and no
/// drive prefix in it, and neither `.` nor `..`.
pub open spec fn plain_component(name: Seq<char>) -> bool {
    &&& forall|i: int| 0 <= i < name.len() ==> name[i] != '/' && name[i] != '\\' && name[i] != ':'
    &&& name != seq!['.']
    &&& name != seq!['.', '.']
}

/// Joins the plain component `name` to the path `base` with
/// `std::path::Path::join`.
///
/// `Path::join` (through `PathBuf::push`) keeps `base` and appends `name`,
/// after the platform's main separator where `base` is not empty and does
/// not end in a separator. On Windows a base with a prefix is handled
/// otherwise (a verbatim one is normalized), and the contract leaves that
/// case open; which platform it is, is left open too.
#[verifier::external_body]
fn join_path(base: &str, name: &str) -> (r: String)
    requires
        plain_component(name@),
    ensures
        joins_to(base@, name@, r@),
{
    std::path::Path::new(base).join(name).to_string_lossy().into_owned()
}

/// The paths the engine uses.
pub struct PathConfig {
    /// The directory of the Raft log storage.
    pub data_dir: String,
}

impl PathConfig {
    /// The paths for the home directory `home`, where one is configured:
    /// `data` joined to it (on Unix `home/data`, with no second `/` where
    /// `home` already ends in one); otherwise the default data directory.
    pub fn from_home(home: Option<&str>) -> (r: PathConfig)
        ensures
            match home {
                Some(h) => joins_to(h@, "data"@, r.data_dir@),
                None => r.data_dir@ == default_data_dir(),
            },
    {
        match home {
            Some(prefix) => {
                proof {
                    reveal_strlit("data");
                    assert("data"@.len() == 4);
                    assert("data"@ != seq!['.']);
                    assert("data"@ != seq!['.', '.']);
                }
                PathConfig { data_dir: join_path(prefix, "data") }
            },
            None => PathConfig { data_dir: "/var/lib/sawtooth-raft".to_owned() },
        }
    }
}

} // verus!
