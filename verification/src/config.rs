//! The configuration model: named libraries, each with a compiled format,
//! its watched folders and an exfat-compat flag. Loading and expanding the
//! configuration file happens outside this crate; the lookups live here.

use vstd::prelude::*;

use crate::format::ParsedFormat;
use crate::path::MusoPath;
use crate::strutil::str_eq;

verus! {

/// The watch section: the debounce interval in seconds and the library names
/// to watch.
#[derive(Debug)]
pub struct WatchConfig {
    pub every: Option<u64>,
    pub libraries: Vec<String>,
}

/// One library: its compiled format, its folders and its exfat-compat flag.
#[derive(Debug)]
pub struct LibraryConfig {
    pub format: ParsedFormat,
    pub folders: Vec<MusoPath>,
    pub exfat_compat: Option<bool>,
}

/// The whole configuration: the watch section and the libraries by name.
#[derive(Debug)]
pub struct Config {
    pub watch: WatchConfig,
    pub libraries: Vec<(String, LibraryConfig)>,
}

/// The index of the first library named `name`, or -1.
pub open spec fn spec_lib_index(libs: Seq<(String, LibraryConfig)>, name: Seq<char>) -> int
    decreases libs.len(),
{
    if libs.len() == 0 {
        -1
    } else if libs[0].0@ == name {
        0
    } else {
        let r = spec_lib_index(libs.drop_first(), name);
        if r < 0 {
            -1
        } else {
            r + 1
        }
    }
}

proof fn lemma_lib_index_found(libs: Seq<(String, LibraryConfig)>, name: Seq<char>, j: int)
    requires
        0 <= j < libs.len(),
        libs[j].0@ == name,
        forall|l: int| 0 <= l < j ==> libs[l].0@ != name,
    ensures
        spec_lib_index(libs, name) == j,
    decreases j,
{
    if j > 0 {
        assert(forall|l: int| 0 <= l < j - 1 ==> libs.drop_first()[l] == libs[l + 1]);
        lemma_lib_index_found(libs.drop_first(), name, j - 1);
    }
}

proof fn lemma_lib_index_none(libs: Seq<(String, LibraryConfig)>, name: Seq<char>)
    requires
        forall|l: int| 0 <= l < libs.len() ==> libs[l].0@ != name,
    ensures
        spec_lib_index(libs, name) == -1,
    decreases libs.len(),
{
    if libs.len() > 0 {
        assert(forall|l: int| 0 <= l < libs.drop_first().len() ==> libs.drop_first()[l] == libs[l
            + 1]);
        lemma_lib_index_none(libs.drop_first(), name);
    }
}

/// Whether one of `lib`'s folders is exactly the path `p`.
pub open spec fn spec_lib_has_folder(lib: LibraryConfig, p: Seq<Seq<char>>) -> bool {
    exists|j: int| 0 <= j < lib.folders@.len() && lib.folders@[j]@ == p
}

/// The index of the first library one of whose folders is `p`, or -1.
pub open spec fn spec_search_index(libs: Seq<(String, LibraryConfig)>, p: Seq<Seq<char>>) -> int
    decreases libs.len(),
{
    if libs.len() == 0 {
        -1
    } else if spec_lib_has_folder(libs[0].1, p) {
        0
    } else {
        let r = spec_search_index(libs.drop_first(), p);
        if r < 0 {
            -1
        } else {
            r + 1
        }
    }
}

proof fn lemma_search_index_found(libs: Seq<(String, LibraryConfig)>, p: Seq<Seq<char>>, j: int)
    requires
        0 <= j < libs.len(),
        spec_lib_has_folder(libs[j].1, p),
        forall|l: int| 0 <= l < j ==> !spec_lib_has_folder(libs[l].1, p),
    ensures
        spec_search_index(libs, p) == j,
    decreases j,
{
    if j > 0 {
        assert(forall|l: int| 0 <= l < j - 1 ==> libs.drop_first()[l] == libs[l + 1]);
        lemma_search_index_found(libs.drop_first(), p, j - 1);
    }
}

proof fn lemma_search_index_none(libs: Seq<(String, LibraryConfig)>, p: Seq<Seq<char>>)
    requires
        forall|l: int| 0 <= l < libs.len() ==> !spec_lib_has_folder(libs[l].1, p),
    ensures
        spec_search_index(libs, p) == -1,
    decreases libs.len(),
{
    if libs.len() > 0 {
        assert(forall|l: int| 0 <= l < libs.drop_first().len() ==> libs.drop_first()[l] == libs[l
            + 1]);
        lemma_search_index_none(libs.drop_first(), p);
    }
}

fn lib_has_folder(lib: &LibraryConfig, p: &MusoPath) -> (r: bool)
    ensures
        r == spec_lib_has_folder(*lib, p@),
{
    let n = lib.folders.len();
    let mut j: usize = 0;
    while j < n
        invariant
            0 <= j <= n,
            n == lib.folders@.len(),
            forall|l: int| 0 <= l < j ==> lib.folders@[l]@ != p@,
        decreases n - j,
    {
        if lib.folders[j].path_eq(p) {
            return true;
        }
        j = j + 1;
    }
    false
}

impl Config {
    /// The format of the first library one of whose folders is exactly
    /// `path`, if any.
    pub fn search_format(&self, path: &MusoPath) -> (r: Option<&ParsedFormat>)
        ensures
            ({
                let i = spec_search_index(self.libraries@, path@);
                match r {
                    Some(f) => i >= 0 && *f == self.libraries@[i].1.format,
                    None => i == -1,
                }
            }),
    {
        let n = self.libraries.len();
        let mut j: usize = 0;
        while j < n
            invariant
                0 <= j <= n,
                n == self.libraries@.len(),
                forall|l: int| 0 <= l < j ==> !spec_lib_has_folder(
                    #[trigger] self.libraries@[l].1,
                    path@,
                ),
            decreases n - j,
        {
            if lib_has_folder(&self.libraries[j].1, path) {
                proof {
                    lemma_search_index_found(self.libraries@, path@, j as int);
                }
                return Some(&self.libraries[j].1.format);
            }
            j = j + 1;
        }
        proof {
            lemma_search_index_none(self.libraries@, path@);
        }
        None
    }

    /// The format of the first library one of whose folders is exactly
    /// `path`, if any.
    pub fn search_format_for(&self, path: &MusoPath) -> (r: Option<&ParsedFormat>)
        ensures
            ({
                let i = spec_search_index(self.libraries@, path@);
                match r {
                    Some(f) => i >= 0 && *f == self.libraries@[i].1.format,
                    None => i == -1,
                }
            }),
    {
        self.search_format(path)
    }

    /// The format of the library named `library`, if any.
    pub fn format_of(&self, library: &str) -> (r: Option<&ParsedFormat>)
        ensures
            ({
                let i = spec_lib_index(self.libraries@, library@);
                match r {
                    Some(f) => i >= 0 && *f == self.libraries@[i].1.format,
                    None => i == -1,
                }
            }),
    {
        let n = self.libraries.len();
        let mut j: usize = 0;
        while j < n
            invariant
                0 <= j <= n,
                n == self.libraries@.len(),
                forall|l: int| 0 <= l < j ==> #[trigger] self.libraries@[l].0@ != library@,
            decreases n - j,
        {
            if str_eq(self.libraries[j].0.as_str(), library) {
                proof {
                    lemma_lib_index_found(self.libraries@, library@, j as int);
                }
                return Some(&self.libraries[j].1.format);
            }
            j = j + 1;
        }
        proof {
            lemma_lib_index_none(self.libraries@, library@);
        }
        None
    }

    /// What the exfat-compat flag means for the library named `library`:
    /// set and true; unset, absent libraries and absent flags count as false.
    pub open spec fn spec_is_exfat_compat(self, library: Seq<char>) -> bool {
        let i = spec_lib_index(self.libraries@, library);
        if i >= 0 {
            match self.libraries@[i].1.exfat_compat {
                Some(b) => b,
                None => false,
            }
        } else {
            false
        }
    }

    /// Whether the library named `library` asks for exfat-compat
    /// sanitization.
    pub fn is_exfat_compat(&self, library: &str) -> (r: bool)
        ensures
            r == self.spec_is_exfat_compat(library@),
    {
        let n = self.libraries.len();
        let mut j: usize = 0;
        while j < n
            invariant
                0 <= j <= n,
                n == self.libraries@.len(),
                forall|l: int| 0 <= l < j ==> #[trigger] self.libraries@[l].0@ != library@,
            decreases n - j,
        {
            if str_eq(self.libraries[j].0.as_str(), library) {
                proof {
                    lemma_lib_index_found(self.libraries@, library@, j as int);
                }
                return match self.libraries[j].1.exfat_compat {
                    Some(b) => b,
                    None => false,
                };
            }
            j = j + 1;
        }
        proof {
            lemma_lib_index_none(self.libraries@, library@);
        }
        false
    }
}

} // verus!
