//! Where the application keeps its files, and the paths of those files.

use vstd::prelude::*;

verus! {

/// The path of `file` taken from the directory `root`, as paths are written
/// on Unix and Android, where `/` separates their parts: an absolute `file`
/// (one starting with `/`) is itself; a relative one is appended to `root`
/// with a `/` between them, unless `root` is empty or already ends with one.
pub open spec fn joined_path(root: Seq<char>, file: Seq<char>) -> Seq<char> {
    if !relative(file) {
        file
    } else if root.len() == 0 || root.last() == '/' {
        root + file
    } else {
        root + seq!['/'] + file
    }
}

/// A relative file is placed inside a non-empty root: the path starts with
/// the root, ends with the file, and exactly one `/` separates them (the
/// root's own trailing `/`, or one added); an absolute file, or an empty
/// root, gives the file itself.
pub proof fn lemma_joined_path_parts(root: Seq<char>, file: Seq<char>)
    ensures
        relative(file) && root.len() > 0 ==> {
            let path = joined_path(root, file);
            let sep = if root.last() == '/' {
                0int
            } else {
                1int
            };
            &&& path.len() == root.len() + sep + file.len()
            &&& path.take(root.len() as int) == root
            &&& path.skip(root.len() + sep) == file
            &&& path[root.len() + sep - 1] == '/'
        },
        !relative(file) ==> joined_path(root, file) == file,
        root.len() == 0 ==> joined_path(root, file) == file,
{
    if relative(file) && root.len() > 0 {
        let path = joined_path(root, file);
        if root.last() == '/' {
            assert(path.take(root.len() as int) =~= root);
            assert(path.skip(root.len() as int) =~= file);
        } else {
            assert(path.take(root.len() as int) =~= root);
            assert(path.skip(root.len() + 1int) =~= file);
        }
    }
    if root.len() == 0 {
        assert(root + file =~= file);
    }
}

/// The name of the file that holds the saved places.
pub open spec fn places_file() -> Seq<char> {
    seq!['p', 'l', 'a', 'c', 'e', 's', '.', 'j', 's', 'o', 'n']
}

/// Whether `path` is relative: it does not start at the root `/`.
pub open spec fn relative(path: Seq<char>) -> bool {
    path.len() == 0 || path[0] != '/'
}

/// The path of `file` (such as `places.json`) taken from the directory
/// `root`; an absolute `file` replaces `root`.
pub fn join_path(root: &str, file: &str) -> (path: String)
    ensures
        path@ == joined_path(root@, file@),
{
    if file.unicode_len() > 0 && file.get_char(0) == '/' {
        return String::from_str(file);
    }
    let mut path = String::from_str(root);
    let n = root.unicode_len();
    if n > 0 && root.get_char(n - 1) != '/' {
        proof {
            reveal_strlit("/");
        }
        path.append("/");
    }
    path.append(file);
    path
}

/// The path of the file that holds the saved places in `root`.
pub fn places_path(root: &str) -> (path: String)
    ensures
        path@ == joined_path(root@, places_file()),
{
    proof {
        reveal_strlit("places.json");
    }
    join_path(root, "places.json")
}

/// Interface to the application's permanent storage.
pub struct Storage {
    /// Root path to the permanent storage.
    root: String,
}

impl Storage {
    /// The storage whose root directory is `root` (a directory that exists).
    pub fn from_root(root: String) -> (s: Storage)
        ensures
            s.root_path() == root@,
    {
        Storage { root }
    }

    /// The text of the root directory of the storage.
    pub closed spec fn root_path(&self) -> Seq<char> {
        self.root@
    }

    /// The root directory of the storage.
    pub fn root(&self) -> (r: &String)
        ensures
            r@ == self.root_path(),
    {
        &self.root
    }

    /// Get the path to the file that stores places retrieved
    /// from the geocoding API that are saved by the user.
    pub fn places(&self) -> (path: String)
        ensures
            path@ == joined_path(self.root_path(), places_file()),
    {
        places_path(self.root.as_str())
    }
}

} // verus!
