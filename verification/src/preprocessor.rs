//! Path resolution for the textual preprocessor.
//!
//! The preprocessor itself reads files and splices their text, which is
//! I/O and lives outside this crate. The resolution rule lives here: an
//! absolute path stands as it is; a relative path is tried under the
//! working directory first and then under each search directory, in the
//! order they were added, taking the first candidate present on disk.

use vstd::prelude::*;
use vstd::string::StringExecFns;
use vstd::string::StrSliceExecFns;

verus! {

/// `dir`, a separator, then `path`.
pub open spec fn joined(dir: Seq<char>, path: Seq<char>) -> Seq<char> {
    dir + seq!['/'] + path
}

/// Relies on std::path::Path::exists: whether something on disk answers to
/// this path right now. The outcome depends on the state of the disk, so
/// nothing is assumed of it.
#[verifier::external_body]
fn path_present(p: &String) -> bool {
    std::path::Path::new(p.as_str()).exists()
}

pub struct Preprocessor {
    pub cwd: String,
    pub inc_dirs: Vec<String>,
}

impl Preprocessor {
    pub fn new(cwd: &str) -> (r: Preprocessor)
        ensures
            r.cwd@ == cwd@,
            r.inc_dirs@.len() == 0,
    {
        Preprocessor { cwd: String::from_str(cwd), inc_dirs: Vec::new() }
    }

    /// Appends one directory to the ordered search-path list.
    pub fn add_inc_dir(&mut self, dir: &str)
        ensures
            final(self).cwd@ == old(self).cwd@,
            final(self).inc_dirs@.len() == old(self).inc_dirs@.len() + 1,
            final(self).inc_dirs@.last()@ == dir@,
            forall|k: int|
                0 <= k < old(self).inc_dirs@.len() ==> final(self).inc_dirs@[k] == #[trigger] old(
                    self,
                ).inc_dirs@[k],
    {
        self.inc_dirs.push(String::from_str(dir));
    }

    /// Resolves a path: an absolute path is returned as given; a relative
    /// path is joined under the working directory and then under each
    /// search directory in order, and the first candidate present on disk
    /// wins. What is present depends on the disk, so the contract promises
    /// only which strings can come back, not which one does.
    #[verifier::loop_isolation(false)]
    pub fn resolve_path(&self, path: &str) -> (r: Option<String>)
        ensures
            (path@.len() > 0 && path@[0] == '/') ==> (r matches Some(p) && p@ == path@),
            r matches Some(p) ==> (p@ == path@ || p@ == joined(self.cwd@, path@) || (exists|
                k: int,
            |
                0 <= k < self.inc_dirs@.len() && p@ == joined(
                    (#[trigger] self.inc_dirs@[k])@,
                    path@,
                ))),
    {
        if !path.is_empty() && path.get_char(0) == '/' {
            return Some(String::from_str(path));
        }
        let mut candidate = self.cwd.clone();
        candidate.append("/");
        proof {
            reveal_strlit("/");
            assert(candidate@ =~= self.cwd@ + seq!['/']);
        }
        candidate.append(path);
        proof {
            assert(candidate@ =~= joined(self.cwd@, path@));
        }
        if path_present(&candidate) {
            return Some(candidate);
        }
        let mut k: usize = 0;
        while k < self.inc_dirs.len()
            invariant
                k <= self.inc_dirs@.len(),
            decreases self.inc_dirs@.len() - k,
        {
            let mut c = self.inc_dirs[k].clone();
            c.append("/");
            proof {
                reveal_strlit("/");
                assert(c@ =~= self.inc_dirs@[k as int]@ + seq!['/']);
            }
            c.append(path);
            proof {
                assert(c@ =~= joined(self.inc_dirs@[k as int]@, path@));
            }
            if path_present(&c) {
                return Some(c);
            }
            k = k + 1;
        }
        None
    }
}

} // verus!
