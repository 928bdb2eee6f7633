//! Layout of a knowledge-base workspace on disk: the directories a workspace
//! must hold and where its well-known subdirectories live. Paths are joined
//! with the POSIX rules of `Path::join`; whether a directory exists is asked
//! of the file system by the caller and handed in.
use vstd::prelude::*;
use crate::text::{chars_of, push_str};

verus! {

/// `Path::join` of a relative path onto `root` (POSIX): a `/` is put between
/// them unless `root` is empty or already ends with one.
pub open spec fn join_path(root: Seq<char>, rel: Seq<char>) -> Seq<char> {
    if root.len() == 0 {
        rel
    } else if root.last() == '/' {
        root + rel
    } else {
        root + seq!['/'] + rel
    }
}

/// Joins the relative path `rel` onto `root`.
pub fn join_path_str(root: &str, rel: &str) -> (out: String)
    ensures
        out@ == join_path(root@, rel@),
{
    let cs = chars_of(root);
    let mut out = String::new();
    push_str(&mut out, root);
    if cs.len() > 0 && cs[cs.len() - 1] != '/' {
        out.push('/');
    }
    push_str(&mut out, rel);
    assert(out@ =~= join_path(root@, rel@));
    out
}

/// The directories, relative to the workspace root, that a complete
/// workspace holds, in the order in which they are checked.
pub open spec fn required_dirs() -> Seq<Seq<char>> {
    seq![
        "raw/sources/documents"@,
        "wiki"@,
        ".runtime/tasks"@,
        "db"@,
        "config"@,
    ]
}

/// The entries of `dirs` whose flag in `present` is false, in order.
pub open spec fn missing_dirs(dirs: Seq<Seq<char>>, present: Seq<bool>) -> Seq<Seq<char>>
    decreases dirs.len(),
{
    if dirs.len() == 0 || present.len() == 0 {
        seq![]
    } else {
        let rest = missing_dirs(dirs.drop_last(), present.drop_last());
        if present.last() {
            rest
        } else {
            rest.push(dirs.last())
        }
    }
}

/// Creates, checks and locates the directories of a workspace.
pub struct WorkspaceService;

impl WorkspaceService {
    pub fn new() -> (s: Self) {
        WorkspaceService
    }

    /// The relative directories that `validate_workspace` checks, in order.
    pub fn required_dirs(&self) -> (out: Vec<String>)
        ensures
            out@.len() == required_dirs().len(),
            forall|i: int| 0 <= i < out@.len() ==> #[trigger] out@[i]@ == required_dirs()[i],
    {
        let mut out: Vec<String> = Vec::new();
        out.push(String::from_str("raw/sources/documents"));
        out.push(String::from_str("wiki"));
        out.push(String::from_str(".runtime/tasks"));
        out.push(String::from_str("db"));
        out.push(String::from_str("config"));
        out
    }

    /// The full paths under `root_path` of the directories that
    /// `validate_workspace` checks, in order.
    pub fn required_dir_paths(&self, root_path: &str) -> (out: Vec<String>)
        ensures
            out@.len() == required_dirs().len(),
            forall|i: int|
                0 <= i < out@.len() ==> #[trigger] out@[i]@ == join_path(
                    root_path@,
                    required_dirs()[i],
                ),
    {
        let rel = self.required_dirs();
        let mut out: Vec<String> = Vec::new();
        let mut i: usize = 0;
        while i < rel.len()
            invariant
                i <= rel@.len(),
                rel@.len() == required_dirs().len(),
                forall|k: int| 0 <= k < rel@.len() ==> #[trigger] rel@[k]@ == required_dirs()[k],
                out@.len() == i,
                forall|k: int|
                    0 <= k < i ==> #[trigger] out@[k]@ == join_path(root_path@, required_dirs()[k]),
            decreases rel.len() - i,
        {
            let p = join_path_str(root_path, rel[i].as_str());
            out.push(p);
            i = i + 1;
        }
        out
    }

    /// The required directories that are missing: `present[i]` tells whether
    /// the `i`-th directory of `required_dirs` exists.
    pub fn validate_workspace(&self, present: &Vec<bool>) -> (missing: Vec<String>)
        requires
            present@.len() == required_dirs().len(),
        ensures
            missing@.len() == missing_dirs(required_dirs(), present@).len(),
            forall|i: int|
                0 <= i < missing@.len() ==> #[trigger] missing@[i]@ == missing_dirs(
                    required_dirs(),
                    present@,
                )[i],
    {
        let rel = self.required_dirs();
        let mut missing: Vec<String> = Vec::new();
        let mut i: usize = 0;
        assert(missing_dirs(required_dirs().take(0), present@.take(0)) =~= Seq::<Seq<char>>::empty());
        while i < rel.len()
            invariant
                i <= rel@.len(),
                rel@.len() == required_dirs().len(),
                present@.len() == rel@.len(),
                forall|k: int| 0 <= k < rel@.len() ==> #[trigger] rel@[k]@ == required_dirs()[k],
                missing@.len() == missing_dirs(
                    required_dirs().take(i as int),
                    present@.take(i as int),
                ).len(),
                forall|k: int|
                    0 <= k < missing@.len() ==> #[trigger] missing@[k]@ == missing_dirs(
                        required_dirs().take(i as int),
                        present@.take(i as int),
                    )[k],
            decreases rel.len() - i,
        {
            let ghost dirs_i = required_dirs().take(i as int);
            let ghost pres_i = present@.take(i as int);
            assert(required_dirs().take(i + 1).drop_last() =~= dirs_i);
            assert(present@.take(i + 1).drop_last() =~= pres_i);
            if !present[i] {
                missing.push(rel[i].clone());
            }
            i = i + 1;
        }
        assert(required_dirs().take(rel@.len() as int) =~= required_dirs());
        assert(present@.take(rel@.len() as int) =~= present@);
        missing
    }

    /// `.runtime/tasks` under the workspace root.
    pub fn get_tasks_dir(&self, root_path: &str) -> (p: String)
        ensures
            p@ == join_path(root_path@, ".runtime/tasks"@),
    {
        join_path_str(root_path, ".runtime/tasks")
    }

    /// `raw/sources/documents` under the workspace root.
    pub fn get_documents_dir(&self, root_path: &str) -> (p: String)
        ensures
            p@ == join_path(root_path@, "raw/sources/documents"@),
    {
        join_path_str(root_path, "raw/sources/documents")
    }

    /// `raw/assets/images` under the workspace root.
    pub fn get_images_dir(&self, root_path: &str) -> (p: String)
        ensures
            p@ == join_path(root_path@, "raw/assets/images"@),
    {
        join_path_str(root_path, "raw/assets/images")
    }

    /// `versions` under the workspace root.
    pub fn get_versions_dir(&self, root_path: &str) -> (p: String)
        ensures
            p@ == join_path(root_path@, "versions"@),
    {
        join_path_str(root_path, "versions")
    }

    /// `wiki` under the workspace root.
    pub fn get_wiki_dir(&self, root_path: &str) -> (p: String)
        ensures
            p@ == join_path(root_path@, "wiki"@),
    {
        join_path_str(root_path, "wiki")
    }
}

} // verus!
