use vstd::prelude::*;

verus! {

/// What `str::trim` returns for the characters `s`.
pub uninterp spec fn trimmed(s: Seq<char>) -> Seq<char>;

/// Relies on `str::trim`: the text without its leading and trailing
/// whitespace, which depends on the characters alone.
#[verifier::external_body]
fn trim_text(s: &str) -> (r: String)
    ensures
        r@ == trimmed(s@),
{
    s.trim().to_string()
}

/// Why the repository could not be located.
#[derive(PartialEq, Eq, Structural, Clone, Copy, Debug)]
pub enum GitError {
    /// The current directory is not inside a repository.
    NotARepository,
}

/// The hook directory below the repository root `root`.
pub open spec fn hooks_dir_of(root: Seq<char>) -> Seq<char> {
    root + "/.git/hooks"@
}

/// The path of the hook file `name` below the repository root `root`.
pub open spec fn hook_path_of(root: Seq<char>, name: Seq<char>) -> Seq<char> {
    hooks_dir_of(root) + "/"@ + name
}

/// The repository locator: reads what the version-control binary answered
/// and derives the paths that the hook files live at.
pub struct Git;

impl Git {
    /// The repository root from the answer to `rev-parse --show-toplevel`:
    /// its trimmed output when the query succeeded.
    pub fn get_git_root(succeeded: bool, stdout: &str) -> (r: Result<String, GitError>)
        ensures
            r is Ok <==> succeeded,
            match r {
                Ok(root) => root@ == trimmed(stdout@),
                Err(e) => e == GitError::NotARepository,
            },
    {
        if !succeeded {
            return Err(GitError::NotARepository);
        }
        Ok(trim_text(stdout))
    }

    /// A configuration value from the answer to `config --get <key>`: its
    /// trimmed output when the key is set, else nothing.
    pub fn get_config(succeeded: bool, stdout: &str) -> (r: Option<String>)
        ensures
            r is Some <==> succeeded,
            match r {
                Some(v) => v@ == trimmed(stdout@),
                None => true,
            },
    {
        if succeeded {
            Some(trim_text(stdout))
        } else {
            None
        }
    }

    /// The hook directory of the repository at `git_root`.
    pub fn get_hooks_dir(git_root: &str) -> (r: String)
        ensures
            r@ == hooks_dir_of(git_root@),
    {
        let mut r = git_root.to_owned();
        r.append("/.git/hooks");
        r
    }

    /// The path of the hook file for `hook_name` in the repository at
    /// `git_root`.
    pub fn get_hook_path(git_root: &str, hook_name: &str) -> (r: String)
        ensures
            r@ == hook_path_of(git_root@, hook_name@),
    {
        let mut r = Git::get_hooks_dir(git_root);
        r.append("/");
        r.append(hook_name);
        r
    }
}

} // verus!
