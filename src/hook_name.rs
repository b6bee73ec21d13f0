use vstd::prelude::*;

verus! {

/// The hook events that the version-control system recognizes, in the
/// order of its documentation.
pub open spec fn hook_names() -> Seq<Seq<char>> {
    seq![
        "applypatch-msg"@,
        "pre-applypatch"@,
        "post-applypatch"@,
        "pre-commit"@,
        "prepare-commit-msg"@,
        "commit-msg"@,
        "post-commit"@,
        "pre-rebase"@,
        "post-checkout"@,
        "post-merge"@,
        "pre-push"@,
        "pre-receive"@,
        "update"@,
        "post-receive"@,
        "post-update"@,
        "push-to-checkout"@,
        "pre-auto-gc"@,
        "post-rewrite"@,
    ]
}

/// Whether `s` names a recognized hook event.
pub open spec fn is_hook_name(s: Seq<char>) -> bool {
    hook_names().contains(s)
}

fn known_hook_names() -> (r: Vec<String>)
    ensures
        r@.len() == hook_names().len(),
        forall|i: int| 0 <= i < r@.len() ==> #[trigger] r@[i]@ == hook_names()[i],
{
    let r: Vec<String> = vec![
        String::from_str("applypatch-msg"),
        String::from_str("pre-applypatch"),
        String::from_str("post-applypatch"),
        String::from_str("pre-commit"),
        String::from_str("prepare-commit-msg"),
        String::from_str("commit-msg"),
        String::from_str("post-commit"),
        String::from_str("pre-rebase"),
        String::from_str("post-checkout"),
        String::from_str("post-merge"),
        String::from_str("pre-push"),
        String::from_str("pre-receive"),
        String::from_str("update"),
        String::from_str("post-receive"),
        String::from_str("post-update"),
        String::from_str("push-to-checkout"),
        String::from_str("pre-auto-gc"),
        String::from_str("post-rewrite"),
    ];
    r
}

/// Whether `hook_name` is one of the recognized hook events.
pub fn is_valid_hook_name(hook_name: &str) -> (r: bool)
    ensures
        r == is_hook_name(hook_name@),
{
    let names = known_hook_names();
    let wanted = hook_name.to_owned();
    let mut i: usize = 0;
    while i < names.len()
        invariant
            i <= names@.len(),
            names@.len() == hook_names().len(),
            forall|j: int| 0 <= j < names@.len() ==> #[trigger] names@[j]@ == hook_names()[j],
            wanted@ == hook_name@,
            forall|j: int| 0 <= j < i ==> hook_names()[j] != hook_name@,
        decreases names@.len() - i,
    {
        if names[i] == wanted {
            assert(hook_names()[i as int] == hook_name@);
            return true;
        }
        i = i + 1;
    }
    proof {
        if hook_names().contains(hook_name@) {
            let k = choose|k: int| 0 <= k < hook_names().len() && hook_names()[k] == hook_name@;
            assert(hook_names()[k] != hook_name@);
        }
    }
    false
}

} // verus!
