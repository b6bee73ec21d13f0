use vstd::prelude::*;

use crate::config::{default_version, keys_unique, lemma_map_of_unique, map_of, Config};
use crate::dispatch::{hook_script, script_of};
use crate::hook_name::{is_hook_name, is_valid_hook_name};

verus! {

/// Why a change to the hooks was refused.
#[derive(PartialEq, Eq, Structural, Clone, Copy, Debug)]
pub enum SyncError {
    /// The name is not one of the recognized hook events.
    InvalidHookName,
}

/// The hook files that a configuration calls for: one per bound hook name,
/// holding the generated script for that name.
pub open spec fn hook_files(c: Config) -> Map<Seq<char>, Seq<char>> {
    Map::new(|n: Seq<char>| c.hook_map().contains_key(n), |n: Seq<char>| script_of(n))
}

/// The hook directory, as file name to content, after `writes` were
/// written in turn.
pub open spec fn after_writes(
    dir: Map<Seq<char>, Seq<char>>,
    writes: Seq<(Seq<char>, Seq<char>)>,
) -> Map<Seq<char>, Seq<char>> {
    dir.union_prefer_right(map_of(writes))
}

/// The hook directory after the files named in `names` were deleted;
/// deleting a file that is not there changes nothing.
pub open spec fn after_deletes(
    dir: Map<Seq<char>, Seq<char>>,
    names: Seq<Seq<char>>,
) -> Map<Seq<char>, Seq<char>> {
    dir.remove_keys(names.to_set())
}

/// The view of a list of files to write.
pub open spec fn writes_view(v: Seq<(String, String)>) -> Seq<(Seq<char>, Seq<char>)> {
    v.map_values(|p: (String, String)| (p.0@, p.1@))
}

/// The view of a list of names.
pub open spec fn names_view(v: Seq<String>) -> Seq<Seq<char>> {
    v.map_values(|s: String| s@)
}

/// What initialization leaves: the existing configuration, or a fresh one
/// with no hooks and the default version.
pub open spec fn init_result(existing: Option<Config>, r: Config) -> bool {
    match existing {
        Some(c) => r == c,
        None => r.hook_map() == Map::<Seq<char>, Seq<char>>::empty() && r.version@
            == default_version(),
    }
}

/// The configuration after initialization: an existing one is kept as it
/// is, and a fresh one is made only where none exists yet.
pub fn init(existing: Option<Config>) -> (r: Config)
    requires
        existing matches Some(c) ==> c.wf(),
    ensures
        r.wf(),
        init_result(existing, r),
{
    match existing {
        Some(c) => c,
        None => Config::default(),
    }
}

/// Binds `hook_name` to `command` in `config` and returns the hook file to
/// write (its name and text). A name outside the recognized hook events is
/// refused before anything changes.
pub fn add_hook(config: &mut Config, hook_name: &str, command: &str) -> (r: Result<
    (String, String),
    SyncError,
>)
    requires
        old(config).wf(),
    ensures
        final(config).wf(),
        r is Ok <==> is_hook_name(hook_name@),
        match r {
            Ok(file) => {
                &&& file.0@ == hook_name@
                &&& file.1@ == script_of(hook_name@)
                &&& final(config).hook_map() == old(config).hook_map().insert(hook_name@, command@)
                &&& final(config).hook_map()[hook_name@] == command@
                &&& final(config).version == old(config).version
            },
            Err(e) => e == SyncError::InvalidHookName && *final(config) == *old(config),
        },
{
    if !is_valid_hook_name(hook_name) {
        return Err(SyncError::InvalidHookName);
    }
    config.add_hook(hook_name.to_owned(), command.to_owned());
    Ok((hook_name.to_owned(), hook_script(hook_name)))
}

/// Unbinds `hook_name` in `config`. Returns the name of the hook file to
/// delete, or `None` when the name was not bound; then nothing changes.
pub fn remove_hook(config: &mut Config, hook_name: &str) -> (r: Option<String>)
    requires
        old(config).wf(),
    ensures
        final(config).wf(),
        r is Some <==> old(config).hook_map().contains_key(hook_name@),
        match r {
            Some(n) => {
                &&& n@ == hook_name@
                &&& final(config).hook_map() == old(config).hook_map().remove(hook_name@)
                &&& !final(config).hook_map().contains_key(hook_name@)
                &&& final(config).version == old(config).version
            },
            None => *final(config) == *old(config),
        },
{
    proof {
        lemma_map_of_unique(config.bindings());
    }
    if config.get_hook(hook_name).is_none() {
        return None;
    }
    config.remove_hook(hook_name);
    Some(hook_name.to_owned())
}

/// The bindings to show, as name and command pairs.
pub fn list_hooks(config: &Config) -> (r: Vec<(String, String)>)
    requires
        config.wf(),
    ensures
        keys_unique(writes_view(r@)),
        map_of(writes_view(r@)) == config.hook_map(),
{
    let r = config.entries();
    assert(writes_view(r@) == config.bindings());
    r
}

/// The hook files to (re)generate: one for each bound hook.
pub fn install_hooks(config: &Config) -> (r: Vec<(String, String)>)
    requires
        config.wf(),
    ensures
        keys_unique(writes_view(r@)),
        map_of(writes_view(r@)) == hook_files(*config),
{
    let names = config.hook_names_bound();
    let ghost b = config.bindings();
    let mut r: Vec<(String, String)> = Vec::new();
    let mut i: usize = 0;
    while i < names.len()
        invariant
            i <= names@.len(),
            names@.len() == b.len(),
            forall|j: int| 0 <= j < names@.len() ==> #[trigger] names@[j]@ == b[j].0,
            r@.len() == i,
            forall|j: int|
                0 <= j < i ==> (#[trigger] r@[j]).0@ == b[j].0 && r@[j].1@ == script_of(b[j].0),
        decreases names@.len() - i,
    {
        let text = hook_script(names[i].as_str());
        r.push((names[i].clone(), text));
        i = i + 1;
    }
    proof {
        let w = writes_view(r@);
        assert(w.len() == b.len());
        assert(keys_unique(w)) by {
            assert forall|x: int, y: int| 0 <= x < y < w.len() implies w[x].0 != w[y].0 by {
                assert(w[x].0 == b[x].0 && w[y].0 == b[y].0);
            }
        }
        lemma_map_of_unique(w);
        lemma_map_of_unique(b);
        assert(map_of(w) =~= hook_files(*config)) by {
            assert forall|n: Seq<char>| #[trigger] map_of(w).contains_key(n) implies hook_files(
                *config,
            ).contains_key(n) && map_of(w)[n] == script_of(n) by {
                let j = choose|j: int| 0 <= j < w.len() && #[trigger] w[j].0 == n;
                assert(b[j].0 == n);
            }
            assert forall|n: Seq<char>| #[trigger] hook_files(*config).contains_key(n) implies map_of(
                w,
            ).contains_key(n) by {
                let j = choose|j: int| 0 <= j < b.len() && #[trigger] b[j].0 == n;
                assert(w[j].0 == n);
            }
        }
    }
    r
}

/// The hook files to delete: one for each bound hook. The configuration
/// itself is left as it is.
pub fn uninstall_hooks(config: &Config) -> (r: Vec<String>)
    requires
        config.wf(),
    ensures
        names_view(r@).to_set() == config.hook_map().dom(),
{
    let r = config.hook_names_bound();
    proof {
        let b = config.bindings();
        lemma_map_of_unique(b);
        let s = names_view(r@);
        assert(s.to_set() =~= config.hook_map().dom()) by {
            assert forall|n: Seq<char>| #[trigger] s.to_set().contains(n) implies config.hook_map().contains_key(n) by {
                let j = choose|j: int| 0 <= j < s.len() && s[j] == n;
                assert(b[j].0 == n);
            }
            assert forall|n: Seq<char>| #[trigger] config.hook_map().contains_key(n) implies s.to_set().contains(n) by {
                let j = choose|j: int| 0 <= j < b.len() && #[trigger] b[j].0 == n;
                assert(s[j] == n);
            }
        }
    }
    r
}

/// Initializing twice leaves the configuration that initializing once
/// left: the second run never resets it.
pub proof fn lemma_init_idempotent(existing: Option<Config>, first: Config, second: Config)
    requires
        init_result(existing, first),
        init_result(Some(first), second),
    ensures
        second == first,
{
}

/// After a hook is added, the configuration binds its name to the command,
/// and writing the returned file puts the generated script at that name in
/// the hook directory, whatever the directory held.
pub proof fn lemma_add_binds_and_writes(
    before: Config,
    after: Config,
    name: Seq<char>,
    command: Seq<char>,
    file: (Seq<char>, Seq<char>),
    dir: Map<Seq<char>, Seq<char>>,
)
    requires
        after.hook_map() == before.hook_map().insert(name, command),
        file.0 == name,
        file.1 == script_of(name),
    ensures
        after.hook_map().contains_key(name),
        after.hook_map()[name] == command,
        after_writes(dir, seq![file]).contains_key(name),
        after_writes(dir, seq![file])[name] == script_of(name),
{
    assert(seq![file].drop_last() =~= Seq::<(Seq<char>, Seq<char>)>::empty());
}

/// After a bound hook is removed, the configuration no longer holds its
/// name, and deleting the returned file leaves none at that name.
pub proof fn lemma_remove_unbinds_and_deletes(
    before: Config,
    after: Config,
    name: Seq<char>,
    dir: Map<Seq<char>, Seq<char>>,
)
    requires
        after.hook_map() == before.hook_map().remove(name),
    ensures
        !after.hook_map().contains_key(name),
        !after_deletes(dir, seq![name]).contains_key(name),
{
    assert(seq![name].to_set().contains(name)) by {
        assert(seq![name][0] == name);
    }
}

/// Uninstalling and then installing leaves the hook directory as installing
/// alone would: every file that the configuration calls for is back, with
/// its generated script; the configuration is only read.
pub proof fn lemma_reinstall_restores(
    c: Config,
    dir: Map<Seq<char>, Seq<char>>,
    deleted: Seq<Seq<char>>,
    written: Seq<(Seq<char>, Seq<char>)>,
)
    requires
        c.wf(),
        deleted.to_set() == c.hook_map().dom(),
        map_of(written) == hook_files(c),
    ensures
        after_writes(after_deletes(dir, deleted), written) == after_writes(dir, written),
        forall|n: Seq<char>|
            c.hook_map().contains_key(n) ==> after_writes(after_deletes(dir, deleted), written).contains_key(n)
                && after_writes(after_deletes(dir, deleted), written)[n] == script_of(n),
{
    assert(after_writes(after_deletes(dir, deleted), written) =~= after_writes(dir, written));
}

} // verus!
