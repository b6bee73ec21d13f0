use vstd::prelude::*;

verus! {

/// The mapping that a sequence of bindings denotes: each binding is
/// inserted in turn, so a later binding of a name overrides an earlier one.
pub open spec fn map_of(s: Seq<(Seq<char>, Seq<char>)>) -> Map<Seq<char>, Seq<char>>
    decreases s.len(),
{
    if s.len() == 0 {
        Map::empty()
    } else {
        map_of(s.drop_last()).insert(s.last().0, s.last().1)
    }
}

/// No hook name is bound twice in `s`.
pub open spec fn keys_unique(s: Seq<(Seq<char>, Seq<char>)>) -> bool {
    forall|i: int, j: int| 0 <= i < j < s.len() ==> s[i].0 != s[j].0
}

/// With unique names, the mapping holds exactly the bindings of `s`, one
/// key per binding.
pub proof fn lemma_map_of_unique(s: Seq<(Seq<char>, Seq<char>)>)
    requires
        keys_unique(s),
    ensures
        forall|k: Seq<char>|
            map_of(s).contains_key(k) <==> exists|i: int| 0 <= i < s.len() && #[trigger] s[i].0 == k,
        forall|i: int| 0 <= i < s.len() ==> #[trigger] map_of(s)[s[i].0] == s[i].1,
        map_of(s).dom().finite(),
        map_of(s).dom().len() == s.len(),
    decreases s.len(),
{
    if s.len() > 0 {
        let p = s.drop_last();
        assert(keys_unique(p));
        lemma_map_of_unique(p);
        let last = s.last();
        assert forall|k: Seq<char>|
            map_of(s).contains_key(k) <==> exists|i: int| 0 <= i < s.len() && #[trigger] s[i].0 == k
        by {
            if map_of(s).contains_key(k) {
                if k == last.0 {
                    assert(s[s.len() - 1].0 == k);
                } else {
                    let i = choose|i: int| 0 <= i < p.len() && #[trigger] p[i].0 == k;
                    assert(s[i].0 == k);
                }
            }
            if exists|i: int| 0 <= i < s.len() && #[trigger] s[i].0 == k {
                let i = choose|i: int| 0 <= i < s.len() && #[trigger] s[i].0 == k;
                if i < s.len() - 1 {
                    assert(p[i].0 == k);
                }
            }
        }
        assert forall|i: int| 0 <= i < s.len() implies #[trigger] map_of(s)[s[i].0] == s[i].1 by {
            if i < s.len() - 1 {
                assert(p[i] == s[i]);
                assert(s[i].0 != last.0);
            }
        }
        assert(!map_of(p).contains_key(last.0)) by {
            if map_of(p).contains_key(last.0) {
                let i = choose|i: int| 0 <= i < p.len() && #[trigger] p[i].0 == last.0;
                assert(s[i].0 == s[s.len() - 1].0);
            }
        }
    }
}

/// The configuration of the hooks: a schema version and a binding of hook
/// names to shell commands, at most one command per name (see `wf`).
pub struct Config {
    pub hooks: Vec<(String, String)>,
    pub version: String,
}

impl Config {
    /// The bindings as abstract pairs, in storage order.
    pub open spec fn bindings(&self) -> Seq<(Seq<char>, Seq<char>)> {
        self.hooks@.map_values(|p: (String, String)| (p.0@, p.1@))
    }

    /// The mapping from hook name to command.
    pub open spec fn hook_map(&self) -> Map<Seq<char>, Seq<char>> {
        map_of(self.bindings())
    }

    /// Well-formed: no hook name is bound twice.
    pub open spec fn wf(&self) -> bool {
        keys_unique(self.bindings())
    }

    fn find(&self, hook_name: &str) -> (r: Option<usize>)
        ensures
            match r {
                Some(i) => i < self.bindings().len() && self.bindings()[i as int].0 == hook_name@,
                None => forall|i: int|
                    0 <= i < self.bindings().len() ==> #[trigger] self.bindings()[i].0 != hook_name@,
            },
    {
        let wanted = hook_name.to_owned();
        let mut i: usize = 0;
        while i < self.hooks.len()
            invariant
                i <= self.hooks@.len(),
                wanted@ == hook_name@,
                self.bindings().len() == self.hooks@.len(),
                forall|j: int| 0 <= j < i ==> #[trigger] self.bindings()[j].0 != hook_name@,
            decreases self.hooks@.len() - i,
        {
            if self.hooks[i].0 == wanted {
                assert(self.bindings()[i as int].0 == self.hooks@[i as int].0@);
                return Some(i);
            }
            assert(self.bindings()[i as int].0 == self.hooks@[i as int].0@);
            i = i + 1;
        }
        None
    }

    /// Binds `hook_name` to `command`, replacing any earlier binding of it.
    pub fn add_hook(&mut self, hook_name: String, command: String)
        requires
            old(self).wf(),
        ensures
            final(self).wf(),
            final(self).hook_map() == old(self).hook_map().insert(hook_name@, command@),
            final(self).version == old(self).version,
    {
        let ghost before = self.bindings();
        let ghost pair = (hook_name@, command@);
        proof {
            lemma_map_of_unique(before);
        }
        match self.find(hook_name.as_str()) {
            Some(i) => {
                self.hooks.set(i, (hook_name, command));
                assert(self.bindings() =~= before.update(i as int, pair));
                let ghost after = self.bindings();
                assert(keys_unique(after));
                proof {
                    lemma_map_of_unique(after);
                }
                assert(self.hook_map() =~= map_of(before).insert(pair.0, pair.1)) by {
                    assert forall|k: Seq<char>|
                        #[trigger] self.hook_map().contains_key(k) implies map_of(before).insert(pair.0, pair.1).contains_key(k)
                    by {
                        let j = choose|j: int| 0 <= j < after.len() && #[trigger] after[j].0 == k;
                        if j != i {
                            assert(before[j].0 == k);
                        }
                    }
                    assert forall|k: Seq<char>|
                        #[trigger] map_of(before).insert(pair.0, pair.1).contains_key(k) implies self.hook_map().contains_key(k)
                        && self.hook_map()[k] == map_of(before).insert(pair.0, pair.1)[k]
                    by {
                        if k == pair.0 {
                            assert(after[i as int].0 == k);
                        } else {
                            let j = choose|j: int| 0 <= j < before.len() && #[trigger] before[j].0 == k;
                            assert(after[j] == before[j]);
                        }
                    }
                }
            },
            None => {
                self.hooks.push((hook_name, command));
                assert(self.bindings() =~= before.push(pair));
                assert(self.bindings().drop_last() =~= before);
            },
        }
    }

    /// Removes the binding of `hook_name`; the result says whether there was one.
    pub fn remove_hook(&mut self, hook_name: &str) -> (r: bool)
        requires
            old(self).wf(),
        ensures
            final(self).wf(),
            r == old(self).hook_map().contains_key(hook_name@),
            final(self).hook_map() == old(self).hook_map().remove(hook_name@),
            final(self).version == old(self).version,
    {
        let ghost before = self.bindings();
        proof {
            lemma_map_of_unique(before);
        }
        match self.find(hook_name) {
            Some(i) => {
                self.hooks.remove(i);
                let ghost after = self.bindings();
                assert(after =~= before.remove(i as int));
                assert(keys_unique(after));
                proof {
                    lemma_map_of_unique(after);
                }
                assert(self.hook_map() =~= map_of(before).remove(hook_name@)) by {
                    assert forall|k: Seq<char>|
                        #[trigger] self.hook_map().contains_key(k) implies map_of(before).remove(hook_name@).contains_key(k)
                    by {
                        let j = choose|j: int| 0 <= j < after.len() && #[trigger] after[j].0 == k;
                        if j < i {
                            assert(before[j].0 == k);
                        } else {
                            assert(before[j + 1].0 == k);
                        }
                    }
                    assert forall|k: Seq<char>|
                        #[trigger] map_of(before).remove(hook_name@).contains_key(k) implies self.hook_map().contains_key(k)
                        && self.hook_map()[k] == map_of(before)[k]
                    by {
                        let j = choose|j: int| 0 <= j < before.len() && #[trigger] before[j].0 == k;
                        if j < i {
                            assert(after[j] == before[j]);
                        } else {
                            assert(j != i);
                            assert(after[j - 1] == before[j]);
                        }
                    }
                }
                assert(before[i as int].0 == hook_name@);
                true
            },
            None => {
                assert(self.hook_map() =~= map_of(before).remove(hook_name@));
                false
            },
        }
    }

    /// The command bound to `hook_name`, if any.
    pub fn get_hook(&self, hook_name: &str) -> (r: Option<&String>)
        requires
            self.wf(),
        ensures
            match r {
                Some(c) => self.hook_map().contains_key(hook_name@) && self.hook_map()[hook_name@] == c@,
                None => !self.hook_map().contains_key(hook_name@),
            },
    {
        proof {
            lemma_map_of_unique(self.bindings());
        }
        match self.find(hook_name) {
            Some(i) => {
                assert(self.bindings()[i as int].1 == self.hooks@[i as int].1@);
                Some(&self.hooks[i].1)
            },
            None => None,
        }
    }

    /// Whether any hook is bound.
    pub fn has_hooks(&self) -> (r: bool)
        requires
            self.wf(),
        ensures
            r == (self.hook_map().dom().len() > 0),
    {
        proof {
            lemma_map_of_unique(self.bindings());
        }
        self.hooks.len() > 0
    }

    /// The number of bound hooks.
    pub fn hook_count(&self) -> (r: usize)
        requires
            self.wf(),
        ensures
            r == self.hook_map().dom().len(),
    {
        proof {
            lemma_map_of_unique(self.bindings());
        }
        self.hooks.len()
    }
}

/// The schema version that a fresh configuration carries.
pub open spec fn default_version() -> Seq<char> {
    "0.1.0"@
}

impl Default for Config {
    /// A fresh configuration: no hooks, the default schema version.
    fn default() -> (r: Self)
        ensures
            r.wf(),
            r.hook_map() == Map::<Seq<char>, Seq<char>>::empty(),
            r.version@ == default_version(),
    {
        let r = Config { hooks: Vec::new(), version: String::from_str("0.1.0") };
        assert(r.bindings() =~= Seq::<(Seq<char>, Seq<char>)>::empty());
        r
    }
}

impl Config {
    /// Builds a configuration from the bindings of a stored document, in
    /// order; a later binding of a name overrides an earlier one.
    pub fn from_entries(version: String, entries: Vec<(String, String)>) -> (r: Config)
        ensures
            r.wf(),
            r.version == version,
            r.hook_map() == map_of(entries@.map_values(|p: (String, String)| (p.0@, p.1@))),
    {
        let ghost src = entries@.map_values(|p: (String, String)| (p.0@, p.1@));
        let mut r = Config { hooks: Vec::new(), version };
        assert(r.bindings() =~= Seq::<(Seq<char>, Seq<char>)>::empty());
        assert(src.take(0) =~= Seq::<(Seq<char>, Seq<char>)>::empty());
        let mut i: usize = 0;
        while i < entries.len()
            invariant
                i <= entries@.len(),
                src == entries@.map_values(|p: (String, String)| (p.0@, p.1@)),
                r.wf(),
                r.version == version,
                r.hook_map() == map_of(src.take(i as int)),
            decreases entries@.len() - i,
        {
            let name = entries[i].0.clone();
            let command = entries[i].1.clone();
            r.add_hook(name, command);
            assert(src.take(i + 1).drop_last() =~= src.take(i as int));
            i = i + 1;
        }
        assert(src.take(i as int) =~= src);
        r
    }

    /// The bindings, in storage order, as name and command pairs.
    pub fn entries(&self) -> (r: Vec<(String, String)>)
        ensures
            r@.map_values(|p: (String, String)| (p.0@, p.1@)) == self.bindings(),
    {
        let mut r: Vec<(String, String)> = Vec::new();
        let mut i: usize = 0;
        while i < self.hooks.len()
            invariant
                i <= self.hooks@.len(),
                r@.len() == i,
                forall|j: int|
                    0 <= j < i ==> (#[trigger] r@[j]).0@ == self.bindings()[j].0 && r@[j].1@
                        == self.bindings()[j].1,
            decreases self.hooks@.len() - i,
        {
            let name = self.hooks[i].0.clone();
            let command = self.hooks[i].1.clone();
            r.push((name, command));
            i = i + 1;
        }
        assert(r@.map_values(|p: (String, String)| (p.0@, p.1@)) =~= self.bindings());
        r
    }

    /// The names of the bound hooks, in storage order.
    pub fn hook_names_bound(&self) -> (r: Vec<String>)
        ensures
            r@.len() == self.bindings().len(),
            forall|i: int| 0 <= i < r@.len() ==> #[trigger] r@[i]@ == self.bindings()[i].0,
    {
        let mut r: Vec<String> = Vec::new();
        let mut i: usize = 0;
        while i < self.hooks.len()
            invariant
                i <= self.hooks@.len(),
                r@.len() == i,
                forall|j: int| 0 <= j < i ==> #[trigger] r@[j]@ == self.bindings()[j].0,
            decreases self.hooks@.len() - i,
        {
            r.push(self.hooks[i].0.clone());
            i = i + 1;
        }
        r
    }
}

/// Saving a configuration as its version and list of bindings and loading
/// it back gives the same configuration: a configuration built from the
/// stored bindings has the same mapping and the same version.
pub proof fn lemma_entries_round_trip(c: Config, stored: Seq<(Seq<char>, Seq<char>)>, loaded: Config)
    requires
        c.wf(),
        stored == c.bindings(),
        loaded.hook_map() == map_of(stored),
        loaded.version == c.version,
    ensures
        loaded.hook_map() == c.hook_map(),
        loaded.version@ == c.version@,
{
}

} // verus!
