//! Named connection profiles and how a start-up request resolves against them.
use crate::session::same_text;
use vstd::prelude::*;

verus! {

/// Where to connect, and the CA certificate to trust, if any.
#[derive(Clone, Debug)]
pub struct ProfileEntry {
    pub url: String,
    pub tls_ca: Option<String>,
}

pub struct EntryView {
    pub url: Seq<char>,
    pub tls_ca: Option<Seq<char>>,
}

pub open spec fn opt_view(s: Option<String>) -> Option<Seq<char>> {
    match s {
        Some(t) => Some(t@),
        None => None,
    }
}

impl View for ProfileEntry {
    type V = EntryView;

    open spec fn view(&self) -> EntryView {
        EntryView { url: self.url@, tls_ca: opt_view(self.tls_ca) }
    }
}

/// The stored profiles, by name, in ascending name order.
#[derive(Clone, Debug)]
pub struct ProfilesFile {
    pub profiles: Vec<(String, ProfileEntry)>,
    pub version: u32,
}

impl ProfilesFile {
    /// The profile names, in order.
    pub open spec fn names(&self) -> Seq<Seq<char>> {
        self.profiles@.map_values(|p: (String, ProfileEntry)| p.0@)
    }

    /// Names are unique.
    pub open spec fn wf(&self) -> bool {
        forall|i: int, j: int| 0 <= i < j < self.profiles@.len() ==> self.profiles@[i].0@ != self.profiles@[j].0@
    }

    /// The entry stored under `name`.
    pub open spec fn entry_of(&self, name: Seq<char>) -> Option<EntryView> {
        if exists|i: int| 0 <= i < self.profiles@.len() && self.profiles@[i].0@ == name {
            let i = choose|i: int| 0 <= i < self.profiles@.len() && self.profiles@[i].0@ == name;
            Some(self.profiles@[i].1@)
        } else {
            None
        }
    }

    /// No profiles.
    pub fn new() -> (r: Self)
        ensures
            r.profiles@.len() == 0,
            r.version == 0,
            r.wf(),
    {
        ProfilesFile { profiles: Vec::new(), version: 0 }
    }

    /// Stores `entry` under `name`, replacing the entry of that name if there is one.
    pub fn upsert(&mut self, name: String, entry: ProfileEntry)
        requires
            old(self).wf(),
        ensures
            final(self).wf(),
            final(self).version == old(self).version,
            final(self).entry_of(name@) == Some(entry@),
            forall|n: Seq<char>| n != name@ ==> final(self).entry_of(n) == old(self).entry_of(n),
    {
        let ghost before = self.profiles@;
        match self.find(name.as_str()) {
            Some(i) => {
                let ghost e = entry@;
                self.profiles.set(i, (name, entry));
                proof {
                    assert(self.profiles@[i as int].0@ == before[i as int].0@);
                    assert forall|a: int, b: int| 0 <= a < b < self.profiles@.len() implies
                        self.profiles@[a].0@ != self.profiles@[b].0@ by {
                        assert(self.profiles@[a].0@ == before[a].0@);
                        assert(self.profiles@[b].0@ == before[b].0@);
                    }
                    assert(self.profiles@[i as int].1@ == e);
                    assert(self.entry_of(self.profiles@[i as int].0@) == Some(e)) by {
                        let k = choose|k: int| 0 <= k < self.profiles@.len() && self.profiles@[k].0@ == self.profiles@[i as int].0@;
                        if k < i {
                            assert(self.profiles@[k].0@ != self.profiles@[i as int].0@);
                        } else if k > i {
                            assert(self.profiles@[i as int].0@ != self.profiles@[k].0@);
                        }
                    }
                    assert forall|n: Seq<char>| n != name@ implies self.entry_of(n) == old(self).entry_of(n) by {
                        assert forall|k: int| 0 <= k < self.profiles@.len() implies
                            (self.profiles@[k].0@ == n <==> before[k].0@ == n)
                            && (self.profiles@[k].0@ == n ==> self.profiles@[k].1@ == before[k].1@) by {
                            if k == i {
                                assert(before[k].0@ == name@);
                            }
                        }
                    }
                }
            },
            None => {
                let ghost e = entry@;
                let ghost nm = name@;
                self.profiles.push((name, entry));
                proof {
                    let last = before.len() as int;
                    assert(self.profiles@[last].0@ == nm);
                    assert forall|a: int, b: int| 0 <= a < b < self.profiles@.len() implies
                        self.profiles@[a].0@ != self.profiles@[b].0@ by {
                        if b < last {
                            assert(self.profiles@[a] == before[a] && self.profiles@[b] == before[b]);
                        } else {
                            assert(self.profiles@[a] == before[a]);
                        }
                    }
                    assert(self.entry_of(nm) == Some(e)) by {
                        let k = choose|k: int| 0 <= k < self.profiles@.len() && self.profiles@[k].0@ == nm;
                        if k < last {
                            assert(self.profiles@[k] == before[k]);
                        }
                    }
                    assert forall|n: Seq<char>| n != nm implies self.entry_of(n) == old(self).entry_of(n) by {
                        assert forall|k: int| 0 <= k < before.len() implies self.profiles@[k] == before[k] by {}
                        if exists|k: int| 0 <= k < before.len() && before[k].0@ == n {
                            let k = choose|k: int| 0 <= k < before.len() && before[k].0@ == n;
                            assert(self.profiles@[k].0@ == n);
                        }
                        if exists|k: int| 0 <= k < self.profiles@.len() && self.profiles@[k].0@ == n {
                            let k = choose|k: int| 0 <= k < self.profiles@.len() && self.profiles@[k].0@ == n;
                            assert(k < last);
                            assert(before[k].0@ == n);
                        }
                    }
                }
            },
        }
    }

    /// Index of the profile called `name`.
    pub fn find(&self, name: &str) -> (r: Option<usize>)
        requires
            self.wf(),
        ensures
            r matches Some(i) ==> i < self.profiles@.len() && self.profiles@[i as int].0@ == name@,
            r is None ==> forall|i: int| 0 <= i < self.profiles@.len() ==> self.profiles@[i].0@ != name@,
            r is None <==> self.entry_of(name@) is None,
            r matches Some(i) ==> self.entry_of(name@) == Some(self.profiles@[i as int].1@),
    {
        let mut i: usize = 0;
        while i < self.profiles.len()
            invariant
                self.wf(),
                i <= self.profiles@.len(),
                forall|k: int| 0 <= k < i ==> self.profiles@[k].0@ != name@,
            decreases self.profiles@.len() - i,
        {
            if same_text(self.profiles[i].0.as_str(), name) {
                proof {
                    let j = choose|j: int| 0 <= j < self.profiles@.len() && self.profiles@[j].0@ == name@;
                    if j < i {
                        assert(self.profiles@[j].0@ != self.profiles@[i as int].0@);
                    } else if j > i {
                        assert(self.profiles@[i as int].0@ != self.profiles@[j].0@);
                    }
                }
                return Some(i);
            }
            i = i + 1;
        }
        None
    }
}

fn clone_text(s: &Option<String>) -> (r: Option<String>)
    ensures
        opt_view(r) == opt_view(*s),
{
    match s {
        Some(t) => Some(t.clone()),
        None => None,
    }
}

/// What start-up should do about profiles.
#[derive(Clone, Debug)]
pub enum ResolveProfile {
    /// Use the given URL and CA (not persisted).
    Direct(String, Option<String>),
    /// Use the stored profile's URL and CA.
    Loaded(String, Option<String>),
    /// Ask the user to pick one of these profile names.
    PromptSelect(Vec<String>),
    /// Ask the user for the details of a new profile of this name.
    PromptCreate(String),
    /// Nothing to connect to.
    Unresolved,
}

/// The inputs given at start-up.
#[derive(Clone, Debug)]
pub struct ProfileRequest {
    pub profile_name: Option<String>,
    pub url: Option<String>,
    pub tls_ca: Option<String>,
}

impl ProfileRequest {
    /// A URL is used as given; a profile name alone loads that profile (or asks
    /// to create it); with neither, the user picks among the stored profiles.
    pub fn resolve(self, pf: &ProfilesFile) -> (r: ResolveProfile)
        requires
            pf.wf(),
        ensures
            self.url matches Some(u) ==> (r matches ResolveProfile::Direct(v, t) && v@ == u@
                && opt_view(t) == opt_view(self.tls_ca)),
            self.url is None && self.profile_name is Some ==> match pf.entry_of(self.profile_name->0@) {
                Some(e) => r matches ResolveProfile::Loaded(v, t) && v@ == e.url && opt_view(t) == e.tls_ca,
                None => r matches ResolveProfile::PromptCreate(n) && n@ == self.profile_name->0@,
            },
            self.url is None && self.profile_name is None && pf.profiles@.len() == 0
                ==> r is Unresolved,
            self.url is None && self.profile_name is None && pf.profiles@.len() > 0
                ==> (r matches ResolveProfile::PromptSelect(names)
                && names@.map_values(|n: String| n@) == pf.names()),
    {
        match self.url {
            Some(u) => ResolveProfile::Direct(u, self.tls_ca),
            None => match self.profile_name {
                Some(name) => match pf.find(name.as_str()) {
                    Some(i) => {
                        let e = &pf.profiles[i].1;
                        ResolveProfile::Loaded(e.url.clone(), clone_text(&e.tls_ca))
                    },
                    None => ResolveProfile::PromptCreate(name),
                },
                None => {
                    if pf.profiles.len() == 0 {
                        ResolveProfile::Unresolved
                    } else {
                        let mut names: Vec<String> = Vec::new();
                        let mut i: usize = 0;
                        while i < pf.profiles.len()
                            invariant
                                i <= pf.profiles@.len(),
                                names@.map_values(|n: String| n@) == pf.names().subrange(0, i as int),
                            decreases pf.profiles@.len() - i,
                        {
                            let ghost before = names@.map_values(|n: String| n@);
                            names.push(pf.profiles[i].0.clone());
                            assert(names@.map_values(|n: String| n@) =~= before.push(pf.profiles@[i as int].0@));
                            i = i + 1;
                            assert(pf.names().subrange(0, i as int) =~= before.push(pf.profiles@[i - 1].0@));
                        }
                        assert(pf.names().subrange(0, i as int) =~= pf.names());
                        ResolveProfile::PromptSelect(names)
                    }
                },
            },
        }
    }
}

} // verus!
