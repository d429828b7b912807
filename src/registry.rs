use vstd::prelude::*;

use crate::order::{
    lemma_name_lt_irreflexive, lemma_name_lt_total,
    lemma_name_lt_transitive, name_less, name_lt,
};

verus! {

/// What a profile holds, as plain sequences of characters.
pub ghost struct ProfileModel {
    pub email: Seq<char>,
    pub token: Seq<char>,
    pub zone: Option<Seq<char>>,
}

/// A named bundle of credentials with an optional default zone.
pub struct Profile {
    pub email: String,
    pub token: String,
    pub zone: Option<String>,
}

/// The characters of an optional text.
pub open spec fn opt_text(o: Option<String>) -> Option<Seq<char>> {
    match o {
        Some(s) => Some(s@),
        None => None,
    }
}

impl View for Profile {
    type V = ProfileModel;

    open spec fn view(&self) -> ProfileModel {
        ProfileModel { email: self.email@, token: self.token@, zone: opt_text(self.zone) }
    }
}

/// A copy of an optional text.
pub fn copy_optional_text(s: &Option<String>) -> (r: Option<String>)
    ensures
        opt_text(r) == opt_text(*s),
{
    match s {
        Some(z) => Some(z.clone()),
        None => None,
    }
}

impl Profile {
    pub fn new(email: String, token: String, zone: Option<String>) -> (r: Profile)
        ensures
            r.email@ == email@,
            r.token@ == token@,
            opt_text(r.zone) == opt_text(zone),
    {
        Profile { email, token, zone }
    }

    /// A field-for-field copy.
    pub fn duplicate(&self) -> (r: Profile)
        ensures
            r@ == self@,
    {
        Profile {
            email: self.email.clone(),
            token: self.token.clone(),
            zone: copy_optional_text(&self.zone),
        }
    }
}

/// Errors of the registry and of activation.
#[derive(Debug, PartialEq, Eq)]
pub enum ProfileError {
    /// No profile of that name is registered.
    NotFound(String),
    /// A profile of that name is already registered.
    AlreadyExists(String),
    /// Rotation was asked for while no profile is registered.
    NoProfiles,
}

impl ProfileError {
    /// The process exit status that this condition maps to.
    pub fn exit_code(&self) -> (r: i32)
        ensures
            r == (if *self is NoProfiles { 0i32 } else { 1i32 }),
    {
        match self {
            ProfileError::NoProfiles => 0,
            _ => 1,
        }
    }
}

/// Names in strictly ascending order (hence without repetition).
pub open spec fn strictly_sorted(s: Seq<Seq<char>>) -> bool {
    forall|i: int, j: int| 0 <= i < j < s.len() ==> #[trigger] name_lt(s[i], s[j])
}

/// In a strictly sorted sequence, equal names stand at equal positions.
pub proof fn lemma_sorted_distinct(s: Seq<Seq<char>>, i: int, j: int)
    requires
        strictly_sorted(s),
        0 <= i < s.len(),
        0 <= j < s.len(),
        s[i] == s[j],
    ensures
        i == j,
{
    lemma_name_lt_irreflexive(s[i]);
    if i < j {
        assert(name_lt(s[i], s[j]));
    } else if j < i {
        assert(name_lt(s[j], s[i]));
    }
}

/// The registry as a mathematical value: the profile names in ascending order,
/// the profile of each name, and the name recorded as active.
pub ghost struct ConfigModel {
    pub names: Seq<Seq<char>>,
    pub profiles: Map<Seq<char>, ProfileModel>,
    pub current: Option<Seq<char>>,
}

impl ConfigModel {
    /// The names are sorted and are exactly the keys of the profile map.
    pub open spec fn wf(self) -> bool {
        &&& strictly_sorted(self.names)
        &&& forall|k: Seq<char>| #[trigger] self.profiles.contains_key(k) <==> self.names.contains(k)
    }

    /// The active name after `name` is removed.
    pub open spec fn current_after_removal(self, name: Seq<char>) -> Option<Seq<char>> {
        if self.current == Some(name) {
            None
        } else {
            self.current
        }
    }
}

struct Entry {
    name: String,
    profile: Profile,
}

/// The root of the stored document: all profiles and the active name.
pub struct Config {
    entries: Vec<Entry>,
    current: Option<String>,
    profiles: Ghost<Map<Seq<char>, ProfileModel>>,
}

/// One line of the listing.
pub struct ListedProfile {
    pub name: String,
    pub profile: Profile,
    pub active: bool,
}

impl View for Config {
    type V = ConfigModel;

    closed spec fn view(&self) -> ConfigModel {
        ConfigModel {
            names: self.entries@.map_values(|e: Entry| e.name@),
            profiles: self.profiles@,
            current: opt_text(self.current),
        }
    }
}

impl Config {
    /// Each stored entry agrees with the profile map.
    pub closed spec fn consistent(&self) -> bool {
        forall|i: int|
            0 <= i < self.entries@.len() ==> {
                &&& self.profiles@.contains_key(#[trigger] self.entries@[i].name@)
                &&& self.profiles@[self.entries@[i].name@] == self.entries@[i].profile@
            }
    }

    pub open spec fn wf(&self) -> bool {
        &&& self@.wf()
        &&& self.consistent()
    }

    /// An empty registry with no active profile.
    pub fn new() -> (r: Config)
        ensures
            r.wf(),
            r@.names == Seq::<Seq<char>>::empty(),
            r@.profiles == Map::<Seq<char>, ProfileModel>::empty(),
            r@.current == None::<Seq<char>>,
    {
        let r = Config { entries: Vec::new(), current: None, profiles: Ghost(Map::empty()) };
        assert(r@.names =~= Seq::<Seq<char>>::empty());
        r
    }

    pub fn len(&self) -> (r: usize)
        ensures
            r == self@.names.len(),
    {
        self.entries.len()
    }

    pub fn is_empty(&self) -> (r: bool)
        requires
            self.wf(),
        ensures
            r == (self@.names.len() == 0),
            r == (self@.profiles.dom() == Set::<Seq<char>>::empty()),
    {
        if self.entries.len() == 0 {
            assert(self@.profiles.dom() =~= Set::<Seq<char>>::empty());
            true
        } else {
            assert(self@.profiles.dom().contains(self@.names[0]));
            false
        }
    }

    /// The first position whose name is not below `name`, and whether the
    /// name stored there is `name` itself.
    fn position(&self, name: &str) -> (r: (usize, bool))
        requires
            self.wf(),
        ensures
            r.0 <= self@.names.len(),
            forall|i: int| 0 <= i < r.0 ==> name_lt(#[trigger] self@.names[i], name@),
            r.0 < self@.names.len() ==> !name_lt(self@.names[r.0 as int], name@),
            r.1 == (r.0 < self@.names.len() && self@.names[r.0 as int] == name@),
            r.1 == self@.names.contains(name@),
    {
        let n = self.entries.len();
        let mut i: usize = 0;
        while i < n
            invariant
                n == self@.names.len(),
                i <= n,
                forall|k: int| 0 <= k < i ==> name_lt(#[trigger] self@.names[k], name@),
            ensures
                i <= n,
                forall|k: int| 0 <= k < i ==> name_lt(#[trigger] self@.names[k], name@),
                i < n ==> !name_lt(self@.names[i as int], name@),
            decreases n - i,
        {
            if !name_less(self.entries[i].name.as_str(), name) {
                break;
            }
            i = i + 1;
        }
        let found = i < n && !name_less(name, self.entries[i].name.as_str());
        proof {
            lemma_name_lt_irreflexive(name@);
            if i < n {
                lemma_name_lt_total(self@.names[i as int], name@);
            }
            if self@.names.contains(name@) {
                let j = choose|j: int| 0 <= j < self@.names.len() && self@.names[j] == name@;
                if j < i {
                    lemma_name_lt_irreflexive(name@);
                } else if j > i {
                    assert(name_lt(self@.names[i as int], self@.names[j]));
                }
            }
        }
        (i, found)
    }

    pub fn contains(&self, name: &str) -> (r: bool)
        requires
            self.wf(),
        ensures
            r == self@.profiles.contains_key(name@),
    {
        self.position(name).1
    }

    /// Looks a profile up by name.
    pub fn get(&self, name: &str) -> (r: Option<&Profile>)
        requires
            self.wf(),
        ensures
            r is Some == self@.profiles.contains_key(name@),
            r is Some ==> r->0@ == self@.profiles[name@],
    {
        let (i, found) = self.position(name);
        if found {
            Some(&self.entries[i].profile)
        } else {
            None
        }
    }

    /// The recorded active name, which may name no registered profile.
    pub fn current(&self) -> (r: Option<&String>)
        ensures
            r is Some == self@.current is Some,
            r is Some ==> r->0@ == self@.current->0,
    {
        match &self.current {
            Some(c) => Some(c),
            None => None,
        }
    }

    /// Records `name` as active, whether or not a profile has that name;
    /// the profiles are untouched.
    pub fn set_current(&mut self, name: Option<String>)
        requires
            old(self).wf(),
        ensures
            final(self).wf(),
            final(self)@ == (ConfigModel { current: opt_text(name), ..old(self)@ }),
    {
        self.current = name;
    }

    /// Registers a new profile. A name that is already registered is
    /// rejected and the registry is left as it was.
    pub fn add(&mut self, name: String, profile: Profile) -> (r: Result<(), ProfileError>)
        requires
            old(self).wf(),
        ensures
            final(self).wf(),
            old(self)@.profiles.contains_key(name@) ==> {
                &&& r == Err::<(), ProfileError>(ProfileError::AlreadyExists(name))
                &&& final(self)@ == old(self)@
            },
            !old(self)@.profiles.contains_key(name@) ==> {
                &&& r is Ok
                &&& final(self)@.profiles == old(self)@.profiles.insert(name@, profile@)
                &&& final(self)@.current == old(self)@.current
            },
            final(self)@.profiles.dom() == old(self)@.profiles.dom().insert(name@),
    {
        let (p, found) = self.position(name.as_str());
        if found {
            proof {
                assert(self@.profiles.dom() =~= self@.profiles.dom().insert(name@));
            }
            return Err(ProfileError::AlreadyExists(name));
        }
        let ghost old_names = self@.names;
        let ghost old_map = self.profiles@;
        let ghost old_entries = self.entries@;
        let ghost old_model = self@;
        assert(old_model.wf());
        let ghost key = name@;
        let ghost pm = profile@;
        proof {
            if p < old_names.len() {
                lemma_name_lt_total(old_names[p as int], key);
            }
        }
        self.entries.insert(p, Entry { name, profile });
        self.profiles = Ghost(old_map.insert(key, pm));
        proof {
            let names = self@.names;
            assert(names =~= old_names.insert(p as int, key));
            assert forall|i: int, j: int| 0 <= i < j < names.len() implies #[trigger] name_lt(
                names[i],
                names[j],
            ) by {
                if j == p {
                    assert(names[i] == old_names[i]);
                } else if i == p {
                    assert(names[j] == old_names[j - 1]);
                    if j - 1 > p {
                        assert(name_lt(old_names[p as int], old_names[j - 1]));
                        lemma_name_lt_transitive(key, old_names[p as int], old_names[j - 1]);
                    }
                } else if i < p && j > p {
                    assert(name_lt(old_names[i], key));
                    assert(names[j] == old_names[j - 1]);
                    if j - 1 > p {
                        assert(name_lt(old_names[p as int], old_names[j - 1]));
                        lemma_name_lt_transitive(key, old_names[p as int], old_names[j - 1]);
                    }
                    lemma_name_lt_transitive(old_names[i], key, old_names[j - 1]);
                } else if j < p {
                    assert(names[i] == old_names[i] && names[j] == old_names[j]);
                } else {
                    assert(names[i] == old_names[i - 1] && names[j] == old_names[j - 1]);
                }
            }
            assert forall|k: Seq<char>| #[trigger]
                self@.profiles.contains_key(k) <==> names.contains(k) by {
                assert(old_model.profiles.contains_key(k) == old_names.contains(k));
                if names.contains(k) && k != key {
                    let j = choose|j: int| 0 <= j < names.len() && names[j] == k;
                    if j < p {
                        assert(old_names[j] == k);
                    } else {
                        assert(old_names[j - 1] == k);
                    }
                }
                if old_names.contains(k) {
                    let j = choose|j: int| 0 <= j < old_names.len() && old_names[j] == k;
                    if j < p {
                        assert(names[j] == k);
                    } else {
                        assert(names[j + 1] == k);
                    }
                }
                if k == key {
                    assert(names[p as int] == k);
                }
            }
            assert forall|i: int| 0 <= i < self.entries@.len() implies {
                &&& self.profiles@.contains_key(#[trigger] self.entries@[i].name@)
                &&& self.profiles@[self.entries@[i].name@] == self.entries@[i].profile@
            } by {
                if i < p {
                    assert(names[i] == old_names[i]);
                    assert(self.entries@[i] == old_entries[i]);
                    lemma_name_lt_irreflexive(key);
                } else if i > p {
                    assert(names[i] == old_names[i - 1]);
                    assert(self.entries@[i] == old_entries[i - 1]);
                    if i - 1 > p {
                        assert(name_lt(old_names[p as int], old_names[i - 1]));
                        lemma_name_lt_transitive(key, old_names[p as int], old_names[i - 1]);
                    }
                    lemma_name_lt_irreflexive(key);
                }
            }
            assert(self@.profiles.dom() =~= old_map.dom().insert(key));
        }
        Ok(())
    }

    /// Unregisters a profile and hands it back. Removing the active profile
    /// clears the active name; any other removal leaves it as it was.
    pub fn remove(&mut self, name: &str) -> (r: Result<Profile, ProfileError>)
        requires
            old(self).wf(),
        ensures
            final(self).wf(),
            old(self)@.profiles.contains_key(name@) ==> {
                &&& r is Ok
                &&& r->Ok_0@ == old(self)@.profiles[name@]
                &&& final(self)@.profiles == old(self)@.profiles.remove(name@)
                &&& final(self)@.current == old(self)@.current_after_removal(name@)
            },
            !old(self)@.profiles.contains_key(name@) ==> {
                &&& r matches Err(ProfileError::NotFound(s)) && s@ == name@
                &&& final(self)@ == old(self)@
            },
            final(self)@.profiles.dom() == old(self)@.profiles.dom().remove(name@),
    {
        let (p, found) = self.position(name);
        if !found {
            proof {
                assert(self@.profiles.dom() =~= self@.profiles.dom().remove(name@));
            }
            return Err(ProfileError::NotFound(String::from_str(name)));
        }
        let ghost old_names = self@.names;
        let ghost old_map = self.profiles@;
        let ghost old_entries = self.entries@;
        let ghost old_model = self@;
        let ghost key = name@;
        assert(old_model.wf());
        let entry = self.entries.remove(p);
        self.profiles = Ghost(old_map.remove(key));
        let clear = match &self.current {
            Some(c) => *c == entry.name,
            None => false,
        };
        if clear {
            self.current = None;
        }
        proof {
            let names = self@.names;
            assert(names =~= old_names.remove(p as int));
            assert forall|i: int, j: int| 0 <= i < j < names.len() implies #[trigger] name_lt(
                names[i],
                names[j],
            ) by {
                if i < p && j < p {
                    assert(names[i] == old_names[i] && names[j] == old_names[j]);
                } else if i < p {
                    assert(names[i] == old_names[i] && names[j] == old_names[j + 1]);
                } else {
                    assert(names[i] == old_names[i + 1] && names[j] == old_names[j + 1]);
                }
            }
            assert forall|i: int| 0 <= i < old_names.len() && i != p implies old_names[i]
                != key by {
                lemma_name_lt_irreflexive(key);
                if i < p {
                    assert(name_lt(old_names[i], old_names[p as int]));
                } else {
                    assert(name_lt(old_names[p as int], old_names[i]));
                }
            }
            assert forall|k: Seq<char>| #[trigger]
                self@.profiles.contains_key(k) <==> names.contains(k) by {
                assert(old_model.profiles.contains_key(k) == old_names.contains(k));
                if names.contains(k) {
                    let j = choose|j: int| 0 <= j < names.len() && names[j] == k;
                    if j < p {
                        assert(old_names[j] == k);
                    } else {
                        assert(old_names[j + 1] == k);
                    }
                }
                if old_names.contains(k) && k != key {
                    let j = choose|j: int| 0 <= j < old_names.len() && old_names[j] == k;
                    if j < p {
                        assert(names[j] == k);
                    } else {
                        assert(names[j - 1] == k);
                    }
                }
            }
            assert forall|i: int| 0 <= i < self.entries@.len() implies {
                &&& self.profiles@.contains_key(#[trigger] self.entries@[i].name@)
                &&& self.profiles@[self.entries@[i].name@] == self.entries@[i].profile@
            } by {
                if i < p {
                    assert(self.entries@[i] == old_entries[i]);
                    assert(old_names[i] == old_entries[i].name@);
                } else {
                    assert(self.entries@[i] == old_entries[i + 1]);
                    assert(old_names[i + 1] == old_entries[i + 1].name@);
                }
            }
            assert(self@.profiles.dom() =~= old_map.dom().remove(key));
            assert(old_entries[p as int].name@ == key);
        }
        Ok(entry.profile)
    }

    /// The registered names in ascending order.
    pub fn names(&self) -> (r: Vec<String>)
        requires
            self.wf(),
        ensures
            r@.len() == self@.names.len(),
            forall|i: int| 0 <= i < r@.len() ==> #[trigger] r@[i]@ == self@.names[i],
    {
        let mut r: Vec<String> = Vec::new();
        let mut i: usize = 0;
        while i < self.entries.len()
            invariant
                i <= self@.names.len(),
                r@.len() == i,
                forall|k: int| 0 <= k < i ==> #[trigger] r@[k]@ == self@.names[k],
            decreases self@.names.len() - i,
        {
            r.push(self.entries[i].name.clone());
            i = i + 1;
        }
        r
    }

    /// Every profile in ascending order of name, each marked whether it is
    /// the active one.
    pub fn list(&self) -> (r: Vec<ListedProfile>)
        requires
            self.wf(),
        ensures
            r@.len() == self@.names.len(),
            forall|i: int|
                0 <= i < r@.len() ==> {
                    &&& (#[trigger] r@[i]).name@ == self@.names[i]
                    &&& r@[i].profile@ == self@.profiles[self@.names[i]]
                    &&& r@[i].active == (self@.current == Some(self@.names[i]))
                },
    {
        let mut r: Vec<ListedProfile> = Vec::new();
        let mut i: usize = 0;
        while i < self.entries.len()
            invariant
                self.wf(),
                i <= self@.names.len(),
                r@.len() == i,
                forall|k: int|
                    0 <= k < i ==> {
                        &&& (#[trigger] r@[k]).name@ == self@.names[k]
                        &&& r@[k].profile@ == self@.profiles[self@.names[k]]
                        &&& r@[k].active == (self@.current == Some(self@.names[k]))
                    },
            decreases self@.names.len() - i,
        {
            let e = &self.entries[i];
            let active = match &self.current {
                Some(c) => *c == e.name,
                None => false,
            };
            r.push(ListedProfile { name: e.name.clone(), profile: e.profile.duplicate(), active });
            i = i + 1;
        }
        r
    }

    /// The position of `name` among the ascending names.
    pub fn index_of(&self, name: &str) -> (r: Option<usize>)
        requires
            self.wf(),
        ensures
            r is Some == self@.names.contains(name@),
            r is Some ==> r->0 < self@.names.len() && self@.names[r->0 as int] == name@,
    {
        let (p, found) = self.position(name);
        if found {
            Some(p)
        } else {
            None
        }
    }

    /// The name at position `i` in ascending order.
    pub fn name_at(&self, i: usize) -> (r: &String)
        requires
            i < self@.names.len(),
        ensures
            r@ == self@.names[i as int],
    {
        &self.entries[i].name
    }
}

/// A change to the set of names, as a registry edit leaves it.
pub ghost enum NameEdit {
    Add(Seq<char>),
    Remove(Seq<char>),
}

/// The names after applying `edits` in order, starting from `start`.
pub open spec fn replay_names(start: Set<Seq<char>>, edits: Seq<NameEdit>) -> Set<Seq<char>>
    decreases edits.len(),
{
    if edits.len() == 0 {
        start
    } else {
        let before = replay_names(start, edits.drop_last());
        match edits.last() {
            NameEdit::Add(n) => before.insert(n),
            NameEdit::Remove(n) => before.remove(n),
        }
    }
}

/// An edit of the registry: add a profile, or remove one by name.
pub enum Edit {
    Add { name: String, profile: Profile },
    Remove(String),
}

impl View for Edit {
    type V = NameEdit;

    open spec fn view(&self) -> NameEdit {
        match self {
            Edit::Add { name, .. } => NameEdit::Add(name@),
            Edit::Remove(name) => NameEdit::Remove(name@),
        }
    }
}

/// Applies the edits in order, each as `add` or `remove` would, and reports
/// how each went.
pub fn replay(config: &mut Config, edits: &Vec<Edit>) -> (r: Vec<Result<(), ProfileError>>)
    requires
        old(config).wf(),
    ensures
        final(config).wf(),
        r@.len() == edits@.len(),
        final(config)@.profiles.dom() == replay_names(
            old(config)@.profiles.dom(),
            edits@.map_values(|e: Edit| e@),
        ),
{
    let ghost start = config@.profiles.dom();
    let mut r: Vec<Result<(), ProfileError>> = Vec::new();
    let mut i: usize = 0;
    while i < edits.len()
        invariant
            config.wf(),
            i <= edits@.len(),
            r@.len() == i,
            config@.profiles.dom() == replay_names(
                start,
                edits@.map_values(|e: Edit| e@).take(i as int),
            ),
        decreases edits@.len() - i,
    {
        let ghost views = edits@.map_values(|e: Edit| e@);
        assert(views.take(i + 1).drop_last() =~= views.take(i as int));
        let outcome = match &edits[i] {
            Edit::Add { name, profile } => config.add(name.clone(), profile.duplicate()),
            Edit::Remove(name) => match config.remove(name.as_str()) {
                Ok(_) => Ok(()),
                Err(e) => Err(e),
            },
        };
        r.push(outcome);
        i = i + 1;
    }
    assert(edits@.map_values(|e: Edit| e@).take(edits@.len() as int) =~= edits@.map_values(
        |e: Edit| e@,
    ));
    r
}

} // verus!
