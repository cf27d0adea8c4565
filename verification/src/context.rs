//! The stored profiles, and which of them is in use.
//!
//! Profiles are kept under their names. One of them may be the stored
//! default; a name given on the command line takes its place for one run.
//! Reading and writing the file of profiles, and keeping the passwords, is
//! left to the program.

use crate::model::{ContextProfile, ContextProfileView};
use crate::names::same_text;
use vstd::prelude::*;
use vstd::string::StringExecFns;

verus! {

/// Why the profiles could not be read, changed or written.
#[derive(Clone, Debug, PartialEq, Eq)]
pub enum ContextError {
    /// The file of profiles could not be read or written.
    ReadConfig(String),
    /// The file at `path` is no list of profiles.
    ParseToml { path: String, source: String },
    /// The profiles could not be written down.
    SerializeToml(String),
    /// There is no place for the file of profiles.
    InvalidPath,
    /// The new file of profiles could not take the place of the old one.
    PersistTempFile(String),
    /// No profile is stored under this name.
    ProfileNotFound(String),
    /// The store of passwords failed.
    KeyringError(String),
}

/// The profiles under their names, and the name of the stored default.
#[derive(Clone, PartialEq, Eq)]
pub struct ContextConfig {
    pub current: Option<String>,
    /// Where a name occurs twice, the first profile under it counts.
    pub profiles: Vec<(String, ContextProfile)>,
}

/// The profiles of a list under their names, the first one where a name
/// occurs twice.
pub open spec fn profiles_by_name(entries: Seq<(Seq<char>, ContextProfileView)>) -> Map<
    Seq<char>,
    ContextProfileView,
>
    decreases entries.len(),
{
    if entries.len() == 0 {
        Map::empty()
    } else {
        profiles_by_name(entries.drop_first()).insert(entries[0].0, entries[0].1)
    }
}

/// The names of a list, in its order.
pub open spec fn names_of(entries: Seq<(Seq<char>, ContextProfileView)>) -> Seq<Seq<char>> {
    entries.map_values(|entry: (Seq<char>, ContextProfileView)| entry.0)
}

/// The map holds the first profile under a name.
proof fn lemma_first_entry_counts(entries: Seq<(Seq<char>, ContextProfileView)>, at: int)
    requires
        0 <= at < entries.len(),
        forall|j: int| 0 <= j < at ==> (#[trigger] entries[j]).0 != entries[at].0,
    ensures
        profiles_by_name(entries).contains_key(entries[at].0),
        profiles_by_name(entries)[entries[at].0] == entries[at].1,
    decreases entries.len(),
{
    if at > 0 {
        let rest = entries.drop_first();
        assert(rest[at - 1] == entries[at]);
        assert forall|j: int| 0 <= j < at - 1 implies (#[trigger] rest[j]).0 != rest[at - 1].0 by {
            assert(rest[j] == entries[j + 1]);
        }
        lemma_first_entry_counts(rest, at - 1);
        assert(entries[0].0 != entries[at].0);
    }
}

/// The map has no key that does not occur in the list.
proof fn lemma_absent_name(entries: Seq<(Seq<char>, ContextProfileView)>, name: Seq<char>)
    requires
        forall|j: int| 0 <= j < entries.len() ==> (#[trigger] entries[j]).0 != name,
    ensures
        !profiles_by_name(entries).contains_key(name),
    decreases entries.len(),
{
    if entries.len() > 0 {
        let rest = entries.drop_first();
        assert forall|j: int| 0 <= j < rest.len() implies (#[trigger] rest[j]).0 != name by {
            assert(rest[j] == entries[j + 1]);
        }
        lemma_absent_name(rest, name);
        assert(entries[0].0 != name);
    }
}

/// A new profile at the end of a list that does not hold its name is one more
/// key of the map.
proof fn lemma_profile_added(
    entries: Seq<(Seq<char>, ContextProfileView)>,
    name: Seq<char>,
    profile: ContextProfileView,
)
    requires
        forall|i: int| 0 <= i < entries.len() ==> (#[trigger] entries[i]).0 != name,
    ensures
        profiles_by_name(entries.push((name, profile))) == profiles_by_name(entries).insert(
            name,
            profile,
        ),
    decreases entries.len(),
{
    let longer = entries.push((name, profile));
    if entries.len() == 0 {
        assert(longer.drop_first() =~= entries);
        assert(profiles_by_name(longer) =~= profiles_by_name(entries).insert(name, profile));
    } else {
        let rest = entries.drop_first();
        assert forall|i: int| 0 <= i < rest.len() implies (#[trigger] rest[i]).0 != name by {
            assert(rest[i] == entries[i + 1]);
        }
        lemma_profile_added(rest, name, profile);
        assert(longer.drop_first() =~= rest.push((name, profile)));
        assert(entries[0].0 != name);
        assert(profiles_by_name(longer) =~= profiles_by_name(entries).insert(name, profile));
    }
}

/// A new profile in the place of the first one under its name takes its
/// place in the map.
proof fn lemma_profile_replaced(
    entries: Seq<(Seq<char>, ContextProfileView)>,
    at: int,
    profile: ContextProfileView,
)
    requires
        0 <= at < entries.len(),
        forall|j: int| 0 <= j < at ==> (#[trigger] entries[j]).0 != entries[at].0,
    ensures
        profiles_by_name(entries.update(at, (entries[at].0, profile))) == profiles_by_name(
            entries,
        ).insert(entries[at].0, profile),
    decreases entries.len(),
{
    let name = entries[at].0;
    let changed = entries.update(at, (name, profile));
    if at == 0 {
        assert(changed.drop_first() =~= entries.drop_first());
        assert(profiles_by_name(changed) =~= profiles_by_name(entries).insert(name, profile));
    } else {
        let rest = entries.drop_first();
        assert forall|j: int| 0 <= j < at - 1 implies (#[trigger] rest[j]).0 != rest[at - 1].0 by {
            assert(rest[j] == entries[j + 1]);
        }
        lemma_profile_replaced(rest, at - 1, profile);
        assert(changed.drop_first() =~= rest.update(at - 1, (name, profile)));
        assert(entries[0].0 != name);
        assert(profiles_by_name(changed) =~= profiles_by_name(entries).insert(name, profile));
    }
}

/// The entries that are left when every profile under `name` is taken out.
pub open spec fn without_name(
    entries: Seq<(Seq<char>, ContextProfileView)>,
    name: Seq<char>,
) -> Seq<(Seq<char>, ContextProfileView)>
    decreases entries.len(),
{
    if entries.len() == 0 {
        entries
    } else if entries.last().0 == name {
        without_name(entries.drop_last(), name)
    } else {
        without_name(entries.drop_last(), name).push(entries.last())
    }
}

/// The map of a list with one more entry at its end.
proof fn lemma_profiles_by_name_push(
    entries: Seq<(Seq<char>, ContextProfileView)>,
    entry: (Seq<char>, ContextProfileView),
)
    ensures
        profiles_by_name(entries.push(entry)) == if profiles_by_name(entries).contains_key(
            entry.0,
        ) {
            profiles_by_name(entries)
        } else {
            profiles_by_name(entries).insert(entry.0, entry.1)
        },
    decreases entries.len(),
{
    let longer = entries.push(entry);
    if entries.len() == 0 {
        assert(longer.drop_first() =~= entries);
        assert(profiles_by_name(longer) =~= profiles_by_name(entries).insert(entry.0, entry.1));
    } else {
        let rest = entries.drop_first();
        lemma_profiles_by_name_push(rest, entry);
        assert(longer.drop_first() =~= rest.push(entry));
        if profiles_by_name(entries).contains_key(entry.0) {
            assert(profiles_by_name(longer) =~= profiles_by_name(entries));
        } else {
            assert(profiles_by_name(longer) =~= profiles_by_name(entries).insert(
                entry.0,
                entry.1,
            ));
        }
    }
}

/// Taking every profile under a name out of the list takes the name out of
/// the map and leaves the rest as it was.
proof fn lemma_without_name(entries: Seq<(Seq<char>, ContextProfileView)>, name: Seq<char>)
    ensures
        profiles_by_name(without_name(entries, name)) == profiles_by_name(entries).remove(name),
    decreases entries.len(),
{
    if entries.len() == 0 {
        assert(profiles_by_name(entries) =~= profiles_by_name(entries).remove(name));
    } else {
        let shorter = entries.drop_last();
        let last = entries.last();
        lemma_without_name(shorter, name);
        assert(entries =~= shorter.push(last));
        lemma_profiles_by_name_push(shorter, last);
        if last.0 == name {
            assert(profiles_by_name(entries).remove(name) =~= profiles_by_name(shorter).remove(
                name,
            ));
        } else {
            lemma_profiles_by_name_push(without_name(shorter, name), last);
            assert(profiles_by_name(without_name(entries, name)) =~= profiles_by_name(
                entries,
            ).remove(name));
        }
    }
}

impl ContextConfig {
    /// The profiles under their names.
    pub open spec fn by_name(&self) -> Map<Seq<char>, ContextProfileView> {
        profiles_by_name(self.profiles.deep_view())
    }

    /// The place of the first profile under `name`.
    fn find(&self, name: &str) -> (found: Option<usize>)
        ensures
            match found {
                Some(at) => at < self.profiles.len() && self.profiles[at as int].0@ == name@
                    && forall|j: int| 0 <= j < at ==> (#[trigger] self.profiles[j]).0@ != name@,
                None => forall|j: int|
                    0 <= j < self.profiles.len() ==> (#[trigger] self.profiles[j]).0@ != name@,
            },
            found is Some <==> self.by_name().contains_key(name@),
            found matches Some(at) ==> self.by_name()[name@] == self.profiles[at as int].1@,
    {
        let mut at: usize = 0;
        let ghost entries = self.profiles.deep_view();
        while at < self.profiles.len()
            invariant
                at <= self.profiles.len(),
                entries == self.profiles.deep_view(),
                forall|j: int| 0 <= j < at ==> (#[trigger] entries[j]).0 != name@,
            decreases self.profiles.len() - at,
        {
            if same_text(self.profiles[at].0.as_str(), name) {
                proof {
                    assert(entries[at as int].0 == name@);
                    lemma_first_entry_counts(entries, at as int);
                    assert forall|j: int| 0 <= j < at implies (#[trigger] self.profiles[j]).0@
                        != name@ by {
                        assert(entries[j].0 != name@);
                    }
                }
                return Some(at);
            }
            assert(entries[at as int].0 != name@);
            at = at + 1;
        }
        proof {
            lemma_absent_name(entries, name@);
            assert forall|j: int| 0 <= j < self.profiles.len() implies (#[trigger] self.profiles[j]).0@
                != name@ by {
                assert(entries[j].0 != name@);
            }
        }
        None
    }
}

/// A copy of a profile.
fn duplicate_profile(profile: &ContextProfile) -> (copy: ContextProfile)
    ensures
        copy@ == profile@,
{
    let copy = ContextProfile {
        user: profile.user.clone(),
        password: profile.password.duplicate(),
        urls: profile.urls.clone(),
        accept_invalid_certificate: profile.accept_invalid_certificate,
    };
    assert(copy.urls.deep_view() =~= profile.urls.deep_view());
    copy
}

/// The text of an optional text.
pub open spec fn text_of(text: Option<String>) -> Option<Seq<char>> {
    match text {
        Some(text) => Some(text@),
        None => None,
    }
}

/// The stored profiles, where they are kept, and the profile that was chosen
/// for this run.
pub struct Context {
    path: String,
    config: ContextConfig,
    /// The name given on the command line, if one was.
    override_name: Option<String>,
}

impl Context {
    /// The path of the file of profiles.
    pub closed spec fn path(&self) -> Seq<char> {
        self.path@
    }

    /// The profiles under their names.
    pub closed spec fn profiles(&self) -> Map<Seq<char>, ContextProfileView> {
        self.config.by_name()
    }

    /// The name of the stored default.
    pub closed spec fn current(&self) -> Option<Seq<char>> {
        text_of(self.config.current)
    }

    /// The name that was chosen for this run.
    pub closed spec fn chosen(&self) -> Option<Seq<char>> {
        text_of(self.override_name)
    }

    /// The name of the profile in use: the one chosen for this run, else the
    /// stored default.
    pub open spec fn active_name(&self) -> Option<Seq<char>> {
        match self.chosen() {
            Some(name) => Some(name),
            None => self.current(),
        }
    }

    /// The profiles as they were read, with the profile chosen for this run.
    /// A name that is chosen has to be the name of a profile.
    pub fn new(path: String, config: ContextConfig, override_name: Option<&str>) -> (made: Result<
        Context,
        ContextError,
    >)
        ensures
            match override_name {
                Some(name) if !config.by_name().contains_key(name@) => made matches Err(
                    ContextError::ProfileNotFound(missing),
                ) && missing@ == name@,
                _ => made matches Ok(context) && context.path() == path@ && context.profiles()
                    == config.by_name() && context.current() == text_of(config.current)
                    && context.chosen() == match override_name {
                    Some(name) => Some(name@),
                    None => None,
                },
            },
    {
        let override_name = match override_name {
            Some(name) => {
                if config.find(name).is_none() {
                    return Err(ContextError::ProfileNotFound(String::from_str(name)));
                }
                Some(String::from_str(name))
            },
            None => None,
        };
        Ok(Context { path, config, override_name })
    }

    /// The names of the profiles, in the order in which they are stored.
    pub fn list(&self) -> (names: Vec<String>)
        ensures
            names.deep_view() == names_of(self.stored().profiles.deep_view()),
    {
        let mut names: Vec<String> = Vec::new();
        let mut i: usize = 0;
        let ghost entries = self.config.profiles.deep_view();
        while i < self.config.profiles.len()
            invariant
                i <= self.config.profiles.len(),
                entries == self.config.profiles.deep_view(),
                names.deep_view() == names_of(entries.take(i as int)),
            decreases self.config.profiles.len() - i,
        {
            let ghost before = names.deep_view();
            let name = self.config.profiles[i].0.clone();
            names.push(name);
            proof {
                assert(names.deep_view() =~= before.push(entries[i as int].0));
                assert(entries.take(i + 1) =~= entries.take(i as int).push(entries[i as int]));
                assert(names.deep_view() =~= names_of(entries.take(i + 1)));
            }
            i = i + 1;
        }
        assert(entries.take(entries.len() as int) =~= entries);
        names
    }

    /// The name of the profile in use: the one chosen for this run, else the
    /// stored default.
    pub fn active_profile_name(&self) -> (name: Option<&str>)
        ensures
            match name {
                Some(name) => self.active_name() == Some(name@),
                None => self.active_name() is None,
            },
    {
        match &self.override_name {
            Some(name) => Some(name.as_str()),
            None => match &self.config.current {
                Some(name) => Some(name.as_str()),
                None => None,
            },
        }
    }

    /// The profile in use, if one is. Its password is not part of what is
    /// stored here.
    pub fn profile(&self) -> (found: Result<Option<ContextProfile>, ContextError>)
        ensures
            match self.active_name() {
                None => found matches Ok(None),
                Some(name) => if self.profiles().contains_key(name) {
                    found matches Ok(Some(profile)) && profile@ == self.profiles()[name]
                } else {
                    found matches Err(ContextError::ProfileNotFound(missing)) && missing@ == name
                },
            },
    {
        match self.active_profile_name() {
            None => Ok(None),
            Some(name) => match self.get_profile(name) {
                Ok(profile) => Ok(Some(profile)),
                Err(e) => Err(e),
            },
        }
    }

    /// Stores a profile under a name, in place of the one that was stored
    /// under it if one was.
    pub fn set_profile(&mut self, profile: ContextProfile, name: &str)
        ensures
            final(self).profiles() == old(self).profiles().insert(name@, profile@),
            final(self).path() == old(self).path(),
            final(self).current() == old(self).current(),
            final(self).chosen() == old(self).chosen(),
    {
        let ghost entries = self.config.profiles.deep_view();
        match self.config.find(name) {
            Some(at) => {
                proof {
                    assert forall|j: int| 0 <= j < at implies (#[trigger] entries[j]).0
                        != entries[at as int].0 by {
                        assert(self.config.profiles[j].0@ != name@);
                    }
                    lemma_profile_replaced(entries, at as int, profile@);
                }
                self.config.profiles.set(at, (String::from_str(name), profile));
                assert(self.config.profiles.deep_view() =~= entries.update(
                    at as int,
                    (name@, profile@),
                ));
            },
            None => {
                proof {
                    assert forall|j: int| 0 <= j < entries.len() implies (#[trigger] entries[j]).0
                        != name@ by {
                        assert(self.config.profiles[j].0@ != name@);
                    }
                    lemma_profile_added(entries, name@, profile@);
                }
                self.config.profiles.push((String::from_str(name), profile));
                assert(self.config.profiles.deep_view() =~= entries.push((name@, profile@)));
            },
        }
    }

    /// Takes the profile under a name out of what is stored.
    pub fn delete_profile(&mut self, name: &str) -> (done: Result<(), ContextError>)
        ensures
            final(self).path() == old(self).path(),
            final(self).current() == old(self).current(),
            final(self).chosen() == old(self).chosen(),
            if old(self).profiles().contains_key(name@) {
                done is Ok && final(self).profiles() == old(self).profiles().remove(name@)
            } else {
                &&& done matches Err(ContextError::ProfileNotFound(missing)) && missing@ == name@
                &&& final(self).profiles() == old(self).profiles()
            },
    {
        if self.config.find(name).is_none() {
            return Err(ContextError::ProfileNotFound(String::from_str(name)));
        }
        let ghost entries = self.config.profiles.deep_view();
        let mut all: Vec<(String, ContextProfile)> = Vec::new();
        std::mem::swap(&mut all, &mut self.config.profiles);
        let mut kept: Vec<(String, ContextProfile)> = Vec::new();
        assert(entries.take(0) =~= Seq::empty());
        assert(kept.deep_view() =~= without_name(entries.take(0), name@));
        for entry in it: all
            invariant
                it.seq().len() == entries.len(),
                forall|i: int|
                    0 <= i < entries.len() ==> (#[trigger] it.seq()[i]).deep_view() == entries[i],
                kept.deep_view() == without_name(entries.take(it.index()), name@),
        {
            let ghost n = it.index();
            let ghost before = kept.deep_view();
            proof {
                assert(entries.take(n + 1).drop_last() =~= entries.take(n));
                assert(entries.take(n + 1).last() == entry.deep_view());
            }
            if !same_text(entry.0.as_str(), name) {
                kept.push(entry);
                assert(kept.deep_view() =~= before.push(entry.deep_view()));
            }
        }
        proof {
            assert(entries.take(entries.len() as int) =~= entries);
            lemma_without_name(entries, name@);
        }
        self.config.profiles = kept;
        Ok(())
    }

    /// Makes the profile under a name the stored default.
    pub fn set_default(&mut self, name: &str) -> (done: Result<(), ContextError>)
        ensures
            final(self).path() == old(self).path(),
            final(self).profiles() == old(self).profiles(),
            final(self).chosen() == old(self).chosen(),
            if old(self).profiles().contains_key(name@) {
                done is Ok && final(self).current() == Some(name@)
            } else {
                &&& done matches Err(ContextError::ProfileNotFound(missing)) && missing@ == name@
                &&& final(self).current() == old(self).current()
            },
    {
        if self.config.find(name).is_none() {
            return Err(ContextError::ProfileNotFound(String::from_str(name)));
        }
        self.config.current = Some(String::from_str(name));
        Ok(())
    }

    /// The profile under a name. Its password is not part of what is stored
    /// here.
    pub fn get_profile(&self, name: &str) -> (found: Result<ContextProfile, ContextError>)
        ensures
            if self.profiles().contains_key(name@) {
                found matches Ok(profile) && profile@ == self.profiles()[name@]
            } else {
                found matches Err(ContextError::ProfileNotFound(missing)) && missing@ == name@
            },
    {
        match self.config.find(name) {
            Some(at) => Ok(duplicate_profile(&self.config.profiles[at].1)),
            None => Err(ContextError::ProfileNotFound(String::from_str(name))),
        }
    }

    /// The path of the file of profiles.
    pub fn get_config_path(&self) -> (path: &str)
        ensures
            path@ == self.path(),
    {
        self.path.as_str()
    }

    /// What is to be written to the file of profiles.
    #[verifier::when_used_as_spec(spec_stored)]
    pub fn stored(&self) -> (config: &ContextConfig)
        ensures
            config == self.spec_stored(),
            config.by_name() == self.profiles(),
            text_of(config.current) == self.current(),
    {
        &self.config
    }

    /// What is to be written to the file of profiles.
    pub closed spec fn spec_stored(&self) -> &ContextConfig {
        &self.config
    }
}

} // verus!
