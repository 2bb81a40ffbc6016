//! The ledger of installed packages, the registry of profiles and the rules
//! that keep the two in step.

use crate::error::{Error, ErrorKind};
use crate::models::{
    clone_ledger, clone_opt_string, clone_registry, ledger_view, opt_view, registry_view,
    AliasGroup, Device, EnvironmentState, Groups, InstallScope, InstallStatus,
    InstallationRecord, InstallationRecordView, InstallationSource, InstallationSourceView,
    Profile, ProfileView, RemovalStrategy, Repository, Timestamp,
};
use crate::modules::config::ConfigManager;
use crate::string_map::StringMap;
use crate::string_set::StringSet;
use crate::text::{concat3, str_eq, views};
use vstd::prelude::*;
use vstd::string::*;

verus! {

/// The ledger, the registry and the pointer to the active profile.
pub struct StateView {
    pub installations: Map<Seq<char>, InstallationRecordView>,
    pub profiles: Map<Seq<char>, ProfileView>,
    pub active_profile: Option<Seq<char>>,
}

/// The name that stands for the current profile where none is active.
pub open spec fn default_profile() -> Seq<char> {
    "default"@
}

/// The record written for a package that `profile` installs at time `now`.
pub open spec fn new_record(
    package: Seq<char>,
    scope: InstallScope,
    profile: Seq<char>,
    now: Timestamp,
) -> InstallationRecordView {
    InstallationRecordView {
        package,
        version: None,
        installed_at: now,
        installed_by: InstallationSourceView::Profile(profile),
        active_for: set![profile],
        scope,
        location: None,
        installer_type: "auto"@,
    }
}

impl StateView {
    /// Whether the ledger has a record of `package`.
    pub open spec fn is_installed(self, package: Seq<char>) -> bool {
        self.installations.contains_key(package)
    }

    /// The profiles that depend on `package`; none where the ledger has no record of it.
    pub open spec fn active_for(self, package: Seq<char>) -> Set<Seq<char>> {
        if self.installations.contains_key(package) {
            self.installations[package].active_for
        } else {
            Set::empty()
        }
    }

    /// Whether the active profile depends on `package`.
    pub open spec fn is_active(self, package: Seq<char>) -> bool {
        match self.active_profile {
            Some(f) => self.active_for(package).contains(f),
            None => false,
        }
    }

    /// The ledger with `profile` added to the dependants of `package`, if it has a record.
    pub open spec fn ledger_with(self, package: Seq<char>, profile: Seq<char>) -> Map<
        Seq<char>,
        InstallationRecordView,
    > {
        if self.installations.contains_key(package) {
            self.installations.insert(
                package,
                InstallationRecordView {
                    active_for: self.installations[package].active_for.insert(profile),
                    ..self.installations[package]
                },
            )
        } else {
            self.installations
        }
    }

    /// The ledger with `profile` taken from the dependants of `package`, if it has a record.
    pub open spec fn ledger_without(self, package: Seq<char>, profile: Seq<char>) -> Map<
        Seq<char>,
        InstallationRecordView,
    > {
        if self.installations.contains_key(package) {
            self.installations.insert(
                package,
                InstallationRecordView {
                    active_for: self.installations[package].active_for.remove(profile),
                    ..self.installations[package]
                },
            )
        } else {
            self.installations
        }
    }

    /// The registry with `package` added to the set of `profile`, if that profile exists.
    pub open spec fn registry_with(self, profile: Seq<char>, package: Seq<char>) -> Map<
        Seq<char>,
        ProfileView,
    > {
        if self.profiles.contains_key(profile) {
            self.profiles.insert(
                profile,
                ProfileView {
                    packages: self.profiles[profile].packages.insert(package),
                    ..self.profiles[profile]
                },
            )
        } else {
            self.profiles
        }
    }

    /// The registry with `package` taken from the set of `profile`, if that profile exists.
    pub open spec fn registry_without(self, profile: Seq<char>, package: Seq<char>) -> Map<
        Seq<char>,
        ProfileView,
    > {
        if self.profiles.contains_key(profile) {
            self.profiles.insert(
                profile,
                ProfileView {
                    packages: self.profiles[profile].packages.remove(package),
                    ..self.profiles[profile]
                },
            )
        } else {
            self.profiles
        }
    }

    /// The current profile starts to depend on `package`: both sides are updated.
    pub open spec fn activate(self, package: Seq<char>) -> StateView {
        StateView {
            installations: self.ledger_with(package, self.current_profile()),
            profiles: self.registry_with(self.current_profile(), package),
            active_profile: self.active_profile,
        }
    }

    /// The active profile stops depending on `package`: both sides are updated.
    /// Nothing changes where no profile is active.
    pub open spec fn deactivate(self, package: Seq<char>) -> StateView {
        match self.active_profile {
            Some(f) => StateView {
                installations: self.ledger_without(package, f),
                profiles: self.registry_without(f, package),
                active_profile: self.active_profile,
            },
            None => self,
        }
    }

    /// The profile that installing works for: the active one, or `default`
    /// where none is active.
    pub open spec fn current_profile(self) -> Seq<char> {
        match self.active_profile {
            Some(f) => f,
            None => default_profile(),
        }
    }

    /// A fresh record of `package` is written for the current profile.
    pub open spec fn install_new(self, package: Seq<char>, scope: InstallScope, now: Timestamp)
        -> StateView {
        StateView {
            installations: self.installations.insert(
                package,
                new_record(package, scope, self.current_profile(), now),
            ),
            profiles: self.registry_with(self.current_profile(), package),
            active_profile: self.active_profile,
        }
    }

    /// A known package is activated for the current profile; an unknown one gets a record.
    pub open spec fn smart_install(self, package: Seq<char>, scope: InstallScope, now: Timestamp)
        -> StateView {
        if self.is_installed(package) {
            self.activate(package)
        } else {
            self.install_new(package, scope, now)
        }
    }

    /// The record of `package` leaves the ledger.
    pub open spec fn uninstall(self, package: Seq<char>) -> StateView {
        StateView { installations: self.installations.remove(package), ..self }
    }

    /// `package` leaves the set of the active profile; the ledger is not touched.
    pub open spec fn remove_from_profile_list(self, package: Seq<char>) -> StateView {
        match self.active_profile {
            Some(f) => StateView { profiles: self.registry_without(f, package), ..self },
            None => self,
        }
    }

    /// Whether a profile other than the active one depends on `package`.
    /// False where no profile is active.
    pub open spec fn used_by_other_profiles(self, package: Seq<char>) -> bool {
        match self.active_profile {
            Some(f) => exists|g: Seq<char>| g != f && #[trigger] self.active_for(package).contains(g),
            None => false,
        }
    }

    /// The number of profiles that depend on `package`.
    pub open spec fn usage_count(self, package: Seq<char>) -> nat {
        self.active_for(package).len()
    }

    /// `package` leaves the set of every profile.
    pub open spec fn remove_from_all_profiles(self, package: Seq<char>) -> StateView {
        StateView {
            profiles: Map::new(
                |f: Seq<char>| self.profiles.contains_key(f),
                |f: Seq<char>|
                    ProfileView {
                        packages: self.profiles[f].packages.remove(package),
                        ..self.profiles[f]
                    },
            ),
            ..self
        }
    }

    /// What a removal request does under each strategy.
    pub open spec fn handle_removal(self, package: Seq<char>, strategy: RemovalStrategy)
        -> StateView {
        match strategy {
            RemovalStrategy::Deactivate => self.deactivate(package),
            RemovalStrategy::RemoveFromProfile => {
                let s = self.remove_from_profile_list(package);
                if s.used_by_other_profiles(package) {
                    s
                } else {
                    s.deactivate(package)
                }
            },
            RemovalStrategy::SmartRemove => if self.usage_count(package) <= 1 {
                self.uninstall(package)
            } else {
                self.deactivate(package)
            },
            RemovalStrategy::ForceRemove => self.uninstall(package).remove_from_all_profiles(
                package,
            ),
            RemovalStrategy::MarkUnused => self.deactivate(package),
        }
    }

    /// The number of other dependants that a removal reports: only a smart removal
    /// that finds more than one dependant reports, and it reports one less than it found.
    pub open spec fn removal_report(self, package: Seq<char>, strategy: RemovalStrategy)
        -> Option<nat> {
        if strategy == RemovalStrategy::SmartRemove && self.usage_count(package) > 1 {
            Some((self.usage_count(package) - 1) as nat)
        } else {
            None
        }
    }

    /// Whether a removal request asks for the state to be written out.
    pub open spec fn removal_saves(self, strategy: RemovalStrategy, package: Seq<char>) -> bool {
        match strategy {
            RemovalStrategy::Deactivate => self.active_profile is Some,
            RemovalStrategy::RemoveFromProfile => true,
            RemovalStrategy::SmartRemove => self.usage_count(package) <= 1
                || self.active_profile is Some,
            RemovalStrategy::ForceRemove => true,
            RemovalStrategy::MarkUnused => self.active_profile is Some,
        }
    }

    /// A fresh profile takes the place of whatever `name` stood for.
    pub open spec fn create_profile(self, name: Seq<char>, parent: Option<Seq<char>>)
        -> StateView {
        StateView { profiles: self.profiles.insert(name, ProfileView::fresh(name, parent)), ..self }
    }

    /// The pointer moves to `name`.
    pub open spec fn switch_profile(self, name: Seq<char>) -> StateView {
        StateView { active_profile: Some(name), ..self }
    }

    /// The pointer is cleared.
    pub open spec fn clear_active(self) -> StateView {
        StateView { active_profile: None, ..self }
    }

    /// The profile `name` leaves the registry.
    pub open spec fn delete_profile(self, name: Seq<char>) -> StateView {
        StateView { profiles: self.profiles.remove(name), ..self }
    }

    /// The packages of `profile`; none where there is no such profile.
    pub open spec fn packages_of(self, profile: Seq<char>) -> Set<Seq<char>> {
        if self.profiles.contains_key(profile) {
            self.profiles[profile].packages
        } else {
            Set::empty()
        }
    }

    /// The profile `f` depends on a package exactly if the package's record
    /// lists the profile.
    pub open spec fn in_step_for(self, f: Seq<char>) -> bool {
        forall|p: Seq<char>|
            #[trigger] self.active_for(p).contains(f) <==> #[trigger] self.packages_of(f).contains(
                p,
            )
    }

    /// A profile of the registry depends on a package exactly if the package's
    /// record lists the profile.
    pub open spec fn symmetric(self) -> bool {
        forall|p: Seq<char>, f: Seq<char>|
            self.profiles.contains_key(f) ==> (#[trigger] self.active_for(p).contains(f)
                <==> #[trigger] self.profiles[f].packages.contains(p))
    }

    /// The profiles that are active: the one the pointer names, if it names one.
    pub open spec fn active_set(self) -> Set<Seq<char>> {
        match self.active_profile {
            Some(f) => set![f],
            None => Set::empty(),
        }
    }
}

/// Installing keeps ledger and registry in step.
pub proof fn lemma_smart_install_keeps_symmetry(
    s: StateView,
    package: Seq<char>,
    scope: InstallScope,
    now: Timestamp,
)
    requires
        s.symmetric(),
    ensures
        s.smart_install(package, scope, now).symmetric(),
{
    let t = s.smart_install(package, scope, now);
    assert forall|p: Seq<char>, f: Seq<char>| t.profiles.contains_key(f) implies (
    #[trigger] t.active_for(p).contains(f) <==> #[trigger] t.profiles[f].packages.contains(p)) by {
        assert(s.profiles.contains_key(f));
        assert(s.active_for(p).contains(f) <==> s.profiles[f].packages.contains(p));
    }
}

/// Whether a removal under `strategy` is one of the two that leave ledger and
/// registry out of step: a smart removal that deletes the record of a package
/// which a registered profile still holds, or a removal from the active
/// profile's list that leaves the profile among the package's dependants
/// because another profile depends on it too.
pub open spec fn removal_unbalances(s: StateView, package: Seq<char>, strategy: RemovalStrategy)
    -> bool {
    match strategy {
        RemovalStrategy::SmartRemove => s.usage_count(package) <= 1 && exists|f: Seq<char>|
            s.profiles.contains_key(f) && #[trigger] s.active_for(package).contains(f),
        RemovalStrategy::RemoveFromProfile => s.active_profile matches Some(f)
            && s.profiles.contains_key(f) && s.active_for(package).contains(f)
            && s.used_by_other_profiles(package),
        _ => false,
    }
}

/// A removal keeps ledger and registry in step, the two cases of
/// [`removal_unbalances`] apart.
pub proof fn lemma_removal_keeps_symmetry(
    s: StateView,
    package: Seq<char>,
    strategy: RemovalStrategy,
)
    requires
        s.symmetric(),
        !removal_unbalances(s, package, strategy),
    ensures
        s.handle_removal(package, strategy).symmetric(),
{
    let t = s.handle_removal(package, strategy);
    assert forall|p: Seq<char>, f: Seq<char>| t.profiles.contains_key(f) implies (
    #[trigger] t.active_for(p).contains(f) <==> #[trigger] t.profiles[f].packages.contains(p)) by {
        assert(s.profiles.contains_key(f));
        assert(s.active_for(p).contains(f) <==> s.profiles[f].packages.contains(p));
        match strategy {
            RemovalStrategy::RemoveFromProfile => {
                let s1 = s.remove_from_profile_list(package);
                assert(s1.active_for(package) == s.active_for(package));
            },
            _ => {},
        }
    }
}

/// In the two cases of [`removal_unbalances`] the removal does leave ledger and
/// registry out of step.
pub proof fn lemma_removal_unbalanced(s: StateView, package: Seq<char>, strategy: RemovalStrategy)
    requires
        s.symmetric(),
        removal_unbalances(s, package, strategy),
    ensures
        !s.handle_removal(package, strategy).symmetric(),
{
    let t = s.handle_removal(package, strategy);
    match strategy {
        RemovalStrategy::SmartRemove => {
            let f = choose|f: Seq<char>|
                s.profiles.contains_key(f) && #[trigger] s.active_for(package).contains(f);
            assert(s.profiles[f].packages.contains(package));
            assert(t.profiles[f].packages.contains(package));
            assert(!t.active_for(package).contains(f));
        },
        RemovalStrategy::RemoveFromProfile => {
            let f = s.active_profile->0;
            let s1 = s.remove_from_profile_list(package);
            assert(s1.active_for(package) == s.active_for(package));
            assert(t == s1);
            assert(t.active_for(package).contains(f));
            assert(!t.profiles[f].packages.contains(package));
        },
        _ => {},
    }
}

/// Creating a profile keeps ledger and registry in step exactly if no record
/// lists the new name among its dependants.
pub proof fn lemma_create_profile_keeps_symmetry(
    s: StateView,
    name: Seq<char>,
    parent: Option<Seq<char>>,
)
    requires
        s.symmetric(),
    ensures
        s.create_profile(name, parent).symmetric() <==> (forall|p: Seq<char>|
            !#[trigger] s.active_for(p).contains(name)),
{
    let t = s.create_profile(name, parent);
    if forall|p: Seq<char>| !#[trigger] s.active_for(p).contains(name) {
        assert forall|p: Seq<char>, f: Seq<char>| t.profiles.contains_key(f) implies (
        #[trigger] t.active_for(p).contains(f) <==> #[trigger] t.profiles[f].packages.contains(
            p,
        )) by {
            if f != name {
                assert(s.active_for(p).contains(f) <==> s.profiles[f].packages.contains(p));
            } else {
                assert(!s.active_for(p).contains(name));
            }
        }
    } else {
        let p = choose|p: Seq<char>| #[trigger] s.active_for(p).contains(name);
        assert(t.active_for(p).contains(name));
        assert(!t.profiles[name].packages.contains(p));
    }
}

/// Moving or clearing the pointer and deleting a profile keep ledger and
/// registry in step.
pub proof fn lemma_pointer_and_delete_keep_symmetry(s: StateView, name: Seq<char>)
    requires
        s.symmetric(),
    ensures
        s.switch_profile(name).symmetric(),
        s.clear_active().symmetric(),
        s.delete_profile(name).symmetric(),
{
    let t = s.delete_profile(name);
    assert forall|p: Seq<char>, f: Seq<char>| t.profiles.contains_key(f) implies (
    #[trigger] t.active_for(p).contains(f) <==> #[trigger] t.profiles[f].packages.contains(p)) by {
        assert(s.active_for(p).contains(f) <==> s.profiles[f].packages.contains(p));
    }
    let u = s.switch_profile(name);
    assert forall|p: Seq<char>, f: Seq<char>| u.profiles.contains_key(f) implies (
    #[trigger] u.active_for(p).contains(f) <==> #[trigger] u.profiles[f].packages.contains(p)) by {
        assert(s.active_for(p).contains(f) <==> s.profiles[f].packages.contains(p));
    }
    let v = s.clear_active();
    assert forall|p: Seq<char>, f: Seq<char>| v.profiles.contains_key(f) implies (
    #[trigger] v.active_for(p).contains(f) <==> #[trigger] v.profiles[f].packages.contains(p)) by {
        assert(s.active_for(p).contains(f) <==> s.profiles[f].packages.contains(p));
    }
}

/// Deactivating keeps ledger and registry in step. Activating does so exactly
/// if the ledger has a record of the package or the registry lacks the current
/// profile.
pub proof fn lemma_activation_keeps_symmetry(s: StateView, package: Seq<char>)
    requires
        s.symmetric(),
    ensures
        s.deactivate(package).symmetric(),
        s.activate(package).symmetric() <==> (s.is_installed(package)
            || !s.profiles.contains_key(s.current_profile())),
{
    let t = s.deactivate(package);
    assert forall|p: Seq<char>, f: Seq<char>| t.profiles.contains_key(f) implies (
    #[trigger] t.active_for(p).contains(f) <==> #[trigger] t.profiles[f].packages.contains(p)) by {
        assert(s.active_for(p).contains(f) <==> s.profiles[f].packages.contains(p));
    }
    let u = s.activate(package);
    if s.is_installed(package) || !s.profiles.contains_key(s.current_profile()) {
        assert forall|p: Seq<char>, f: Seq<char>| u.profiles.contains_key(f) implies (
        #[trigger] u.active_for(p).contains(f) <==> #[trigger] u.profiles[f].packages.contains(
            p,
        )) by {
            assert(s.active_for(p).contains(f) <==> s.profiles[f].packages.contains(p));
        }
    } else {
        let f = s.current_profile();
        assert(u.profiles[f].packages.contains(package));
        assert(!u.active_for(package).contains(f));
    }
}

/// At most one profile is active.
pub proof fn lemma_at_most_one_active(s: StateView)
    ensures
        s.active_set().finite(),
        s.active_set().len() <= 1,
        forall|f: Seq<char>, g: Seq<char>|
            s.active_set().contains(f) && s.active_set().contains(g) ==> f == g,
{
}

/// The parts of the configuration that the state engine carries along untouched.
pub struct Settings {
    pub repository: Repository,
    pub device: Device,
    pub groups: Groups,
    pub aliases: StringMap<AliasGroup>,
    pub status: StringMap<InstallStatus>,
}

/// The state in memory, the state last handed over for writing, whether a write
/// is due, and the rest of the configuration.
pub struct ManagerView {
    pub state: StateView,
    pub stored: StateView,
    pub dirty: bool,
    pub settings: Settings,
}

impl ManagerView {
    /// The state becomes `next`; where `saves` holds it is also handed over for writing.
    pub open spec fn step(self, next: StateView, saves: bool) -> ManagerView {
        if saves {
            ManagerView { state: next, stored: next, dirty: true, settings: self.settings }
        } else {
            ManagerView { state: next, ..self }
        }
    }

    /// The state in memory is handed over for writing.
    pub open spec fn saved(self) -> ManagerView {
        self.step(self.state, true)
    }

    /// The state in memory is replaced by the state that was handed over last.
    pub open spec fn reloaded(self) -> ManagerView {
        ManagerView { state: self.stored, ..self }
    }
}

/// Saving the state and loading it again gives back the same ledger, the same
/// registry and the same pointer.
pub proof fn lemma_saved_state_reloads(m: ManagerView)
    ensures
        m.saved().reloaded().state == m.state,
        m.saved().reloaded().state.installations == m.state.installations,
        m.saved().reloaded().state.profiles == m.state.profiles,
        m.saved().reloaded().state.active_profile == m.state.active_profile,
{
}

/// The view of a manager that has just taken over `config_mgr`: the state in
/// memory is the one that the configuration holds.
pub open spec fn loaded(config_mgr: ConfigManager) -> ManagerView {
    let stored = StateView {
        installations: ledger_view(config_mgr.config.installations),
        profiles: registry_view(config_mgr.config.profiles),
        active_profile: opt_view(config_mgr.config.active_profile),
    };
    ManagerView {
        state: stored,
        stored,
        dirty: config_mgr.dirty,
        settings: Settings {
            repository: config_mgr.config.repository,
            device: config_mgr.config.device,
            groups: config_mgr.config.groups,
            aliases: config_mgr.config.aliases,
            status: config_mgr.config.status,
        },
    }
}

/// The state engine: ledger, registry and active pointer, with the configuration
/// that they are written to.
#[derive(Debug)]
pub struct InstallationStateManager {
    pub installations: StringMap<InstallationRecord>,
    pub profiles: StringMap<Profile>,
    pub active_profile: Option<String>,
    pub config_mgr: ConfigManager,
}

impl View for InstallationStateManager {
    type V = ManagerView;

    open spec fn view(&self) -> ManagerView {
        ManagerView {
            state: StateView {
                installations: ledger_view(self.installations),
                profiles: registry_view(self.profiles),
                active_profile: opt_view(self.active_profile),
            },
            stored: StateView {
                installations: ledger_view(self.config_mgr.config.installations),
                profiles: registry_view(self.config_mgr.config.profiles),
                active_profile: opt_view(self.config_mgr.config.active_profile),
            },
            dirty: self.config_mgr.dirty,
            settings: Settings {
                repository: self.config_mgr.config.repository,
                device: self.config_mgr.config.device,
                groups: self.config_mgr.config.groups,
                aliases: self.config_mgr.config.aliases,
                status: self.config_mgr.config.status,
            },
        }
    }
}

impl InstallationStateManager {
    /// Takes over a configuration: the state in memory is the state it holds.
    pub fn new(config_mgr: ConfigManager) -> (r: Self)
        ensures
            r.config_mgr == config_mgr,
            r@ == loaded(config_mgr),
    {
        let installations = clone_ledger(&config_mgr.config.installations);
        let profiles = clone_registry(&config_mgr.config.profiles);
        let active_profile = clone_opt_string(&config_mgr.config.active_profile);
        InstallationStateManager { installations, profiles, active_profile, config_mgr }
    }

    /// Whether the ledger has a record of `package`.
    pub fn is_installed(&self, package: &str) -> (r: bool)
        ensures
            r == self@.state.is_installed(package@),
    {
        self.installations.contains_key(package)
    }

    /// Whether the active profile depends on `package`.
    pub fn is_active(&self, package: &str) -> (r: bool)
        ensures
            r == self@.state.is_active(package@),
    {
        if let Some(record) = self.installations.get(package) {
            if let Some(profile_id) = &self.active_profile {
                return record.active_for.contains(profile_id.as_str());
            }
        }
        false
    }

    /// The current profile (the active one, or `default` where none is active)
    /// starts to depend on `package`: the profile joins the dependants in the
    /// package's record and the package joins the profile's set.
    pub fn activate_for_profile(&mut self, package: &str) -> (r: Result<(), Error>)
        ensures
            r is Ok,
            final(self)@ == old(self)@.step(old(self)@.state.activate(package@), true),
            old(self)@.state.symmetric() ==> (final(self)@.state.symmetric() <==> (old(self)@.state.is_installed(package@) || !old(self)@.state.profiles.contains_key(
                old(self)@.state.current_profile(),
            ))),
    {
        proof {
            if self@.state.symmetric() {
                lemma_activation_keeps_symmetry(self@.state, package@);
            }
        }
        let profile_id = match &self.active_profile {
            Some(f) => f.clone(),
            None => String::from_str("default"),
        };
        if let Some(record) = self.installations.get_mut(package) {
            record.active_for.insert(profile_id.clone());
        }
        if let Some(profile) = self.profiles.get_mut(profile_id.as_str()) {
            profile.packages.insert(String::from_str(package));
        }
        proof {
            assert(ledger_view(self.installations) =~= old(self)@.state.ledger_with(
                package@,
                profile_id@,
            ));
            assert(registry_view(self.profiles) =~= old(self)@.state.registry_with(
                profile_id@,
                package@,
            ));
        }
        self.save_state()
    }

    /// The active profile stops depending on `package`: the profile leaves the
    /// dependants in the package's record and the package leaves the profile's set.
    /// The record stays, even with no dependant left. Nothing happens where no
    /// profile is active.
    pub fn deactivate_for_profile(&mut self, package: &str) -> (r: Result<(), Error>)
        ensures
            r is Ok,
            final(self)@ == old(self)@.step(
                old(self)@.state.deactivate(package@),
                old(self)@.state.active_profile is Some,
            ),
            old(self)@.state.symmetric() ==> final(self)@.state.symmetric(),
    {
        proof {
            if self@.state.symmetric() {
                lemma_activation_keeps_symmetry(self@.state, package@);
            }
        }
        let current = clone_opt_string(&self.active_profile);
        if let Some(profile_id) = current {
            if let Some(record) = self.installations.get_mut(package) {
                record.active_for.remove(profile_id.as_str());
            }
            if let Some(profile) = self.profiles.get_mut(profile_id.as_str()) {
                profile.packages.remove(package);
            }
            proof {
                assert(ledger_view(self.installations) =~= old(self)@.state.ledger_without(
                    package@,
                    profile_id@,
                ));
                assert(registry_view(self.profiles) =~= old(self)@.state.registry_without(
                    profile_id@,
                    package@,
                ));
            }
            let _ = self.save_state();
        }
        Ok(())
    }

    /// Writes a fresh record of `package`, installed at `now` for the current
    /// profile (the active one, or `default` where none is active), and adds the
    /// package to that profile's set if the profile exists.
    pub fn perform_installation(&mut self, package: &str, scope: InstallScope, now: Timestamp)
        -> (r: Result<(), Error>)
        ensures
            r is Ok,
            final(self)@ == old(self)@.step(
                old(self)@.state.install_new(package@, scope, now),
                true,
            ),
    {
        let profile_id = match &self.active_profile {
            Some(f) => f.clone(),
            None => String::from_str("default"),
        };
        let mut active_for = StringSet::new();
        active_for.insert(profile_id.clone());
        let record = InstallationRecord {
            package: String::from_str(package),
            version: None,
            installed_at: now,
            installed_by: InstallationSource::Profile(profile_id.clone()),
            active_for,
            scope,
            location: None,
            installer_type: String::from_str("auto"),
        };
        proof {
            assert(record.active_for@ =~= set![profile_id@]);
            assert(record@ == new_record(package@, scope, profile_id@, now));
        }
        self.installations.insert(String::from_str(package), record);
        if let Some(profile) = self.profiles.get_mut(profile_id.as_str()) {
            profile.packages.insert(String::from_str(package));
        }
        proof {
            assert(ledger_view(self.installations) =~= old(self)@.state.installations.insert(
                package@,
                new_record(package@, scope, profile_id@, now),
            ));
            assert(registry_view(self.profiles) =~= old(self)@.state.registry_with(
                profile_id@,
                package@,
            ));
        }
        self.save_state()
    }

    /// Deletes the record of `package` from the ledger.
    pub fn perform_uninstallation(&mut self, package: &str) -> (r: Result<(), Error>)
        ensures
            r is Ok,
            final(self)@ == old(self)@.step(old(self)@.state.uninstall(package@), true),
    {
        self.installations.remove(package);
        proof {
            assert(ledger_view(self.installations) =~= old(self)@.state.installations.remove(
                package@,
            ));
        }
        self.save_state()
    }

    /// Takes `package` out of the active profile's set and leaves the ledger alone.
    pub fn remove_from_profile_list(&mut self, package: &str) -> (r: Result<(), Error>)
        ensures
            r is Ok,
            final(self)@ == old(self)@.step(
                old(self)@.state.remove_from_profile_list(package@),
                true,
            ),
    {
        let current = clone_opt_string(&self.active_profile);
        if let Some(profile_id) = current {
            if let Some(profile) = self.profiles.get_mut(profile_id.as_str()) {
                profile.packages.remove(package);
            }
            proof {
                assert(registry_view(self.profiles) =~= old(self)@.state.registry_without(
                    profile_id@,
                    package@,
                ));
            }
        }
        self.save_state()
    }

    /// Whether a profile other than the active one depends on `package`.
    #[verifier::loop_isolation(false)]
    pub fn used_by_other_profiles(&self, package: &str) -> (r: Result<bool, Error>)
        ensures
            r == Ok::<bool, Error>(self@.state.used_by_other_profiles(package@)),
    {
        if let Some(record) = self.installations.get(package) {
            if let Some(current) = &self.active_profile {
                let users = record.active_for.to_vec();
                let mut i: usize = 0;
                while i < users.len()
                    invariant
                        i <= users.len(),
                        forall|j: int| 0 <= j < i ==> users@[j]@ == current@,
                    decreases users.len() - i,
                {
                    if !str_eq(users[i].as_str(), current.as_str()) {
                        proof {
                            assert(views(users@)[i as int] == users@[i as int]@);
                            assert(views(users@).contains(users@[i as int]@));
                            assert(self@.state.active_for(package@).contains(users@[i as int]@));
                        }
                        return Ok(true);
                    }
                    i += 1;
                }
                proof {
                    assert forall|g: Seq<char>|
                        g != current@ implies !#[trigger] self@.state.active_for(
                        package@,
                    ).contains(g) by {
                        if views(users@).contains(g) {
                            let j = choose|j: int| 0 <= j < users@.len() && views(users@)[j] == g;
                            assert(users@[j]@ == current@);
                        }
                    }
                }
                return Ok(false);
            }
        }
        Ok(false)
    }

    /// The number of profiles that depend on `package`; zero where the ledger has
    /// no record of it.
    pub fn get_usage_count(&self, package: &str) -> (r: Result<usize, Error>)
        ensures
            r matches Ok(n) && n == self@.state.usage_count(package@),
    {
        if let Some(record) = self.installations.get(package) {
            Ok(record.active_for.len())
        } else {
            Ok(0)
        }
    }

    /// Takes `package` out of the set of every profile.
    pub fn remove_from_all_profiles(&mut self, package: &str) -> (r: Result<(), Error>)
        ensures
            r is Ok,
            final(self)@ == old(self)@.step(
                old(self)@.state.remove_from_all_profiles(package@),
                true,
            ),
    {
        let names = self.profiles.keys();
        let ghost before = registry_view(self.profiles);
        let mut i: usize = 0;
        while i < names.len()
            invariant
                i <= names.len(),
                views(names@) == self.profiles.order(),
                self.profiles@.dom() == views(names@).to_set(),
                self.installations == old(self).installations,
                self.active_profile == old(self).active_profile,
                self.config_mgr == old(self).config_mgr,
                before == old(self)@.state.profiles,
                registry_view(self.profiles).dom() == before.dom(),
                forall|f: Seq<char>| #[trigger]
                    before.contains_key(f) ==> registry_view(self.profiles)[f] == (if exists|
                        j: int,
                    |
                        0 <= j < i && views(names@)[j] == f {
                        ProfileView { packages: before[f].packages.remove(package@), ..before[f] }
                    } else {
                        before[f]
                    }),
            decreases names.len() - i,
        {
            let ghost prev = registry_view(self.profiles);
            let ghost name = names@[i as int]@;
            proof {
                assert(views(names@)[i as int] == name);
                assert(views(names@).contains(name));
                assert(self.profiles@.dom().contains(name));
            }
            if let Some(profile) = self.profiles.get_mut(names[i].as_str()) {
                profile.packages.remove(package);
            }
            proof {
                assert(registry_view(self.profiles).dom() =~= before.dom());
                assert forall|f: Seq<char>| #[trigger] before.contains_key(f) implies registry_view(
                    self.profiles,
                )[f] == (if exists|j: int| 0 <= j < i + 1 && views(names@)[j] == f {
                    ProfileView { packages: before[f].packages.remove(package@), ..before[f] }
                } else {
                    before[f]
                }) by {
                    if f == name {
                        assert(before[f].packages.remove(package@).remove(package@)
                            =~= before[f].packages.remove(package@));
                    } else {
                        assert(registry_view(self.profiles)[f] == prev[f]);
                        if exists|j: int| 0 <= j < i + 1 && views(names@)[j] == f {
                            let j = choose|j: int| 0 <= j < i + 1 && views(names@)[j] == f;
                            assert(0 <= j < i && views(names@)[j] == f);
                        }
                    }
                }
            }
            i += 1;
        }
        proof {
            assert forall|f: Seq<char>| #[trigger] before.contains_key(f) implies exists|j: int|
                0 <= j < i && views(names@)[j] == f by {
                assert(self.profiles@.dom().contains(f));
                assert(views(names@).contains(f));
            }
            assert(registry_view(self.profiles) =~= old(self)@.state.remove_from_all_profiles(
                package@,
            ).profiles);
        }
        self.save_state()
    }

    /// Marks `package` for a later clean-up. No such clean-up exists yet: nothing changes.
    pub fn mark_for_gc(&mut self, _package: &str) -> (r: Result<(), Error>)
        ensures
            r is Ok,
            *final(self) == *old(self),
    {
        Ok(())
    }

    /// Installs `package` at the time `now`, which the caller reads from its
    /// clock: a package that the ledger knows is activated for the current
    /// profile, any other gets a fresh record. Returns whether the record is
    /// fresh, that is whether an installer has to run.
    pub fn smart_install(&mut self, package: &str, scope: InstallScope, now: Timestamp) -> (r:
        Result<bool, Error>)
        ensures
            r == Ok::<bool, Error>(!old(self)@.state.is_installed(package@)),
            final(self)@ == old(self)@.step(
                old(self)@.state.smart_install(package@, scope, now),
                true,
            ),
            old(self)@.state.symmetric() ==> final(self)@.state.symmetric(),
    {
        proof {
            if self@.state.symmetric() {
                lemma_smart_install_keeps_symmetry(self@.state, package@, scope, now);
            }
        }
        if self.is_installed(package) {
            let _ = self.activate_for_profile(package);
            Ok(false)
        } else {
            let _ = self.perform_installation(package, scope, now);
            Ok(true)
        }
    }

    /// Carries out a removal request under `strategy`.
    ///
    /// - `Deactivate`: the active profile stops depending on the package; the
    ///   record and the other profiles are not touched.
    /// - `RemoveFromProfile`: the package leaves the active profile's set; if no
    ///   other profile depends on it, the active profile also leaves the
    ///   dependants in the record.
    /// - `SmartRemove`: a package with at most one dependant loses its record;
    ///   any other is deactivated for the active profile only.
    /// - `ForceRemove`: the record is deleted and the package leaves the set of
    ///   every profile.
    /// - `MarkUnused`: as `Deactivate`; marking for a clean-up has no effect yet.
    ///
    /// Where no profile is active, what concerns the active profile does
    /// nothing. Returns the number of other profiles that still depend on the
    /// package where a smart removal only deactivated it, and `None` otherwise.
    pub fn handle_removal(&mut self, package: &str, strategy: RemovalStrategy) -> (r: Result<
        Option<usize>,
        Error,
    >)
        ensures
            r matches Ok(report) && (match report {
                Some(n) => old(self)@.state.removal_report(package@, strategy) == Some(n as nat),
                None => old(self)@.state.removal_report(package@, strategy).is_none(),
            }),
            final(self)@ == old(self)@.step(
                old(self)@.state.handle_removal(package@, strategy),
                old(self)@.state.removal_saves(strategy, package@),
            ),
            old(self)@.state.symmetric() ==> (final(self)@.state.symmetric()
                <==> !removal_unbalances(old(self)@.state, package@, strategy)),
    {
        proof {
            if self@.state.symmetric() {
                if removal_unbalances(self@.state, package@, strategy) {
                    lemma_removal_unbalanced(self@.state, package@, strategy);
                } else {
                    lemma_removal_keeps_symmetry(self@.state, package@, strategy);
                }
            }
        }
        match strategy {
            RemovalStrategy::Deactivate => {
                let _ = self.deactivate_for_profile(package);
                Ok(None)
            },
            RemovalStrategy::RemoveFromProfile => {
                let _ = self.remove_from_profile_list(package);
                let used = match self.used_by_other_profiles(package) {
                    Ok(b) => b,
                    Err(_) => false,
                };
                if !used {
                    let _ = self.deactivate_for_profile(package);
                }
                Ok(None)
            },
            RemovalStrategy::SmartRemove => {
                let usage_count = match self.get_usage_count(package) {
                    Ok(n) => n,
                    Err(_) => 0,
                };
                if usage_count <= 1 {
                    let _ = self.perform_uninstallation(package);
                    Ok(None)
                } else {
                    let _ = self.deactivate_for_profile(package);
                    Ok(Some(usage_count - 1))
                }
            },
            RemovalStrategy::ForceRemove => {
                let _ = self.perform_uninstallation(package);
                let _ = self.remove_from_all_profiles(package);
                Ok(None)
            },
            RemovalStrategy::MarkUnused => {
                let _ = self.mark_for_gc(package);
                let _ = self.deactivate_for_profile(package);
                Ok(None)
            },
        }
    }

    /// Creates the profile `name` with the given parent: no packages, an empty
    /// environment. The parent is stored as given; it need not exist. A profile
    /// that had the name before is replaced.
    pub fn create_profile(&mut self, name: &str, parent: Option<String>) -> (r: Result<(), Error>)
        ensures
            r is Ok,
            final(self)@ == old(self)@.step(
                old(self)@.state.create_profile(name@, opt_view(parent)),
                true,
            ),
            old(self)@.state.symmetric() ==> (final(self)@.state.symmetric() <==> (forall|
                p: Seq<char>,
            | !#[trigger] old(self)@.state.active_for(p).contains(name@))),
    {
        proof {
            if self@.state.symmetric() {
                lemma_create_profile_keeps_symmetry(self@.state, name@, opt_view(parent));
            }
        }
        let profile = Profile {
            name: String::from_str(name),
            parent,
            packages: StringSet::new(),
            environment: EnvironmentState::default(),
            os_overrides: Vec::new(),
        };
        proof {
            assert(profile@.os_overrides =~= Seq::empty());
            assert(profile@ == ProfileView::fresh(name@, opt_view(parent)));
        }
        self.profiles.insert(String::from_str(name), profile);
        proof {
            assert(registry_view(self.profiles) =~= old(self)@.state.profiles.insert(
                name@,
                ProfileView::fresh(name@, opt_view(parent)),
            ));
        }
        self.save_state()
    }

    /// Makes `name` the active profile. Fails with `NotFound`, and changes
    /// nothing, exactly if the registry has no profile of that name.
    pub fn switch_profile(&mut self, name: &str) -> (r: Result<(), Error>)
        ensures
            old(self)@.state.profiles.contains_key(name@) ==> r is Ok && final(self)@ == old(self)@.step(old(self)@.state.switch_profile(name@), true),
            !old(self)@.state.profiles.contains_key(name@) ==> *final(self) == *old(self) && (
            r matches Err(e) && e.spec_kind() == ErrorKind::NotFound && e.spec_detail()
                == "Profile '"@ + name@ + "' does not exist"@),
            old(self)@.state.symmetric() ==> final(self)@.state.symmetric(),
    {
        proof {
            if self@.state.symmetric() {
                lemma_pointer_and_delete_keep_symmetry(self@.state, name@);
            }
        }
        if !self.profiles.contains_key(name) {
            return Err(Error::NotFound(concat3("Profile '", name, "' does not exist")));
        }
        self.active_profile = Some(String::from_str(name));
        self.save_state()
    }

    /// Removes the profile `name` from the registry. Fails with
    /// `InvalidOperation`, and changes nothing, exactly if `name` is the active
    /// profile. A name that stands for no profile is not an error.
    pub fn delete_profile(&mut self, name: &str) -> (r: Result<(), Error>)
        ensures
            old(self)@.state.active_profile != Some(name@) ==> r is Ok && final(self)@ == old(self)@.step(old(self)@.state.delete_profile(name@), true),
            old(self)@.state.active_profile == Some(name@) ==> *final(self) == *old(self) && (
            r matches Err(e) && e.spec_kind() == ErrorKind::InvalidOperation && e.spec_detail()
                == "Cannot delete active profile. Switch to another profile first."@),
            old(self)@.state.symmetric() ==> final(self)@.state.symmetric(),
    {
        proof {
            if self@.state.symmetric() {
                lemma_pointer_and_delete_keep_symmetry(self@.state, name@);
            }
        }
        let is_active = match &self.active_profile {
            Some(f) => str_eq(f.as_str(), name),
            None => false,
        };
        if is_active {
            return Err(
                Error::InvalidOperation(
                    String::from_str(
                        "Cannot delete active profile. Switch to another profile first.",
                    ),
                ),
            );
        }
        self.profiles.remove(name);
        proof {
            assert(registry_view(self.profiles) =~= old(self)@.state.profiles.remove(name@));
        }
        self.save_state()
    }

    /// The packages of `profile`, each once; none where there is no such profile.
    pub fn get_active_packages(&self, profile: &str) -> (r: Result<Vec<String>, Error>)
        ensures
            r matches Ok(v) && views(v@).no_duplicates() && views(v@).to_set()
                == self@.state.packages_of(profile@),
    {
        if let Some(profile_data) = self.profiles.get(profile) {
            Ok(profile_data.packages.to_vec())
        } else {
            let v: Vec<String> = Vec::new();
            proof {
                assert(views(v@) =~= Seq::<Seq<char>>::empty());
                assert(views(v@).to_set() =~= Set::<Seq<char>>::empty());
            }
            Ok(v)
        }
    }

    /// The record of `package`, if the ledger has one.
    pub fn get_package_info(&self, package: &str) -> (r: Option<&InstallationRecord>)
        ensures
            match r {
                Some(record) => self@.state.installations.contains_key(package@) && record@
                    == self@.state.installations[package@],
                None => !self@.state.installations.contains_key(package@),
            },
    {
        self.installations.get(package)
    }

    /// Whether ledger and registry agree on the profile `name`: the profile
    /// holds exactly the packages whose records list it.
    #[verifier::loop_isolation(false)]
    pub fn profile_in_step(&self, name: &str) -> (r: bool)
        ensures
            r == self@.state.in_step_for(name@),
    {
        let ghost state = self@.state;
        let held: Vec<String> = match self.get_active_packages(name) {
            Ok(v) => v,
            Err(_) => Vec::new(),
        };
        let mut i: usize = 0;
        while i < held.len()
            invariant
                i <= held.len(),
                forall|j: int| 0 <= j < i ==> state.active_for(held@[j]@).contains(name@),
            decreases held.len() - i,
        {
            let listed = match self.installations.get(held[i].as_str()) {
                Some(record) => record.active_for.contains(name),
                None => false,
            };
            if !listed {
                proof {
                    let p = held@[i as int]@;
                    assert(views(held@)[i as int] == p);
                    assert(views(held@).contains(p));
                    assert(state.packages_of(name@).contains(p));
                    assert(!state.active_for(p).contains(name@));
                }
                return false;
            }
            i += 1;
        }
        let known = self.installations.keys();
        let mut k: usize = 0;
        while k < known.len()
            invariant
                k <= known.len(),
                forall|j: int|
                    0 <= j < k && state.active_for(known@[j]@).contains(name@)
                        ==> state.packages_of(name@).contains(known@[j]@),
            decreases known.len() - k,
        {
            let listed = match self.installations.get(known[k].as_str()) {
                Some(record) => record.active_for.contains(name),
                None => false,
            };
            if listed {
                let holds = match self.profiles.get(name) {
                    Some(profile) => profile.packages.contains(known[k].as_str()),
                    None => false,
                };
                if !holds {
                    proof {
                        let p = known@[k as int]@;
                        assert(state.active_for(p).contains(name@));
                        assert(!state.packages_of(name@).contains(p));
                    }
                    return false;
                }
            }
            k += 1;
        }
        proof {
            assert forall|p: Seq<char>| #[trigger]
                state.active_for(p).contains(name@) <==> #[trigger] state.packages_of(
                    name@,
                ).contains(p) by {
                if state.packages_of(name@).contains(p) {
                    assert(views(held@).to_set().contains(p));
                    assert(views(held@).contains(p));
                    let j = choose|j: int| 0 <= j < held@.len() && views(held@)[j] == p;
                    assert(held@[j]@ == p);
                }
                if state.active_for(p).contains(name@) {
                    assert(self.installations@.contains_key(p));
                    assert(self.installations@.dom().contains(p));
                    assert(views(known@).contains(p));
                    let j = choose|j: int| 0 <= j < known@.len() && views(known@)[j] == p;
                    assert(known@[j]@ == p);
                }
            }
        }
        true
    }

    /// Whether ledger and registry agree on every profile of the registry.
    #[verifier::loop_isolation(false)]
    pub fn check_symmetry(&self) -> (r: bool)
        ensures
            r == self@.state.symmetric(),
    {
        let ghost state = self@.state;
        let names = self.profiles.keys();
        let mut i: usize = 0;
        while i < names.len()
            invariant
                i <= names.len(),
                forall|j: int| 0 <= j < i ==> state.in_step_for(names@[j]@),
            decreases names.len() - i,
        {
            if !self.profile_in_step(names[i].as_str()) {
                proof {
                    let f = names@[i as int]@;
                    assert(views(names@)[i as int] == f);
                    assert(views(names@).contains(f));
                    assert(self.profiles@.dom().contains(f));
                    assert(state.profiles.contains_key(f));
                    if state.symmetric() {
                        assert forall|p: Seq<char>| #[trigger]
                            state.active_for(p).contains(f) <==> #[trigger] state.packages_of(
                                f,
                            ).contains(p) by {
                            assert(state.active_for(p).contains(f)
                                <==> state.profiles[f].packages.contains(p));
                        }
                    }
                }
                return false;
            }
            i += 1;
        }
        proof {
            assert forall|p: Seq<char>, f: Seq<char>| state.profiles.contains_key(f) implies (
            #[trigger] state.active_for(p).contains(f)
                <==> #[trigger] state.profiles[f].packages.contains(p)) by {
                assert(self.profiles@.dom().contains(f));
                assert(views(names@).contains(f));
                let j = choose|j: int| 0 <= j < names@.len() && views(names@)[j] == f;
                assert(names@[j]@ == f);
                assert(state.in_step_for(f));
                assert(state.active_for(p).contains(f) <==> state.packages_of(f).contains(p));
            }
        }
        true
    }

    /// Hands the state in memory over for writing. A manager that takes over
    /// the configuration afterwards starts from this state.
    pub fn save_state(&mut self) -> (r: Result<(), Error>)
        ensures
            r is Ok,
            final(self)@ == old(self)@.saved(),
            loaded(final(self).config_mgr) == final(self)@.reloaded(),
    {
        self.config_mgr.config.installations = clone_ledger(&self.installations);
        self.config_mgr.config.profiles = clone_registry(&self.profiles);
        self.config_mgr.config.active_profile = clone_opt_string(&self.active_profile);
        self.config_mgr.save();
        Ok(())
    }
}

} // verus!
