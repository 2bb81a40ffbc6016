//! The data model: configuration, profiles, installation records and their
//! mathematical views.

use crate::string_map::StringMap;
use crate::string_set::StringSet;
use crate::text::{str_eq, views};
use vstd::prelude::*;
use vstd::string::*;

verus! {

/// The view of an optional string.
pub open spec fn opt_view(o: Option<String>) -> Option<Seq<char>> {
    match o {
        Some(s) => Some(s@),
        None => None,
    }
}

/// The bindings of a string-to-string map as pairs of views, oldest key first.
pub open spec fn string_entries(m: StringMap<String>) -> Seq<(Seq<char>, Seq<char>)> {
    Seq::new(m.order().len(), |i: int| (m.order()[i], m@[m.order()[i]]@))
}

/// A copy of a list of strings.
pub fn clone_strings(v: &Vec<String>) -> (r: Vec<String>)
    ensures
        views(r@) == views(v@),
{
    let mut out: Vec<String> = Vec::new();
    let mut i: usize = 0;
    while i < v.len()
        invariant
            i <= v.len(),
            out@.len() == i,
            forall|j: int| 0 <= j < i ==> out@[j]@ == v@[j]@,
        decreases v.len() - i,
    {
        out.push(v[i].clone());
        i += 1;
    }
    assert(views(out@) =~= views(v@));
    out
}

/// A copy of an optional string.
pub fn clone_opt_string(o: &Option<String>) -> (r: Option<String>)
    ensures
        opt_view(r) == opt_view(*o),
{
    match o {
        Some(s) => Some(s.clone()),
        None => None,
    }
}

/// A copy of a string-to-string map.
pub fn clone_string_map(m: &StringMap<String>) -> (r: StringMap<String>)
    ensures
        string_entries(r) == string_entries(*m),
        r.order() == m.order(),
{
    let r = m.clone();
    let _ = m.len();
    proof {
        assert forall|i: int| 0 <= i < m.order().len() implies r@[r.order()[i]]@ == m@[m.order()[i]]@ by {
            let k = m.order()[i];
            assert(m.order().contains(k));
            assert(m@.dom().contains(k));
            assert(r@.contains_key(k));
        }
        assert(string_entries(r) =~= string_entries(*m));
    }
    r
}

/// A point in time: seconds since the Unix epoch and nanoseconds within the second.
#[derive(Clone, Copy, Debug, PartialEq, Eq, Structural)]
pub struct Timestamp {
    pub secs: i64,
    pub nanos: u32,
}

/// Where the backing dotfiles repository lives.
#[derive(Clone, Debug)]
pub struct Repository {
    pub url: Option<String>,
    pub main_branch: String,
    pub dotfiles_path: String,
}

/// The device that this configuration belongs to.
#[derive(Clone, Debug)]
pub struct Device {
    pub name: String,
    pub branch: String,
}

/// The known groups and which of them are enabled.
#[derive(Clone, Debug)]
pub struct Groups {
    pub global: Vec<String>,
    pub per_device: Vec<String>,
    pub enabled_global: Vec<String>,
    pub enabled_devices: Vec<String>,
}

/// The view of [`Groups`].
pub struct GroupsView {
    pub global: Seq<Seq<char>>,
    pub per_device: Seq<Seq<char>>,
    pub enabled_global: Seq<Seq<char>>,
    pub enabled_devices: Seq<Seq<char>>,
}

impl View for Groups {
    type V = GroupsView;

    open spec fn view(&self) -> GroupsView {
        GroupsView {
            global: views(self.global@),
            per_device: views(self.per_device@),
            enabled_global: views(self.enabled_global@),
            enabled_devices: views(self.enabled_devices@),
        }
    }
}

/// The aliases of one group and the ones that are switched on.
#[derive(Clone, Debug)]
pub struct AliasGroup {
    pub items: Vec<String>,
    pub active: Vec<String>,
}

/// The outcome of the last installation of a group.
#[derive(Clone, Debug)]
pub struct InstallStatus {
    pub installed: bool,
    pub success: bool,
    pub timestamp: Option<Timestamp>,
    pub error: Option<String>,
}

/// A file of the dotfiles repository and the place it is copied to.
#[derive(Clone, Debug)]
pub struct FileMapping {
    pub source: String,
    pub target: String,
}

/// What a group installs.
#[derive(Clone, Debug)]
pub struct GroupConfig {
    pub name: String,
    pub description: String,
    pub packages: Vec<String>,
    pub aliases: Vec<String>,
    pub scripts: Vec<String>,
    pub files: Vec<FileMapping>,
    pub ssh_keys: Vec<String>,
}

/// The tool that installs a group.
#[derive(Clone, Debug)]
pub enum InstallerType {
    Brew,
    Npm,
    Pnpm,
    Aliases,
    Ssh,
    Zshrc,
    Custom(String),
}

/// The view of [`InstallerType`].
pub enum InstallerTypeView {
    Brew,
    Npm,
    Pnpm,
    Aliases,
    Ssh,
    Zshrc,
    Custom(Seq<char>),
}

impl View for InstallerType {
    type V = InstallerTypeView;

    open spec fn view(&self) -> InstallerTypeView {
        match self {
            InstallerType::Brew => InstallerTypeView::Brew,
            InstallerType::Npm => InstallerTypeView::Npm,
            InstallerType::Pnpm => InstallerTypeView::Pnpm,
            InstallerType::Aliases => InstallerTypeView::Aliases,
            InstallerType::Ssh => InstallerTypeView::Ssh,
            InstallerType::Zshrc => InstallerTypeView::Zshrc,
            InstallerType::Custom(s) => InstallerTypeView::Custom(s@),
        }
    }
}

/// The installer that a group name selects.
pub open spec fn installer_for(name: Seq<char>) -> InstallerTypeView {
    if name == "brew"@ {
        InstallerTypeView::Brew
    } else if name == "npm"@ {
        InstallerTypeView::Npm
    } else if name == "pnpm"@ {
        InstallerTypeView::Pnpm
    } else if name == "aliases"@ {
        InstallerTypeView::Aliases
    } else if name == "ssh"@ {
        InstallerTypeView::Ssh
    } else if name == "zshrc"@ {
        InstallerTypeView::Zshrc
    } else {
        InstallerTypeView::Custom(name)
    }
}

impl InstallerType {
    /// The installer named by a group: one of the six built-in names, else a custom one
    /// that carries the name.
    pub fn from_group_name(name: &str) -> (r: Self)
        ensures
            r@ == installer_for(name@),
    {
        if str_eq(name, "brew") {
            InstallerType::Brew
        } else if str_eq(name, "npm") {
            InstallerType::Npm
        } else if str_eq(name, "pnpm") {
            InstallerType::Pnpm
        } else if str_eq(name, "aliases") {
            InstallerType::Aliases
        } else if str_eq(name, "ssh") {
            InstallerType::Ssh
        } else if str_eq(name, "zshrc") {
            InstallerType::Zshrc
        } else {
            InstallerType::Custom(String::from_str(name))
        }
    }
}

/// An operating system family.
#[derive(Clone, Copy, Debug, PartialEq, Eq, Hash, Structural)]
pub enum OsType {
    MacOS,
    Windows,
    Linux,
    Universal,
}

/// The operating system family that a target name stands for.
pub open spec fn os_for(target: Seq<char>) -> OsType {
    if target == "macos"@ {
        OsType::MacOS
    } else if target == "windows"@ {
        OsType::Windows
    } else if target == "linux"@ {
        OsType::Linux
    } else {
        OsType::Universal
    }
}

impl OsType {
    /// The family of the operating system whose target name is `target`
    /// (`"macos"`, `"windows"`, `"linux"`); any other name is `Universal`.
    pub fn detect(target: &str) -> (r: Self)
        ensures
            r == os_for(target@),
    {
        if str_eq(target, "macos") {
            OsType::MacOS
        } else if str_eq(target, "windows") {
            OsType::Windows
        } else if str_eq(target, "linux") {
            OsType::Linux
        } else {
            OsType::Universal
        }
    }
}

/// Why a package was installed.
#[derive(Debug)]
pub enum InstallationSource {
    Profile(String),
    Global,
    System,
    Manual,
    Dependency(String),
}

/// The view of [`InstallationSource`].
pub enum InstallationSourceView {
    Profile(Seq<char>),
    Global,
    System,
    Manual,
    Dependency(Seq<char>),
}

impl View for InstallationSource {
    type V = InstallationSourceView;

    open spec fn view(&self) -> InstallationSourceView {
        match self {
            InstallationSource::Profile(s) => InstallationSourceView::Profile(s@),
            InstallationSource::Global => InstallationSourceView::Global,
            InstallationSource::System => InstallationSourceView::System,
            InstallationSource::Manual => InstallationSourceView::Manual,
            InstallationSource::Dependency(s) => InstallationSourceView::Dependency(s@),
        }
    }
}

impl Clone for InstallationSource {
    fn clone(&self) -> (r: Self)
        ensures
            r@ == self@,
    {
        match self {
            InstallationSource::Profile(s) => InstallationSource::Profile(s.clone()),
            InstallationSource::Global => InstallationSource::Global,
            InstallationSource::System => InstallationSource::System,
            InstallationSource::Manual => InstallationSource::Manual,
            InstallationSource::Dependency(s) => InstallationSource::Dependency(s.clone()),
        }
    }
}

/// Where a package is installed.
#[derive(Clone, Copy, Debug, PartialEq, Eq, Structural)]
pub enum InstallScope {
    System,
    Global,
    Profile,
    Local,
    Device,
}

/// What to do with a package when its removal is asked for.
#[derive(Clone, Copy, Debug, PartialEq, Eq, Structural)]
pub enum RemovalStrategy {
    Deactivate,
    RemoveFromProfile,
    SmartRemove,
    ForceRemove,
    MarkUnused,
}

/// PATH entries, variables and aliases that a profile brings.
#[derive(Debug)]
pub struct EnvironmentState {
    pub paths_prepend: Vec<String>,
    pub paths_append: Vec<String>,
    pub variables: StringMap<String>,
    pub aliases: StringMap<String>,
    pub active: bool,
}

/// The view of [`EnvironmentState`].
pub struct EnvironmentStateView {
    pub paths_prepend: Seq<Seq<char>>,
    pub paths_append: Seq<Seq<char>>,
    pub variables: Seq<(Seq<char>, Seq<char>)>,
    pub aliases: Seq<(Seq<char>, Seq<char>)>,
    pub active: bool,
}

impl View for EnvironmentState {
    type V = EnvironmentStateView;

    open spec fn view(&self) -> EnvironmentStateView {
        EnvironmentStateView {
            paths_prepend: views(self.paths_prepend@),
            paths_append: views(self.paths_append@),
            variables: string_entries(self.variables),
            aliases: string_entries(self.aliases),
            active: self.active,
        }
    }
}

impl EnvironmentStateView {
    /// The environment of a fresh profile: nothing set, projection switched on.
    pub open spec fn empty() -> EnvironmentStateView {
        EnvironmentStateView {
            paths_prepend: Seq::empty(),
            paths_append: Seq::empty(),
            variables: Seq::empty(),
            aliases: Seq::empty(),
            active: true,
        }
    }
}

impl Default for EnvironmentState {
    fn default() -> (r: Self)
        ensures
            r@ == EnvironmentStateView::empty(),
    {
        let r = EnvironmentState {
            paths_prepend: Vec::new(),
            paths_append: Vec::new(),
            variables: StringMap::new(),
            aliases: StringMap::new(),
            active: true,
        };
        proof {
            assert(r@.paths_prepend =~= Seq::empty());
            assert(r@.paths_append =~= Seq::empty());
            assert(r@.variables =~= Seq::empty());
            assert(r@.aliases =~= Seq::empty());
        }
        r
    }
}

impl Clone for EnvironmentState {
    fn clone(&self) -> (r: Self)
        ensures
            r@ == self@,
    {
        EnvironmentState {
            paths_prepend: clone_strings(&self.paths_prepend),
            paths_append: clone_strings(&self.paths_append),
            variables: clone_string_map(&self.variables),
            aliases: clone_string_map(&self.aliases),
            active: self.active,
        }
    }
}

/// What a profile changes on one operating system family.
#[derive(Debug)]
pub struct ProfileOverride {
    pub packages: Vec<String>,
    pub environment: Option<EnvironmentState>,
}

/// The view of [`ProfileOverride`].
pub struct ProfileOverrideView {
    pub packages: Seq<Seq<char>>,
    pub environment: Option<EnvironmentStateView>,
}

impl View for ProfileOverride {
    type V = ProfileOverrideView;

    open spec fn view(&self) -> ProfileOverrideView {
        ProfileOverrideView {
            packages: views(self.packages@),
            environment: match self.environment {
                Some(e) => Some(e@),
                None => None,
            },
        }
    }
}

impl Clone for ProfileOverride {
    fn clone(&self) -> (r: Self)
        ensures
            r@ == self@,
    {
        ProfileOverride {
            packages: clone_strings(&self.packages),
            environment: match &self.environment {
                Some(e) => Some(e.clone()),
                None => None,
            },
        }
    }
}

/// One operating system family with what a profile changes on it.
#[derive(Debug)]
pub struct OsOverride {
    pub os: OsType,
    pub settings: ProfileOverride,
}

/// The views of a list of per-system overrides.
pub open spec fn override_views(v: Seq<OsOverride>) -> Seq<(OsType, ProfileOverrideView)> {
    Seq::new(v.len(), |i: int| (v[i].os, v[i].settings@))
}

/// A copy of a list of per-system overrides.
pub fn clone_overrides(v: &Vec<OsOverride>) -> (r: Vec<OsOverride>)
    ensures
        override_views(r@) == override_views(v@),
{
    let mut out: Vec<OsOverride> = Vec::new();
    let mut i: usize = 0;
    while i < v.len()
        invariant
            i <= v.len(),
            out@.len() == i,
            forall|j: int| 0 <= j < i ==> out@[j].os == v@[j].os && out@[j].settings@ == v@[j].settings@,
        decreases v.len() - i,
    {
        out.push(OsOverride { os: v[i].os, settings: v[i].settings.clone() });
        i += 1;
    }
    assert(override_views(out@) =~= override_views(v@));
    out
}

/// A named bundle of packages and environment settings.
#[derive(Debug)]
pub struct Profile {
    pub name: String,
    pub parent: Option<String>,
    pub packages: StringSet,
    pub environment: EnvironmentState,
    pub os_overrides: Vec<OsOverride>,
}

/// The view of [`Profile`].
pub struct ProfileView {
    pub name: Seq<char>,
    pub parent: Option<Seq<char>>,
    pub packages: Set<Seq<char>>,
    pub environment: EnvironmentStateView,
    pub os_overrides: Seq<(OsType, ProfileOverrideView)>,
}

impl View for Profile {
    type V = ProfileView;

    open spec fn view(&self) -> ProfileView {
        ProfileView {
            name: self.name@,
            parent: opt_view(self.parent),
            packages: self.packages@,
            environment: self.environment@,
            os_overrides: override_views(self.os_overrides@),
        }
    }
}

impl ProfileView {
    /// A profile as it is created: no packages, an empty environment, no overrides.
    pub open spec fn fresh(name: Seq<char>, parent: Option<Seq<char>>) -> ProfileView {
        ProfileView {
            name,
            parent,
            packages: Set::empty(),
            environment: EnvironmentStateView::empty(),
            os_overrides: Seq::empty(),
        }
    }
}

impl Clone for Profile {
    fn clone(&self) -> (r: Self)
        ensures
            r@ == self@,
    {
        Profile {
            name: self.name.clone(),
            parent: clone_opt_string(&self.parent),
            packages: self.packages.clone(),
            environment: self.environment.clone(),
            os_overrides: clone_overrides(&self.os_overrides),
        }
    }
}

/// What is known of one installed package.
#[derive(Debug)]
pub struct InstallationRecord {
    pub package: String,
    pub version: Option<String>,
    pub installed_at: Timestamp,
    pub installed_by: InstallationSource,
    pub active_for: StringSet,
    pub scope: InstallScope,
    pub location: Option<String>,
    pub installer_type: String,
}

/// The view of [`InstallationRecord`].
pub struct InstallationRecordView {
    pub package: Seq<char>,
    pub version: Option<Seq<char>>,
    pub installed_at: Timestamp,
    pub installed_by: InstallationSourceView,
    pub active_for: Set<Seq<char>>,
    pub scope: InstallScope,
    pub location: Option<Seq<char>>,
    pub installer_type: Seq<char>,
}

impl View for InstallationRecord {
    type V = InstallationRecordView;

    open spec fn view(&self) -> InstallationRecordView {
        InstallationRecordView {
            package: self.package@,
            version: opt_view(self.version),
            installed_at: self.installed_at,
            installed_by: self.installed_by@,
            active_for: self.active_for@,
            scope: self.scope,
            location: opt_view(self.location),
            installer_type: self.installer_type@,
        }
    }
}

impl Clone for InstallationRecord {
    fn clone(&self) -> (r: Self)
        ensures
            r@ == self@,
    {
        InstallationRecord {
            package: self.package.clone(),
            version: clone_opt_string(&self.version),
            installed_at: self.installed_at,
            installed_by: self.installed_by.clone(),
            active_for: self.active_for.clone(),
            scope: self.scope,
            location: clone_opt_string(&self.location),
            installer_type: self.installer_type.clone(),
        }
    }
}

/// The view of a ledger: each package name with the view of its record.
pub open spec fn ledger_view(m: StringMap<InstallationRecord>) -> Map<
    Seq<char>,
    InstallationRecordView,
> {
    Map::new(|k: Seq<char>| m@.contains_key(k), |k: Seq<char>| m@[k]@)
}

/// The view of a registry: each profile name with the view of its profile.
pub open spec fn registry_view(m: StringMap<Profile>) -> Map<Seq<char>, ProfileView> {
    Map::new(|k: Seq<char>| m@.contains_key(k), |k: Seq<char>| m@[k]@)
}

/// A copy of a ledger.
pub fn clone_ledger(m: &StringMap<InstallationRecord>) -> (r: StringMap<InstallationRecord>)
    ensures
        ledger_view(r) == ledger_view(*m),
        r.order() == m.order(),
{
    let r = m.clone();
    assert(ledger_view(r) =~= ledger_view(*m));
    r
}

/// A copy of a registry.
pub fn clone_registry(m: &StringMap<Profile>) -> (r: StringMap<Profile>)
    ensures
        registry_view(r) == registry_view(*m),
        r.order() == m.order(),
{
    let r = m.clone();
    assert(registry_view(r) =~= registry_view(*m));
    r
}

/// The whole configuration as it is persisted.
#[derive(Clone, Debug)]
pub struct Config {
    pub repository: Repository,
    pub device: Device,
    pub groups: Groups,
    pub aliases: StringMap<AliasGroup>,
    pub status: StringMap<InstallStatus>,
    pub profiles: StringMap<Profile>,
    pub active_profile: Option<String>,
    pub installations: StringMap<InstallationRecord>,
}

impl Default for Repository {
    fn default() -> (r: Self)
        ensures
            r.url.is_none(),
            r.main_branch@ == Seq::<char>::empty(),
            r.dotfiles_path@ == Seq::<char>::empty(),
    {
        Repository { url: None, main_branch: String::new(), dotfiles_path: String::new() }
    }
}

impl Default for Device {
    fn default() -> (r: Self)
        ensures
            r.name@ == Seq::<char>::empty(),
            r.branch@ == Seq::<char>::empty(),
    {
        Device { name: String::new(), branch: String::new() }
    }
}

impl Default for Groups {
    fn default() -> (r: Self)
        ensures
            r@.global == Seq::<Seq<char>>::empty(),
            r@.per_device == Seq::<Seq<char>>::empty(),
            r@.enabled_global == Seq::<Seq<char>>::empty(),
            r@.enabled_devices == Seq::<Seq<char>>::empty(),
    {
        let r = Groups {
            global: Vec::new(),
            per_device: Vec::new(),
            enabled_global: Vec::new(),
            enabled_devices: Vec::new(),
        };
        proof {
            assert(r@.global =~= Seq::<Seq<char>>::empty());
            assert(r@.per_device =~= Seq::<Seq<char>>::empty());
            assert(r@.enabled_global =~= Seq::<Seq<char>>::empty());
            assert(r@.enabled_devices =~= Seq::<Seq<char>>::empty());
        }
        r
    }
}

impl Default for Config {
    fn default() -> (r: Self)
        ensures
            r.repository.url.is_none(),
            r.repository.main_branch@ == "main"@,
            r.repository.dotfiles_path@ == "~/.local/share/zshrcman/dotfiles"@,
            r.device.name@ == Seq::<char>::empty(),
            r.device.branch@ == Seq::<char>::empty(),
            r.groups@.global == seq!["default"@],
            r.groups@.per_device == Seq::<Seq<char>>::empty(),
            r.groups@.enabled_global == seq!["default"@],
            r.groups@.enabled_devices == Seq::<Seq<char>>::empty(),
            r.aliases@ == Map::<Seq<char>, AliasGroup>::empty(),
            r.status@ == Map::<Seq<char>, InstallStatus>::empty(),
            r.profiles@ == Map::<Seq<char>, Profile>::empty(),
            r.active_profile.is_none(),
            r.installations@ == Map::<Seq<char>, InstallationRecord>::empty(),
    {
        let mut global: Vec<String> = Vec::new();
        global.push(String::from_str("default"));
        let mut enabled_global: Vec<String> = Vec::new();
        enabled_global.push(String::from_str("default"));
        let r = Config {
            repository: Repository {
                url: None,
                main_branch: String::from_str("main"),
                dotfiles_path: String::from_str("~/.local/share/zshrcman/dotfiles"),
            },
            device: Device::default(),
            groups: Groups {
                global,
                per_device: Vec::new(),
                enabled_global,
                enabled_devices: Vec::new(),
            },
            aliases: StringMap::new(),
            status: StringMap::new(),
            profiles: StringMap::new(),
            active_profile: None,
            installations: StringMap::new(),
        };
        proof {
            assert(r.groups@.global =~= seq!["default"@]);
            assert(r.groups@.per_device =~= Seq::<Seq<char>>::empty());
            assert(r.groups@.enabled_global =~= seq!["default"@]);
            assert(r.groups@.enabled_devices =~= Seq::<Seq<char>>::empty());
        }
        r
    }
}

} // verus!
