//! What the first set-up of a device decides: names, default groups and the
//! effect of the choices made.

use crate::models::{clone_strings, AliasGroup, Config, GroupConfig, GroupsView};
use crate::modules::alias::{pick, picked};
use crate::modules::config::{append_new, push_new, ConfigManager};
use crate::text::{concat2, concat3, str_starts_with, views};
use vstd::prelude::*;
use vstd::string::*;

verus! {

/// The branch of the device `device_name`.
pub open spec fn device_branch_of(device_name: Seq<char>) -> Seq<char> {
    "device/"@ + device_name
}

/// The device that a branch belongs to: the branch name without a leading
/// `device/`.
pub open spec fn device_of_branch(branch: Seq<char>) -> Seq<char> {
    if "device/"@.is_prefix_of(branch) {
        branch.subrange(7, branch.len() as int)
    } else {
        branch
    }
}

/// The names of the built-in groups, in the order in which they are offered.
pub open spec fn built_in_names() -> Seq<Seq<char>> {
    seq!["default"@, "brew"@, "npm"@, "pnpm"@, "aliases"@, "ssh"@, "zshrc"@]
}

/// The entry of the branch chooser that stands for a new branch.
pub open spec fn new_branch_entry() -> Seq<char> {
    "Create new device branch"@
}

/// The set-up of a device.
#[derive(Clone, Copy, Debug)]
pub struct InitManager;

impl InitManager {
    /// The branch of the device `device_name`.
    pub fn device_branch(device_name: &str) -> (r: String)
        ensures
            r@ == device_branch_of(device_name@),
    {
        concat2("device/", device_name)
    }

    /// The device that `branch` belongs to.
    pub fn device_name(branch: &str) -> (r: String)
        ensures
            r@ == device_of_branch(branch@),
    {
        proof {
            reveal_strlit("device/");
        }
        if str_starts_with(branch, "device/") {
            let n = branch.unicode_len();
            String::from_str(branch.substring_char(7, n))
        } else {
            String::from_str(branch)
        }
    }

    /// What the branch chooser offers: the branches, then the entry for a new one.
    pub fn branch_options(branches: &Vec<String>) -> (r: Vec<String>)
        ensures
            views(r@) == views(branches@).push(new_branch_entry()),
    {
        let mut out = clone_strings(branches);
        let entry = String::from_str("Create new device branch");
        proof {
            assert(views(out@.push(entry)) =~= views(out@).push(entry@));
        }
        out.push(entry);
        out
    }

    /// The names of the built-in groups.
    pub fn built_in_groups() -> (r: Vec<String>)
        ensures
            views(r@) == built_in_names(),
    {
        let mut out: Vec<String> = Vec::new();
        out.push(String::from_str("default"));
        out.push(String::from_str("brew"));
        out.push(String::from_str("npm"));
        out.push(String::from_str("pnpm"));
        out.push(String::from_str("aliases"));
        out.push(String::from_str("ssh"));
        out.push(String::from_str("zshrc"));
        assert(views(out@) =~= built_in_names());
        out
    }

    /// Enables exactly the groups of `names` at the positions `selected`, and
    /// makes each of them a global group if it is not one yet.
    pub fn enable_selected(config_mgr: &mut ConfigManager, names: &Vec<String>, selected: &Vec<usize>)
        requires
            forall|i: int| 0 <= i < selected@.len() ==> selected@[i] < names@.len(),
        ensures
            final(config_mgr).dirty == old(config_mgr).dirty,
            final(config_mgr).config == (Config {
                groups: final(config_mgr).config.groups,
                ..old(config_mgr).config
            }),
            final(config_mgr).config.groups@ == (GroupsView {
                global: append_new(
                    old(config_mgr).config.groups@.global,
                    picked(views(names@), selected@),
                ),
                enabled_global: picked(views(names@), selected@),
                ..old(config_mgr).config.groups@
            }),
    {
        let enabled = pick(names, selected);
        push_new(&mut config_mgr.config.groups.global, &enabled);
        config_mgr.config.groups.enabled_global = enabled;
    }

    /// Gives the group `group` the aliases `aliases`, of which those at the
    /// positions `selected` are switched on.
    pub fn set_group_aliases(
        config_mgr: &mut ConfigManager,
        group: &str,
        aliases: &Vec<String>,
        selected: &Vec<usize>,
    )
        requires
            forall|i: int| 0 <= i < selected@.len() ==> selected@[i] < aliases@.len(),
        ensures
            final(config_mgr).dirty == old(config_mgr).dirty,
            final(config_mgr).config == (Config {
                aliases: final(config_mgr).config.aliases,
                ..old(config_mgr).config
            }),
            final(config_mgr).config.aliases@.dom() == old(config_mgr).config.aliases@.dom().insert(
                group@,
            ),
            forall|g: Seq<char>|
                g != group@ && old(config_mgr).config.aliases@.contains_key(g) ==> final(config_mgr).config.aliases@[g] == old(config_mgr).config.aliases@[g],
            views(final(config_mgr).config.aliases@[group@].items@) == views(aliases@),
            views(final(config_mgr).config.aliases@[group@].active@) == picked(
                views(aliases@),
                selected@,
            ),
    {
        let active = pick(aliases, selected);
        let items = clone_strings(aliases);
        config_mgr.config.aliases.insert(String::from_str(group), AliasGroup { items, active });
        proof {
            assert(config_mgr.config.aliases@.dom() =~= old(config_mgr).config.aliases@.dom().insert(
                group@,
            ));
        }
    }

    /// The message of the commit that records the set-up of `device_name`.
    pub fn commit_message(device_name: &str) -> (r: String)
        ensures
            r@ == "Initialize zshrcman for device '"@ + device_name@ + "'"@,
    {
        concat3("Initialize zshrcman for device '", device_name, "'")
    }

    /// The groups that every repository starts with: `default` with three
    /// aliases, `brew` with three packages, and an empty `npm`.
    pub fn ensure_default_groups() -> (r: Vec<GroupConfig>)
        ensures
            r@.len() == 3,
            r@[0].name@ == "default"@,
            r@[0].description@ == "Default configuration for all devices"@,
            views(r@[0].packages@) == Seq::<Seq<char>>::empty(),
            views(r@[0].aliases@) == seq![
                "alias ll=\"ls -la\""@,
                "alias ..=\"cd ..\""@,
                "alias ...=\"cd ../..\""@,
            ],
            r@[1].name@ == "brew"@,
            r@[1].description@ == "Homebrew packages"@,
            views(r@[1].packages@) == seq!["git"@, "curl"@, "wget"@],
            views(r@[1].aliases@) == Seq::<Seq<char>>::empty(),
            r@[2].name@ == "npm"@,
            r@[2].description@ == "NPM global packages"@,
            views(r@[2].packages@) == Seq::<Seq<char>>::empty(),
            views(r@[2].aliases@) == Seq::<Seq<char>>::empty(),
            forall|i: int|
                0 <= i < 3 ==> (#[trigger] r@[i]).scripts@.len() == 0 && r@[i].files@.len() == 0
                    && r@[i].ssh_keys@.len() == 0,
    {
        let mut default_aliases: Vec<String> = Vec::new();
        default_aliases.push(String::from_str("alias ll=\"ls -la\""));
        default_aliases.push(String::from_str("alias ..=\"cd ..\""));
        default_aliases.push(String::from_str("alias ...=\"cd ../..\""));
        let mut brew_packages: Vec<String> = Vec::new();
        brew_packages.push(String::from_str("git"));
        brew_packages.push(String::from_str("curl"));
        brew_packages.push(String::from_str("wget"));
        let default_config = GroupConfig {
            name: String::from_str("default"),
            description: String::from_str("Default configuration for all devices"),
            packages: Vec::new(),
            aliases: default_aliases,
            scripts: Vec::new(),
            files: Vec::new(),
            ssh_keys: Vec::new(),
        };
        let brew_config = GroupConfig {
            name: String::from_str("brew"),
            description: String::from_str("Homebrew packages"),
            packages: brew_packages,
            aliases: Vec::new(),
            scripts: Vec::new(),
            files: Vec::new(),
            ssh_keys: Vec::new(),
        };
        let npm_config = GroupConfig {
            name: String::from_str("npm"),
            description: String::from_str("NPM global packages"),
            packages: Vec::new(),
            aliases: Vec::new(),
            scripts: Vec::new(),
            files: Vec::new(),
            ssh_keys: Vec::new(),
        };
        proof {
            assert(views(default_config.packages@) =~= Seq::<Seq<char>>::empty());
            assert(views(default_config.aliases@) =~= seq![
                "alias ll=\"ls -la\""@,
                "alias ..=\"cd ..\""@,
                "alias ...=\"cd ../..\""@,
            ]);
            assert(views(brew_config.packages@) =~= seq!["git"@, "curl"@, "wget"@]);
            assert(views(brew_config.aliases@) =~= Seq::<Seq<char>>::empty());
            assert(views(npm_config.packages@) =~= Seq::<Seq<char>>::empty());
            assert(views(npm_config.aliases@) =~= Seq::<Seq<char>>::empty());
        }
        let mut out: Vec<GroupConfig> = Vec::new();
        out.push(default_config);
        out.push(brew_config);
        out.push(npm_config);
        out
    }

    /// The start-up file that a new device gets.
    pub fn scaffold_device_files(device_name: &str) -> (r: String)
        ensures
            r@ == "# .zshrc for device: "@ + device_name@
                + "\n# Generated by zshrcman\n\n# Device-specific configuration goes here\n"@,
    {
        concat3(
            "# .zshrc for device: ",
            device_name,
            "\n# Generated by zshrcman\n\n# Device-specific configuration goes here\n",
        )
    }
}

} // verus!
