//! What installing and uninstalling a group comes to: the commands to run and
//! the text of the files to write.

use crate::error::Error;
use crate::models::{
    clone_strings, installer_for, Config, GroupConfig, InstallStatus, InstallerType,
    InstallerTypeView, Timestamp,
};
use crate::modules::config::ConfigManager;
use crate::modules::environment::{item_lines, push_item_lines};
use crate::text::{
    contains_text, join, join_with, lemma_split_pieces, split, split_on, str_contains, to_chars,
    views,
};
use vstd::prelude::*;
use vstd::string::*;

verus! {

/// What has to be done outside to install or uninstall a group.
#[derive(Debug)]
pub enum InstallStep {
    /// Run a program: its name, then its arguments.
    Run(Vec<String>),
    /// Add the group's active aliases to the aliases file.
    WriteAliases,
    /// Take the managed lines out of the aliases file.
    RemoveAliases,
    /// Copy these keys into place and register them.
    AddSshKeys(Vec<String>),
    /// Make the shell start-up file read these scripts.
    SourceScripts(Vec<String>),
    /// Nothing.
    Nothing,
}

/// The view of [`InstallStep`].
pub enum InstallStepView {
    Run(Seq<Seq<char>>),
    WriteAliases,
    RemoveAliases,
    AddSshKeys(Seq<Seq<char>>),
    SourceScripts(Seq<Seq<char>>),
    Nothing,
}

impl View for InstallStep {
    type V = InstallStepView;

    open spec fn view(&self) -> InstallStepView {
        match self {
            InstallStep::Run(words) => InstallStepView::Run(views(words@)),
            InstallStep::WriteAliases => InstallStepView::WriteAliases,
            InstallStep::RemoveAliases => InstallStepView::RemoveAliases,
            InstallStep::AddSshKeys(keys) => InstallStepView::AddSshKeys(views(keys@)),
            InstallStep::SourceScripts(scripts) => InstallStepView::SourceScripts(views(scripts@)),
            InstallStep::Nothing => InstallStepView::Nothing,
        }
    }
}

/// The step that runs `words` on `packages`; nothing where there is no package.
pub open spec fn run_on(words: Seq<Seq<char>>, packages: Seq<Seq<char>>) -> InstallStepView {
    if packages.len() == 0 {
        InstallStepView::Nothing
    } else {
        InstallStepView::Run(words + packages)
    }
}

/// The step that installs a group with the given installer.
pub open spec fn install_step(
    installer: InstallerTypeView,
    packages: Seq<Seq<char>>,
    ssh_keys: Seq<Seq<char>>,
    scripts: Seq<Seq<char>>,
) -> InstallStepView {
    match installer {
        InstallerTypeView::Brew => run_on(seq!["brew"@, "install"@], packages),
        InstallerTypeView::Npm => run_on(seq!["npm"@, "install"@, "-g"@], packages),
        InstallerTypeView::Pnpm => run_on(seq!["pnpm"@, "add"@, "-g"@], packages),
        InstallerTypeView::Aliases => InstallStepView::WriteAliases,
        InstallerTypeView::Ssh => if ssh_keys.len() == 0 {
            InstallStepView::Nothing
        } else {
            InstallStepView::AddSshKeys(ssh_keys)
        },
        InstallerTypeView::Zshrc => if scripts.len() == 0 {
            InstallStepView::Nothing
        } else {
            InstallStepView::SourceScripts(scripts)
        },
        InstallerTypeView::Custom(_) => InstallStepView::Nothing,
    }
}

/// The step that uninstalls a group with the given installer.
pub open spec fn uninstall_step(installer: InstallerTypeView, packages: Seq<Seq<char>>)
    -> InstallStepView {
    match installer {
        InstallerTypeView::Brew => run_on(seq!["brew"@, "uninstall"@], packages),
        InstallerTypeView::Npm => run_on(seq!["npm"@, "uninstall"@, "-g"@], packages),
        InstallerTypeView::Pnpm => run_on(seq!["pnpm"@, "remove"@, "-g"@], packages),
        InstallerTypeView::Aliases => InstallStepView::RemoveAliases,
        _ => InstallStepView::Nothing,
    }
}

/// What is recorded of an installation that ended at `now`, with the failure's
/// text if it failed.
pub open spec fn status_for(error: Option<String>, now: Timestamp) -> InstallStatus {
    InstallStatus { installed: error.is_none(), success: error.is_none(), timestamp: Some(now), error }
}

/// A line without the carriage return that may end it.
pub open spec fn strip_cr(line: Seq<char>) -> Seq<char> {
    if line.len() > 0 && line.last() == '\r' {
        line.drop_last()
    } else {
        line
    }
}

/// The lines of a text. A line ends with a line feed, which a carriage return
/// may precede; neither belongs to the line. What follows the last line feed
/// is a line too unless it is empty.
pub open spec fn text_lines(text: Seq<char>) -> Seq<Seq<char>> {
    let pieces = split_on(text, '\n');
    let ended = pieces.drop_last().map_values(|l: Seq<char>| strip_cr(l));
    if pieces.last().len() == 0 {
        ended
    } else {
        ended.push(pieces.last())
    }
}

/// The aliases file without the lines that mention `zshrcman`; the lines that
/// stay are joined by line feeds.
pub open spec fn without_managed_lines(content: Seq<char>) -> Seq<char> {
    join_with(text_lines(content).filter(|l: Seq<char>| !contains_text(l, "zshrcman"@)), "\n"@)
}

/// The aliases file with the active aliases of a group added under a remark
/// that names the group.
pub open spec fn with_group_aliases(content: Seq<char>, group: Seq<char>, active: Seq<Seq<char>>)
    -> Seq<char> {
    content + "\n# Aliases from zshrcman group '"@ + group + "'\n"@ + item_lines(
        active,
        Seq::empty(),
        "\n"@,
    )
}

/// The shell start-up file with one `source` line per script added under a remark.
pub open spec fn with_scripts(content: Seq<char>, scripts: Seq<Seq<char>>) -> Seq<char> {
    content + "\n# zshrcman managed scripts\n"@ + item_lines(scripts, "source "@, "\n"@)
}

/// The names of the groups that are recorded as installed, oldest first.
pub open spec fn installed_names(config: Config) -> Seq<Seq<char>> {
    config.status.order().filter(
        |g: Seq<char>| config.status@.contains_key(g) && config.status@[g].installed,
    )
}

/// The lines of `text`: see [`text_lines`].
pub fn lines_of(text: &str) -> (r: Vec<String>)
    ensures
        views(r@) == text_lines(text@),
{
    let pieces = split(text, '\n');
    proof {
        lemma_split_pieces(text@, '\n');
    }
    let ghost all = views(pieces@);
    let last = pieces.len() - 1;
    let mut out: Vec<String> = Vec::new();
    let mut i: usize = 0;
    while i < last
        invariant
            i <= last,
            last == pieces@.len() - 1,
            all == views(pieces@),
            out@.len() == i,
            forall|k: int| 0 <= k < i ==> out@[k]@ == strip_cr(all[k]),
        decreases last - i,
    {
        let chars = to_chars(pieces[i].as_str());
        let n = chars.len();
        proof {
            assert(all[i as int] == pieces@[i as int]@);
        }
        if n > 0 && chars[n - 1] == '\r' {
            let line = String::from_str(pieces[i].as_str().substring_char(0, n - 1));
            proof {
                assert(line@ =~= strip_cr(all[i as int]));
            }
            out.push(line);
        } else {
            out.push(pieces[i].clone());
        }
        i += 1;
    }
    let ghost ended = all.drop_last().map_values(|l: Seq<char>| strip_cr(l));
    proof {
        assert(views(out@) =~= ended);
    }
    let rest_len = pieces[last].as_str().unicode_len();
    proof {
        assert(all.last() == pieces@[last as int]@);
    }
    if rest_len != 0 {
        proof {
            assert(views(out@.push(pieces@[last as int])) =~= ended.push(all.last()));
        }
        out.push(pieces[last].clone());
    }
    out
}

/// A copy of `list` with `words` in front.
fn with_words(first: &str, second: &str, global: bool, list: &Vec<String>) -> (r: Vec<String>)
    ensures
        views(r@) == (if global {
            seq![first@, second@, "-g"@]
        } else {
            seq![first@, second@]
        }) + views(list@),
{
    let mut out: Vec<String> = Vec::new();
    out.push(String::from_str(first));
    out.push(String::from_str(second));
    if global {
        out.push(String::from_str("-g"));
    }
    let ghost head = views(out@);
    let mut i: usize = 0;
    proof {
        assert(head =~= (if global {
            seq![first@, second@, "-g"@]
        } else {
            seq![first@, second@]
        }));
    }
    while i < list.len()
        invariant
            i <= list.len(),
            out@.len() == head.len() + i,
            forall|k: int| 0 <= k < head.len() ==> out@[k]@ == head[k],
            forall|k: int| 0 <= k < i ==> out@[head.len() + k]@ == list@[k]@,
        decreases list.len() - i,
    {
        out.push(list[i].clone());
        i += 1;
    }
    assert(views(out@) =~= head + views(list@));
    out
}

fn run_step(first: &str, second: &str, global: bool, packages: &Vec<String>) -> (r: InstallStep)
    ensures
        r@ == run_on(
            if global {
                seq![first@, second@, "-g"@]
            } else {
                seq![first@, second@]
            },
            views(packages@),
        ),
{
    if packages.len() == 0 {
        InstallStep::Nothing
    } else {
        InstallStep::Run(with_words(first, second, global, packages))
    }
}

/// Plans the installation of groups over a configuration.
#[derive(Debug)]
pub struct InstallManager {
    pub config_mgr: ConfigManager,
}

impl InstallManager {
    /// A planner over `config_mgr`.
    pub fn new(config_mgr: ConfigManager) -> (r: Self)
        ensures
            r.config_mgr == config_mgr,
    {
        InstallManager { config_mgr }
    }

    /// The step that installs the group `group_name`, which `group_config`
    /// describes: the installer follows from the name.
    pub fn install_group(&self, group_name: &str, group_config: &GroupConfig) -> (r: InstallStep)
        ensures
            r@ == install_step(
                installer_for(group_name@),
                views(group_config.packages@),
                views(group_config.ssh_keys@),
                views(group_config.scripts@),
            ),
    {
        match InstallerType::from_group_name(group_name) {
            InstallerType::Brew => run_step("brew", "install", false, &group_config.packages),
            InstallerType::Npm => run_step("npm", "install", true, &group_config.packages),
            InstallerType::Pnpm => run_step("pnpm", "add", true, &group_config.packages),
            InstallerType::Aliases => InstallStep::WriteAliases,
            InstallerType::Ssh => if group_config.ssh_keys.len() == 0 {
                InstallStep::Nothing
            } else {
                InstallStep::AddSshKeys(clone_strings(&group_config.ssh_keys))
            },
            InstallerType::Zshrc => if group_config.scripts.len() == 0 {
                InstallStep::Nothing
            } else {
                InstallStep::SourceScripts(clone_strings(&group_config.scripts))
            },
            InstallerType::Custom(_) => InstallStep::Nothing,
        }
    }

    /// The step that uninstalls the group `group_name`, which `group_config`
    /// describes.
    pub fn uninstall_group(&self, group_name: &str, group_config: &GroupConfig) -> (r: InstallStep)
        ensures
            r@ == uninstall_step(
                installer_for(group_name@),
                views(group_config.packages@),
            ),
    {
        match InstallerType::from_group_name(group_name) {
            InstallerType::Brew => run_step("brew", "uninstall", false, &group_config.packages),
            InstallerType::Npm => run_step("npm", "uninstall", true, &group_config.packages),
            InstallerType::Pnpm => run_step("pnpm", "remove", true, &group_config.packages),
            InstallerType::Aliases => InstallStep::RemoveAliases,
            _ => InstallStep::Nothing,
        }
    }

    /// Records how the installation of `group` ended at `now` — with `error`
    /// if it failed — and asks for a save.
    pub fn record_result(&mut self, group: &str, error: Option<String>, now: Timestamp) -> (r:
        Result<(), Error>)
        ensures
            r is Ok,
            final(self).config_mgr.dirty,
            final(self).config_mgr.config == (Config {
                status: final(self).config_mgr.config.status,
                ..old(self).config_mgr.config
            }),
            final(self).config_mgr.config.status@ == old(self).config_mgr.config.status@.insert(
                group@,
                status_for(error, now),
            ),
    {
        let ok = error.is_none();
        let status = InstallStatus { installed: ok, success: ok, timestamp: Some(now), error };
        self.config_mgr.update_install_status(group, status)
    }

    /// The groups that are recorded as installed, oldest first.
    pub fn installed_groups(&self) -> (r: Vec<String>)
        ensures
            views(r@) == installed_names(self.config_mgr.config),
    {
        let names = self.config_mgr.config.status.keys();
        let ghost keep = |g: Seq<char>|
            self.config_mgr.config.status@.contains_key(g)
                && self.config_mgr.config.status@[g].installed;
        let ghost all = views(names@);
        let mut out: Vec<String> = Vec::new();
        let mut i: usize = 0;
        proof {
            assert(all.take(0) =~= Seq::empty());
            assert(views(out@) =~= Seq::empty());
            assert(all.take(0).filter(keep) =~= Seq::empty());
        }
        while i < names.len()
            invariant
                i <= names.len(),
                all == views(names@),
                all == self.config_mgr.config.status.order(),
                keep == (|g: Seq<char>|
                    self.config_mgr.config.status@.contains_key(g)
                        && self.config_mgr.config.status@[g].installed),
                views(out@) == all.take(i as int).filter(keep),
            decreases names.len() - i,
        {
            proof {
                let next = all.take(i + 1);
                assert(next.drop_last() =~= all.take(i as int));
                assert(next.last() == names@[i as int]@);
                assert(views(out@.push(names@[i as int])) =~= views(out@).push(names@[i as int]@));
                assert(next.filter(keep) == (if keep(next.last()) {
                    next.drop_last().filter(keep).push(next.last())
                } else {
                    next.drop_last().filter(keep)
                })) by {
                    reveal_with_fuel(Seq::filter, 2);
                }
            }
            let installed = match self.config_mgr.config.status.get(names[i].as_str()) {
                Some(status) => status.installed,
                None => false,
            };
            if installed {
                out.push(names[i].clone());
            }
            i += 1;
        }
        assert(all.take(all.len() as int) =~= all);
        out
    }

    /// The aliases file after the group `group_name` was installed, given that
    /// it holds `content` now: the group's active aliases are added under a
    /// remark; a group without aliases adds nothing.
    pub fn install_aliases(&self, content: &str, group_name: &str) -> (r: String)
        ensures
            r@ == (if self.config_mgr.config.aliases@.contains_key(group_name@) {
                with_group_aliases(
                    content@,
                    group_name@,
                    views(self.config_mgr.config.aliases@[group_name@].active@),
                )
            } else {
                content@
            }),
    {
        let mut out = String::from_str(content);
        if let Some(alias_group) = self.config_mgr.config.aliases.get(group_name) {
            out.append("\n# Aliases from zshrcman group '");
            out.append(group_name);
            out.append("'\n");
            push_item_lines(&mut out, &alias_group.active, "", "\n");
            proof {
                reveal_strlit("");
                assert(""@ =~= Seq::<char>::empty());
            }
        }
        out
    }

    /// The aliases file without the lines that mention `zshrcman`.
    pub fn uninstall_aliases(&self, content: &str) -> (r: String)
        ensures
            r@ == without_managed_lines(content@),
    {
        let lines = lines_of(content);
        let ghost keep = |l: Seq<char>| !contains_text(l, "zshrcman"@);
        let ghost all = views(lines@);
        let mut kept: Vec<String> = Vec::new();
        let mut i: usize = 0;
        proof {
            assert(all.take(0) =~= Seq::empty());
            assert(views(kept@) =~= Seq::empty());
            assert(all.take(0).filter(keep) =~= Seq::empty());
        }
        while i < lines.len()
            invariant
                i <= lines.len(),
                all == views(lines@),
                keep == (|l: Seq<char>| !contains_text(l, "zshrcman"@)),
                views(kept@) == all.take(i as int).filter(keep),
            decreases lines.len() - i,
        {
            proof {
                let next = all.take(i + 1);
                assert(next.drop_last() =~= all.take(i as int));
                assert(next.last() == lines@[i as int]@);
                assert(views(kept@.push(lines@[i as int])) =~= views(kept@).push(
                    lines@[i as int]@,
                ));
                assert(next.filter(keep) == (if keep(next.last()) {
                    next.drop_last().filter(keep).push(next.last())
                } else {
                    next.drop_last().filter(keep)
                })) by {
                    reveal_with_fuel(Seq::filter, 2);
                }
            }
            if !str_contains(lines[i].as_str(), "zshrcman") {
                kept.push(lines[i].clone());
            }
            i += 1;
        }
        assert(all.take(all.len() as int) =~= all);
        join(&kept, "\n")
    }

    /// The shell start-up file after the scripts at `script_paths` were
    /// installed, given that it holds `content` now.
    pub fn install_zshrc(&self, content: &str, script_paths: &Vec<String>) -> (r: String)
        ensures
            r@ == with_scripts(content@, views(script_paths@)),
    {
        let mut out = String::from_str(content);
        out.append("\n# zshrcman managed scripts\n");
        push_item_lines(&mut out, script_paths, "source ", "\n");
        out
    }
}

} // verus!
