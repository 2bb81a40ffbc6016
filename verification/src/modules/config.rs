//! The configuration held in memory, with the rules on its groups.

use crate::error::{Error, ErrorKind};
use crate::models::{Config, GroupsView, InstallStatus};
use crate::text::{concat3, contains_string, str_eq, views};
use vstd::prelude::*;
use vstd::string::*;

verus! {

/// `list` without the strings equal to `item`.
pub open spec fn without_item(list: Seq<Seq<char>>, item: Seq<char>) -> Seq<Seq<char>> {
    list.filter(|e: Seq<char>| e != item)
}

/// `acc` followed by those of `items` that it does not hold yet, each once.
pub open spec fn append_new(acc: Seq<Seq<char>>, items: Seq<Seq<char>>) -> Seq<Seq<char>>
    decreases items.len(),
{
    if items.len() == 0 {
        acc
    } else if acc.contains(items[0]) {
        append_new(acc, items.drop_first())
    } else {
        append_new(acc.push(items[0]), items.drop_first())
    }
}

/// The groups to install, in order: `default`, then the enabled global groups,
/// then the enabled device groups, none of them twice.
pub open spec fn ordered_groups(groups: GroupsView) -> Seq<Seq<char>> {
    append_new(append_new(seq!["default"@], groups.enabled_global), groups.enabled_devices)
}

/// Takes the strings equal to `item` out of `list`; the others keep their order.
pub fn retain_other(list: &mut Vec<String>, item: &str)
    ensures
        views(final(list)@) == without_item(views(old(list)@), item@),
{
    let ghost keep = |e: Seq<char>| e != item@;
    let ghost before = views(list@);
    let mut kept: Vec<String> = Vec::new();
    let mut i: usize = 0;
    proof {
        assert(before.take(0) =~= Seq::empty());
        assert(views(kept@) =~= Seq::empty());
        assert(before.take(0).filter(keep) =~= Seq::empty());
    }
    while i < list.len()
        invariant
            i <= list.len(),
            before == views(list@),
            keep == (|e: Seq<char>| e != item@),
            views(kept@) == before.take(i as int).filter(keep),
        decreases list.len() - i,
    {
        proof {
            let next = before.take(i + 1);
            assert(next.drop_last() =~= before.take(i as int));
            assert(next.last() == list@[i as int]@);
            assert(views(kept@.push(list@[i as int])) =~= views(kept@).push(list@[i as int]@));
            assert(next.filter(keep) == (if keep(next.last()) {
                next.drop_last().filter(keep).push(next.last())
            } else {
                next.drop_last().filter(keep)
            })) by {
                reveal_with_fuel(Seq::filter, 2);
            }
        }
        if !str_eq(list[i].as_str(), item) {
            kept.push(list[i].clone());
        }
        i += 1;
    }
    assert(before.take(before.len() as int) =~= before);
    *list = kept;
}

/// Appends to `acc` those of `items` that it does not hold yet.
pub fn push_new(acc: &mut Vec<String>, items: &Vec<String>)
    ensures
        views(final(acc)@) == append_new(views(old(acc)@), views(items@)),
{
    let mut i: usize = 0;
    proof {
        assert(views(items@).skip(0) =~= views(items@));
    }
    while i < items.len()
        invariant
            i <= items.len(),
            append_new(views(old(acc)@), views(items@)) == append_new(
                views(acc@),
                views(items@).skip(i as int),
            ),
        decreases items.len() - i,
    {
        proof {
            let rest = views(items@).skip(i as int);
            assert(rest[0] == items@[i as int]@);
            assert(rest.drop_first() =~= views(items@).skip(i + 1));
            assert(views(acc@.push(items@[i as int])) =~= views(acc@).push(items@[i as int]@));
        }
        if !contains_string(acc, items[i].as_str()) {
            acc.push(items[i].clone());
        }
        i += 1;
    }
}

/// Holds the configuration and remembers whether it has to be written out.
///
/// Writing is the business of whoever owns the file: an operation that changes
/// the configuration calls [`ConfigManager::save`], which raises `dirty`; the
/// owner writes the configuration and lowers the flag with
/// [`ConfigManager::mark_saved`].
#[derive(Debug)]
pub struct ConfigManager {
    pub config: Config,
    pub dirty: bool,
}

impl ConfigManager {
    /// Wraps a configuration that is in step with what is stored.
    pub fn new(config: Config) -> (r: Self)
        ensures
            r.config == config,
            !r.dirty,
    {
        ConfigManager { config, dirty: false }
    }

    /// Whether a change is waiting to be written out.
    pub fn needs_save(&self) -> (r: bool)
        ensures
            r == self.dirty,
    {
        self.dirty
    }

    /// Asks for the configuration to be written out.
    pub fn save(&mut self)
        ensures
            final(self).config == old(self).config,
            final(self).dirty,
    {
        self.dirty = true;
    }

    /// Adds `name` to the global groups and asks for a save, unless the group
    /// is known already.
    pub fn add_global_group(&mut self, name: String) -> (r: Result<(), Error>)
        ensures
            r is Ok,
            final(self).config == (Config {
                groups: final(self).config.groups,
                ..old(self).config
            }),
            final(self).config.groups@ == (if old(self).config.groups@.global.contains(name@) {
                old(self).config.groups@
            } else {
                GroupsView {
                    global: old(self).config.groups@.global.push(name@),
                    ..old(self).config.groups@
                }
            }),
            final(self).dirty == (old(self).dirty || !old(self).config.groups@.global.contains(
                name@,
            )),
    {
        if !contains_string(&self.config.groups.global, name.as_str()) {
            proof {
                assert(views(self.config.groups.global@.push(name)) =~= views(
                    self.config.groups.global@,
                ).push(name@));
            }
            self.config.groups.global.push(name);
            self.save();
        }
        Ok(())
    }

    /// Removes the group `name` from the global groups and from the enabled
    /// ones and asks for a save. Fails with `InvalidOperation`, and changes
    /// nothing, exactly if `name` is `default`.
    pub fn remove_global_group(&mut self, name: &str) -> (r: Result<(), Error>)
        ensures
            name@ == "default"@ ==> *final(self) == *old(self) && (r matches Err(e)
                && e.spec_kind() == ErrorKind::InvalidOperation && e.spec_detail()
                == "Cannot remove built-in 'default' group"@),
            name@ != "default"@ ==> r is Ok && final(self).dirty && final(self).config == (Config {
                groups: final(self).config.groups,
                ..old(self).config
            }) && final(self).config.groups@ == (GroupsView {
                global: without_item(old(self).config.groups@.global, name@),
                enabled_global: without_item(old(self).config.groups@.enabled_global, name@),
                ..old(self).config.groups@
            }),
    {
        if str_eq(name, "default") {
            return Err(
                Error::InvalidOperation(String::from_str("Cannot remove built-in 'default' group")),
            );
        }
        retain_other(&mut self.config.groups.global, name);
        retain_other(&mut self.config.groups.enabled_global, name);
        self.save();
        Ok(())
    }

    /// Enables the global group `name` and asks for a save, unless it is
    /// enabled already. Fails with `NotFound`, and changes nothing, exactly if
    /// no global group has that name.
    pub fn enable_global_group(&mut self, name: &str) -> (r: Result<(), Error>)
        ensures
            !old(self).config.groups@.global.contains(name@) ==> *final(self) == *old(self) && (
            r matches Err(e) && e.spec_kind() == ErrorKind::NotFound && e.spec_detail()
                == "Group '"@ + name@ + "' is not defined"@),
            old(self).config.groups@.global.contains(name@) ==> r is Ok && final(self).config == (
            Config { groups: final(self).config.groups, ..old(self).config })
                && final(self).config.groups@ == (if old(self).config.groups@.enabled_global.contains(name@) {
                old(self).config.groups@
            } else {
                GroupsView {
                    enabled_global: old(self).config.groups@.enabled_global.push(name@),
                    ..old(self).config.groups@
                }
            }) && final(self).dirty == (old(self).dirty || !old(self).config.groups@.enabled_global.contains(name@)),
    {
        if contains_string(&self.config.groups.global, name) {
            if !contains_string(&self.config.groups.enabled_global, name) {
                let owned = String::from_str(name);
                proof {
                    assert(views(self.config.groups.enabled_global@.push(owned)) =~= views(
                        self.config.groups.enabled_global@,
                    ).push(name@));
                }
                self.config.groups.enabled_global.push(owned);
                self.save();
            }
            Ok(())
        } else {
            Err(Error::NotFound(concat3("Group '", name, "' is not defined")))
        }
    }

    /// Disables the global group `name` and asks for a save.
    pub fn disable_global_group(&mut self, name: &str) -> (r: Result<(), Error>)
        ensures
            r is Ok,
            final(self).dirty,
            final(self).config == (Config {
                groups: final(self).config.groups,
                ..old(self).config
            }),
            final(self).config.groups@ == (GroupsView {
                enabled_global: without_item(old(self).config.groups@.enabled_global, name@),
                ..old(self).config.groups@
            }),
    {
        retain_other(&mut self.config.groups.enabled_global, name);
        self.save();
        Ok(())
    }

    /// Adds `name` to the device groups and asks for a save, unless the group
    /// is known already.
    pub fn add_device_group(&mut self, name: String) -> (r: Result<(), Error>)
        ensures
            r is Ok,
            final(self).config == (Config {
                groups: final(self).config.groups,
                ..old(self).config
            }),
            final(self).config.groups@ == (if old(self).config.groups@.per_device.contains(
                name@,
            ) {
                old(self).config.groups@
            } else {
                GroupsView {
                    per_device: old(self).config.groups@.per_device.push(name@),
                    ..old(self).config.groups@
                }
            }),
            final(self).dirty == (old(self).dirty || !old(self).config.groups@.per_device.contains(name@)),
    {
        if !contains_string(&self.config.groups.per_device, name.as_str()) {
            proof {
                assert(views(self.config.groups.per_device@.push(name)) =~= views(
                    self.config.groups.per_device@,
                ).push(name@));
            }
            self.config.groups.per_device.push(name);
            self.save();
        }
        Ok(())
    }

    /// Removes the group `name` from the device groups and from the enabled
    /// ones and asks for a save.
    pub fn remove_device_group(&mut self, name: &str) -> (r: Result<(), Error>)
        ensures
            r is Ok,
            final(self).dirty,
            final(self).config == (Config {
                groups: final(self).config.groups,
                ..old(self).config
            }),
            final(self).config.groups@ == (GroupsView {
                per_device: without_item(old(self).config.groups@.per_device, name@),
                enabled_devices: without_item(old(self).config.groups@.enabled_devices, name@),
                ..old(self).config.groups@
            }),
    {
        retain_other(&mut self.config.groups.per_device, name);
        retain_other(&mut self.config.groups.enabled_devices, name);
        self.save();
        Ok(())
    }

    /// Enables the device group `name` and asks for a save, if there is such a
    /// group and it is not enabled yet; otherwise nothing happens.
    pub fn enable_device_group(&mut self, name: &str) -> (r: Result<(), Error>)
        ensures
            r is Ok,
            final(self).config == (Config {
                groups: final(self).config.groups,
                ..old(self).config
            }),
            final(self).config.groups@ == (if old(self).config.groups@.per_device.contains(name@)
                && !old(self).config.groups@.enabled_devices.contains(name@) {
                GroupsView {
                    enabled_devices: old(self).config.groups@.enabled_devices.push(name@),
                    ..old(self).config.groups@
                }
            } else {
                old(self).config.groups@
            }),
            final(self).dirty == (old(self).dirty || (old(self).config.groups@.per_device.contains(
                name@,
            ) && !old(self).config.groups@.enabled_devices.contains(name@))),
    {
        if contains_string(&self.config.groups.per_device, name) {
            if !contains_string(&self.config.groups.enabled_devices, name) {
                let owned = String::from_str(name);
                proof {
                    assert(views(self.config.groups.enabled_devices@.push(owned)) =~= views(
                        self.config.groups.enabled_devices@,
                    ).push(name@));
                }
                self.config.groups.enabled_devices.push(owned);
                self.save();
            }
        }
        Ok(())
    }

    /// Disables the device group `name` and asks for a save.
    pub fn disable_device_group(&mut self, name: &str) -> (r: Result<(), Error>)
        ensures
            r is Ok,
            final(self).dirty,
            final(self).config == (Config {
                groups: final(self).config.groups,
                ..old(self).config
            }),
            final(self).config.groups@ == (GroupsView {
                enabled_devices: without_item(old(self).config.groups@.enabled_devices, name@),
                ..old(self).config.groups@
            }),
    {
        retain_other(&mut self.config.groups.enabled_devices, name);
        self.save();
        Ok(())
    }

    /// The file that describes the global group `name`, relative to the
    /// dotfiles directory.
    pub fn group_config_file(name: &str) -> (r: String)
        ensures
            r@ == "groups/"@ + name@ + ".toml"@,
    {
        concat3("groups/", name, ".toml")
    }

    /// The file that describes the group `name` of `device`, relative to the
    /// dotfiles directory.
    pub fn device_group_config_file(device: &str, name: &str) -> (r: String)
        ensures
            r@ == "devices/"@ + device@ + "/groups/"@ + name@ + ".toml"@,
    {
        let mut out = concat3("devices/", device, "/groups/");
        out.append(name);
        out.append(".toml");
        out
    }

    /// Records the outcome of installing `group` and asks for a save.
    pub fn update_install_status(&mut self, group: &str, status: InstallStatus) -> (r: Result<
        (),
        Error,
    >)
        ensures
            r is Ok,
            final(self).dirty,
            final(self).config == (Config {
                status: final(self).config.status,
                ..old(self).config
            }),
            final(self).config.status@ == old(self).config.status@.insert(group@, status),
    {
        self.config.status.insert(String::from_str(group), status);
        self.save();
        Ok(())
    }

    /// The groups to install, in order: see [`ordered_groups`].
    pub fn get_ordered_groups(&self) -> (r: Vec<String>)
        ensures
            views(r@) == ordered_groups(self.config.groups@),
    {
        let mut groups: Vec<String> = Vec::new();
        groups.push(String::from_str("default"));
        proof {
            assert(views(groups@) =~= seq!["default"@]);
        }
        push_new(&mut groups, &self.config.groups.enabled_global);
        push_new(&mut groups, &self.config.groups.enabled_devices);
        groups
    }

    /// Forgets every installation outcome and asks for a save.
    pub fn clear_all_status(&mut self) -> (r: Result<(), Error>)
        ensures
            r is Ok,
            final(self).dirty,
            final(self).config == (Config {
                status: final(self).config.status,
                ..old(self).config
            }),
            final(self).config.status@ == Map::<Seq<char>, InstallStatus>::empty(),
    {
        self.config.status.clear();
        self.save();
        Ok(())
    }

    /// Records that the configuration has been written out.
    pub fn mark_saved(&mut self)
        ensures
            final(self).config == old(self).config,
            !final(self).dirty,
    {
        self.dirty = false;
    }
}

} // verus!
