//! Alias groups: which aliases a group has and which of them are switched on.

use crate::error::{Error, ErrorKind};
use crate::models::{AliasGroup, Config};
use crate::modules::config::{retain_other, without_item, ConfigManager};
use crate::text::{concat3, contains_string, views};
use vstd::prelude::*;
use vstd::string::*;

verus! {

/// One alias of a group and whether it is switched on.
#[derive(Clone, Debug)]
pub struct AliasEntry {
    pub alias: String,
    pub active: bool,
}

/// What there is to say of one group: its name, how many aliases it has, how
/// many are switched on, and the aliases themselves.
#[derive(Clone, Debug)]
pub struct AliasListing {
    pub group: String,
    pub total: usize,
    pub active: usize,
    pub items: Vec<AliasEntry>,
}

/// The entries of a list as pairs of alias and flag.
pub open spec fn entry_views(entries: Seq<AliasEntry>) -> Seq<(Seq<char>, bool)> {
    Seq::new(entries.len(), |i: int| (entries[i].alias@, entries[i].active))
}

/// Each alias of a group with whether the group has it switched on.
pub open spec fn entries_of(group: AliasGroup) -> Seq<(Seq<char>, bool)> {
    Seq::new(
        group.items@.len(),
        |i: int| (group.items@[i]@, views(group.active@).contains(group.items@[i]@)),
    )
}

/// Whether `listing` says of the group `name` what `group` holds.
pub open spec fn lists(listing: AliasListing, name: Seq<char>, group: AliasGroup) -> bool {
    &&& listing.group@ == name
    &&& listing.total == group.items@.len()
    &&& listing.active == group.active@.len()
    &&& entry_views(listing.items@) == entries_of(group)
}

/// The strings of `items` at the positions `selected`, in the order of `selected`.
pub open spec fn picked(items: Seq<Seq<char>>, selected: Seq<usize>) -> Seq<Seq<char>> {
    Seq::new(selected.len(), |i: int| items[selected[i] as int])
}

/// The strings of `items` at the positions `selected`.
pub fn pick(items: &Vec<String>, selected: &Vec<usize>) -> (r: Vec<String>)
    requires
        forall|i: int| 0 <= i < selected@.len() ==> selected@[i] < items@.len(),
    ensures
        views(r@) == picked(views(items@), selected@),
{
    let mut out: Vec<String> = Vec::new();
    let mut i: usize = 0;
    while i < selected.len()
        invariant
            i <= selected.len(),
            forall|k: int| 0 <= k < selected@.len() ==> selected@[k] < items@.len(),
            out@.len() == i,
            forall|k: int| 0 <= k < i ==> out@[k]@ == items@[selected@[k] as int]@,
        decreases selected.len() - i,
    {
        out.push(items[selected[i]].clone());
        i += 1;
    }
    assert(views(out@) =~= picked(views(items@), selected@));
    out
}

/// Whether every position of `selected` is a position of a list of length `len`.
pub fn all_below(selected: &Vec<usize>, len: usize) -> (r: bool)
    ensures
        r == (forall|i: int| 0 <= i < selected@.len() ==> selected@[i] < len),
{
    let mut i: usize = 0;
    while i < selected.len()
        invariant
            i <= selected.len(),
            forall|k: int| 0 <= k < i ==> selected@[k] < len,
        decreases selected.len() - i,
    {
        if selected[i] >= len {
            return false;
        }
        i += 1;
    }
    true
}

/// Works on the alias groups of a configuration.
#[derive(Debug)]
pub struct AliasManager {
    pub config_mgr: ConfigManager,
}

impl AliasManager {
    /// A manager of the alias groups of `config_mgr`.
    pub fn new(config_mgr: ConfigManager) -> (r: Self)
        ensures
            r.config_mgr == config_mgr,
    {
        AliasManager { config_mgr }
    }

    fn listing(name: &str, group: &AliasGroup) -> (r: AliasListing)
        ensures
            lists(r, name@, *group),
    {
        let mut items: Vec<AliasEntry> = Vec::new();
        let mut i: usize = 0;
        while i < group.items.len()
            invariant
                i <= group.items.len(),
                items@.len() == i,
                forall|k: int|
                    0 <= k < i ==> items@[k].alias@ == group.items@[k]@ && items@[k].active
                        == views(group.active@).contains(group.items@[k]@),
            decreases group.items.len() - i,
        {
            let active = contains_string(&group.active, group.items[i].as_str());
            items.push(AliasEntry { alias: group.items[i].clone(), active });
            i += 1;
        }
        assert(entry_views(items@) =~= entries_of(*group));
        AliasListing {
            group: String::from_str(name),
            total: group.items.len(),
            active: group.active.len(),
            items,
        }
    }

    /// What there is to say of the group `group`, or of every group, oldest
    /// first, where none is named. A name that stands for no group gives an
    /// empty list.
    pub fn list(&self, group: Option<&str>) -> (r: Result<Vec<AliasListing>, Error>)
        ensures
            r matches Ok(listings) && (match group {
                Some(name) => if self.config_mgr.config.aliases@.contains_key(name@) {
                    listings@.len() == 1 && lists(
                        listings@[0],
                        name@,
                        self.config_mgr.config.aliases@[name@],
                    )
                } else {
                    listings@.len() == 0
                },
                None => listings@.len() == self.config_mgr.config.aliases.order().len()
                    && forall|i: int|
                    0 <= i < listings@.len() ==> lists(
                        #[trigger] listings@[i],
                        self.config_mgr.config.aliases.order()[i],
                        self.config_mgr.config.aliases@[self.config_mgr.config.aliases.order()[i]],
                    ),
            }),
    {
        let mut out: Vec<AliasListing> = Vec::new();
        match group {
            Some(name) => {
                if let Some(alias_group) = self.config_mgr.config.aliases.get(name) {
                    out.push(Self::listing(name, alias_group));
                }
            },
            None => {
                let names = self.config_mgr.config.aliases.keys();
                let mut i: usize = 0;
                while i < names.len()
                    invariant
                        i <= names.len(),
                        views(names@) == self.config_mgr.config.aliases.order(),
                        self.config_mgr.config.aliases@.dom()
                            == self.config_mgr.config.aliases.order().to_set(),
                        out@.len() == i,
                        forall|k: int|
                            0 <= k < i ==> lists(
                                #[trigger] out@[k],
                                self.config_mgr.config.aliases.order()[k],
                                self.config_mgr.config.aliases@[self.config_mgr.config.aliases.order()[k]],
                            ),
                    decreases names.len() - i,
                {
                    proof {
                        assert(views(names@)[i as int] == names@[i as int]@);
                        assert(self.config_mgr.config.aliases.order().contains(names@[i as int]@));
                        assert(self.config_mgr.config.aliases@.dom().contains(names@[i as int]@));
                    }
                    if let Some(alias_group) = self.config_mgr.config.aliases.get(
                        names[i].as_str(),
                    ) {
                        out.push(Self::listing(names[i].as_str(), alias_group));
                    }
                    i += 1;
                }
            },
        }
        Ok(out)
    }

    /// Adds `alias_def` to the aliases of `group`, creating the group if need
    /// be, and asks for a save. Returns whether the alias was new; nothing
    /// happens if it was not.
    pub fn add(&mut self, group: &str, alias_def: &str) -> (r: Result<bool, Error>)
        ensures
            r == Ok::<bool, Error>(
                !(old(self).config_mgr.config.aliases@.contains_key(group@) && views(
                    old(self).config_mgr.config.aliases@[group@].items@,
                ).contains(alias_def@)),
            ),
            r == Ok::<bool, Error>(false) ==> *final(self) == *old(self),
            r == Ok::<bool, Error>(true) ==> {
                &&& final(self).config_mgr.dirty
                &&& final(self).config_mgr.config == (Config {
                    aliases: final(self).config_mgr.config.aliases,
                    ..old(self).config_mgr.config
                })
                &&& final(self).config_mgr.config.aliases@.dom() == old(self).config_mgr.config.aliases@.dom().insert(group@)
                &&& forall|g: Seq<char>|
                    g != group@ && old(self).config_mgr.config.aliases@.contains_key(g) ==> final(self).config_mgr.config.aliases@[g] == old(self).config_mgr.config.aliases@[g]
                &&& views(final(self).config_mgr.config.aliases@[group@].items@) == (if old(self).config_mgr.config.aliases@.contains_key(group@) {
                    views(old(self).config_mgr.config.aliases@[group@].items@)
                } else {
                    Seq::empty()
                }).push(alias_def@)
                &&& views(final(self).config_mgr.config.aliases@[group@].active@) == (if old(self).config_mgr.config.aliases@.contains_key(group@) {
                    views(old(self).config_mgr.config.aliases@[group@].active@)
                } else {
                    Seq::empty()
                })
            },
    {
        let known = match self.config_mgr.config.aliases.get(group) {
            Some(alias_group) => contains_string(&alias_group.items, alias_def),
            None => false,
        };
        if known {
            return Ok(false);
        }
        let owned = String::from_str(alias_def);
        match self.config_mgr.config.aliases.get_mut(group) {
            Some(alias_group) => {
                proof {
                    assert(views(alias_group.items@.push(owned)) =~= views(alias_group.items@).push(
                        alias_def@,
                    ));
                }
                alias_group.items.push(owned);
            },
            None => {
                let mut items: Vec<String> = Vec::new();
                items.push(owned);
                let active: Vec<String> = Vec::new();
                proof {
                    assert(views(items@) =~= Seq::<Seq<char>>::empty().push(alias_def@));
                    assert(views(active@) =~= Seq::<Seq<char>>::empty());
                }
                self.config_mgr.config.aliases.insert(
                    String::from_str(group),
                    AliasGroup { items, active },
                );
            },
        }
        proof {
            assert(self.config_mgr.config.aliases@.dom() =~= old(self).config_mgr.config.aliases@.dom().insert(group@));
        }
        self.config_mgr.save();
        Ok(true)
    }

    /// Takes `alias_def` out of the aliases of `group`, and out of those that
    /// are switched on, and asks for a save. Returns whether there is such a
    /// group; nothing happens if there is not.
    pub fn remove(&mut self, group: &str, alias_def: &str) -> (r: Result<bool, Error>)
        ensures
            r == Ok::<bool, Error>(old(self).config_mgr.config.aliases@.contains_key(group@)),
            r == Ok::<bool, Error>(false) ==> *final(self) == *old(self),
            r == Ok::<bool, Error>(true) ==> {
                &&& final(self).config_mgr.dirty
                &&& final(self).config_mgr.config == (Config {
                    aliases: final(self).config_mgr.config.aliases,
                    ..old(self).config_mgr.config
                })
                &&& final(self).config_mgr.config.aliases@.dom() == old(self).config_mgr.config.aliases@.dom()
                &&& forall|g: Seq<char>|
                    g != group@ && old(self).config_mgr.config.aliases@.contains_key(g) ==> final(self).config_mgr.config.aliases@[g] == old(self).config_mgr.config.aliases@[g]
                &&& views(final(self).config_mgr.config.aliases@[group@].items@) == without_item(
                    views(old(self).config_mgr.config.aliases@[group@].items@),
                    alias_def@,
                )
                &&& views(final(self).config_mgr.config.aliases@[group@].active@) == without_item(
                    views(old(self).config_mgr.config.aliases@[group@].active@),
                    alias_def@,
                )
            },
    {
        match self.config_mgr.config.aliases.get_mut(group) {
            Some(alias_group) => {
                retain_other(&mut alias_group.items, alias_def);
                retain_other(&mut alias_group.active, alias_def);
            },
            None => {
                return Ok(false);
            },
        }
        proof {
            assert(self.config_mgr.config.aliases@.dom() =~= old(self).config_mgr.config.aliases@.dom());
        }
        self.config_mgr.save();
        Ok(true)
    }

    /// The aliases of `group`, each with whether it is switched on: what a
    /// chooser shows before the choice is made. Fails with `NotFound` exactly
    /// if there is no such group.
    pub fn toggle_choices(&self, group: &str) -> (r: Result<Vec<AliasEntry>, Error>)
        ensures
            match r {
                Ok(entries) => self.config_mgr.config.aliases@.contains_key(group@) && entry_views(
                    entries@,
                ) == entries_of(self.config_mgr.config.aliases@[group@]),
                Err(e) => !self.config_mgr.config.aliases@.contains_key(group@) && e.spec_kind()
                    == ErrorKind::NotFound && e.spec_detail() == "Group '"@ + group@
                    + "' not found"@,
            },
    {
        match self.config_mgr.config.aliases.get(group) {
            Some(alias_group) => Ok(Self::listing(group, alias_group).items),
            None => Err(Error::NotFound(concat3("Group '", group, "' not found"))),
        }
    }

    /// Switches on exactly the aliases of `group` at the positions `selected`
    /// and asks for a save. Returns how many are switched on. Fails with
    /// `NotFound`, and changes nothing, exactly if there is no such group.
    pub fn toggle(&mut self, group: &str, selected: &Vec<usize>) -> (r: Result<usize, Error>)
        requires
            old(self).config_mgr.config.aliases@.contains_key(group@) ==> forall|i: int|
                0 <= i < selected@.len() ==> selected@[i] < old(self).config_mgr.config.aliases@[group@].items@.len(),
        ensures
            match r {
                Ok(n) => {
                    &&& old(self).config_mgr.config.aliases@.contains_key(group@)
                    &&& n == selected@.len()
                    &&& final(self).config_mgr.dirty
                    &&& final(self).config_mgr.config == (Config {
                        aliases: final(self).config_mgr.config.aliases,
                        ..old(self).config_mgr.config
                    })
                    &&& final(self).config_mgr.config.aliases@.dom() == old(self).config_mgr.config.aliases@.dom()
                    &&& forall|g: Seq<char>|
                        g != group@ && old(self).config_mgr.config.aliases@.contains_key(g)
                            ==> final(self).config_mgr.config.aliases@[g] == old(self).config_mgr.config.aliases@[g]
                    &&& final(self).config_mgr.config.aliases@[group@].items == old(self).config_mgr.config.aliases@[group@].items
                    &&& views(final(self).config_mgr.config.aliases@[group@].active@) == picked(
                        views(old(self).config_mgr.config.aliases@[group@].items@),
                        selected@,
                    )
                },
                Err(e) => !old(self).config_mgr.config.aliases@.contains_key(group@) && *final(self)
                    == *old(self) && e.spec_kind() == ErrorKind::NotFound && e.spec_detail()
                    == "Group '"@ + group@ + "' not found"@,
            },
    {
        match self.config_mgr.config.aliases.get_mut(group) {
            Some(alias_group) => {
                let active = pick(&alias_group.items, selected);
                alias_group.active = active;
            },
            None => {
                return Err(Error::NotFound(concat3("Group '", group, "' not found")));
            },
        }
        proof {
            assert(self.config_mgr.config.aliases@.dom() =~= old(self).config_mgr.config.aliases@.dom());
        }
        self.config_mgr.save();
        Ok(selected.len())
    }
}

} // verus!
