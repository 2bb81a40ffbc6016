//! Projection of a profile's environment: shell source text, and the effect
//! on a process environment held in memory.

use crate::error::{Error, ErrorKind};
use crate::models::{string_entries, EnvironmentState, EnvironmentStateView};
use crate::string_map::StringMap;
use crate::text::{
    concat2, concat3, contains_string, contains_text, free_of, join, join_with, lemma_join_split,
    lemma_split_concat, lemma_split_join, lemma_split_pieces, lemma_split_single, split, split_on,
    str_contains, str_ends_with_char, str_starts_with, views,
};
use vstd::prelude::*;
use vstd::string::*;

verus! {

/// The shell family that source text is written for.
#[derive(Clone, Copy, Debug, PartialEq, Eq, Structural)]
pub enum ShellType {
    Zsh,
    Bash,
    Fish,
    PowerShell,
    Cmd,
}

/// One line per item: `before`, the item, `after`.
pub open spec fn item_lines(items: Seq<Seq<char>>, before: Seq<char>, after: Seq<char>) -> Seq<
    char,
>
    decreases items.len(),
{
    if items.len() == 0 {
        Seq::empty()
    } else {
        item_lines(items.drop_last(), before, after) + before + items.last() + after
    }
}

/// One line per pair: `before`, the first part, `between`, the second part, `after`.
pub open spec fn pair_lines(
    pairs: Seq<(Seq<char>, Seq<char>)>,
    before: Seq<char>,
    between: Seq<char>,
    after: Seq<char>,
) -> Seq<char>
    decreases pairs.len(),
{
    if pairs.len() == 0 {
        Seq::empty()
    } else {
        pair_lines(pairs.drop_last(), before, between, after) + before + pairs.last().0 + between
            + pairs.last().1 + after
    }
}

/// `text` if `wanted`, else nothing.
pub open spec fn text_if(wanted: bool, text: Seq<char>) -> Seq<char> {
    if wanted {
        text
    } else {
        Seq::empty()
    }
}

/// Whether the environment names any PATH entry.
pub open spec fn has_paths(env: EnvironmentStateView) -> bool {
    env.paths_prepend.len() > 0 || env.paths_append.len() > 0
}

/// The source text for the POSIX-like shells (zsh and bash).
pub open spec fn bash_config(env: EnvironmentStateView) -> Seq<char> {
    "# zshrcman profile environment\n\n"@ + item_lines(
        env.paths_prepend,
        "export PATH=\""@,
        ":$PATH\"\n"@,
    ) + item_lines(env.paths_append, "export PATH=\"$PATH:"@, "\"\n"@) + text_if(
        has_paths(env),
        "\n"@,
    ) + pair_lines(env.variables, "export "@, "=\""@, "\"\n"@) + text_if(
        env.variables.len() > 0,
        "\n"@,
    ) + pair_lines(env.aliases, "alias "@, "='"@, "'\n"@)
}

/// The source text for fish.
pub open spec fn fish_config(env: EnvironmentStateView) -> Seq<char> {
    "# zshrcman profile environment\n\n"@ + item_lines(
        env.paths_prepend,
        "set -gx PATH "@,
        " $PATH\n"@,
    ) + item_lines(env.paths_append, "set -gx PATH $PATH "@, "\n"@) + text_if(
        has_paths(env),
        "\n"@,
    ) + pair_lines(env.variables, "set -gx "@, " \""@, "\"\n"@) + text_if(
        env.variables.len() > 0,
        "\n"@,
    ) + pair_lines(env.aliases, "alias "@, " '"@, "'\n"@)
}

/// The statement that rebuilds the PATH in PowerShell.
pub open spec fn powershell_path_block(env: EnvironmentStateView) -> Seq<char> {
    "$env:Path = @("@ + item_lines(env.paths_prepend, "\n    \""@, "\","@) + "\n    $env:Path"@
        + item_lines(env.paths_append, ",\n    \""@, "\""@) + "\n) -join ';'\n\n"@
}

/// The source text for PowerShell; aliases become functions.
pub open spec fn powershell_config(env: EnvironmentStateView) -> Seq<char> {
    "# zshrcman profile environment\n\n"@ + text_if(has_paths(env), powershell_path_block(env))
        + pair_lines(env.variables, "$env:"@, " = \""@, "\"\n"@) + text_if(
        env.variables.len() > 0,
        "\n"@,
    ) + pair_lines(env.aliases, "function "@, " { "@, " }\n"@)
}

/// The statement that rebuilds the PATH in a batch file.
pub open spec fn cmd_path_block(env: EnvironmentStateView) -> Seq<char> {
    "set PATH="@ + item_lines(env.paths_prepend, ""@, ";"@) + "%PATH%"@ + item_lines(
        env.paths_append,
        ";"@,
        ""@,
    ) + "\n\n"@
}

/// The remarks that stand in for aliases in a batch file.
pub open spec fn cmd_alias_block(env: EnvironmentStateView) -> Seq<char> {
    "REM Aliases not supported in CMD batch files\n"@ + pair_lines(
        env.aliases,
        "REM "@,
        " = "@,
        "\n"@,
    )
}

/// The source text for batch files, which cannot define aliases: each alias is
/// noted in a remark.
pub open spec fn cmd_config(env: EnvironmentStateView) -> Seq<char> {
    "@echo off\nREM zshrcman profile environment\n\n"@ + text_if(
        has_paths(env),
        cmd_path_block(env),
    ) + pair_lines(env.variables, "set "@, "="@, "\n"@) + text_if(env.variables.len() > 0, "\n"@)
        + text_if(env.aliases.len() > 0, cmd_alias_block(env))
}

/// The source text for the given shell family.
pub open spec fn shell_config(shell: ShellType, env: EnvironmentStateView) -> Seq<char> {
    match shell {
        ShellType::Zsh | ShellType::Bash => bash_config(env),
        ShellType::Fish => fish_config(env),
        ShellType::PowerShell => powershell_config(env),
        ShellType::Cmd => cmd_config(env),
    }
}

/// Appends one line per item to `out`.
pub fn push_item_lines(out: &mut String, items: &Vec<String>, before: &str, after: &str)
    ensures
        final(out)@ == old(out)@ + item_lines(views(items@), before@, after@),
{
    let ghost start = out@;
    let mut i: usize = 0;
    proof {
        assert(views(items@).take(0) =~= Seq::empty());
        assert(out@ =~= start + item_lines(views(items@).take(0), before@, after@));
    }
    while i < items.len()
        invariant
            i <= items.len(),
            out@ == start + item_lines(views(items@).take(i as int), before@, after@),
        decreases items.len() - i,
    {
        proof {
            let next = views(items@).take(i + 1);
            assert(next.drop_last() =~= views(items@).take(i as int));
            assert(next.last() == items@[i as int]@);
        }
        out.append(before);
        out.append(items[i].as_str());
        out.append(after);
        i += 1;
        proof {
            assert(out@ =~= start + item_lines(views(items@).take(i as int), before@, after@));
        }
    }
    assert(views(items@).take(items@.len() as int) =~= views(items@));
}

/// Appends one line per binding of `map` to `out`, oldest key first.
pub fn push_pair_lines(
    out: &mut String,
    map: &StringMap<String>,
    before: &str,
    between: &str,
    after: &str,
)
    ensures
        final(out)@ == old(out)@ + pair_lines(string_entries(*map), before@, between@, after@),
{
    let ghost start = out@;
    let keys = map.keys();
    let ghost pairs = string_entries(*map);
    let mut i: usize = 0;
    proof {
        assert(pairs.take(0) =~= Seq::empty());
        assert(out@ =~= start + pair_lines(pairs.take(0), before@, between@, after@));
    }
    while i < keys.len()
        invariant
            i <= keys.len(),
            pairs == string_entries(*map),
            views(keys@) == map.order(),
            map@.dom() == map.order().to_set(),
            out@ == start + pair_lines(pairs.take(i as int), before@, between@, after@),
        decreases keys.len() - i,
    {
        proof {
            let next = pairs.take(i + 1);
            assert(next.drop_last() =~= pairs.take(i as int));
            assert(views(keys@)[i as int] == keys@[i as int]@);
            assert(map.order().contains(keys@[i as int]@));
            assert(map@.dom().contains(keys@[i as int]@));
            assert(next.last() == (keys@[i as int]@, map@[keys@[i as int]@]@));
        }
        let value = map.get(keys[i].as_str());
        out.append(before);
        out.append(keys[i].as_str());
        out.append(between);
        match value {
            Some(v) => {
                out.append(v.as_str());
            },
            None => {},
        }
        out.append(after);
        i += 1;
        proof {
            assert(out@ =~= start + pair_lines(pairs.take(i as int), before@, between@, after@));
        }
    }
    assert(pairs.take(pairs.len() as int) =~= pairs);
}

/// The variables of a process, held in memory.
///
/// This is the explicit stand-in for the environment of the running process:
/// projection works on it, and whoever owns the real environment copies the
/// result over. What is done here does not outlive that process; the source
/// text of [`shell_config`] is what reaches later shell sessions.
#[derive(Debug)]
pub struct ProcessEnvironment {
    pub variables: StringMap<String>,
}

/// The bindings of a string-to-string map as a map of views.
pub open spec fn string_map_view(m: StringMap<String>) -> Map<Seq<char>, Seq<char>> {
    Map::new(|k: Seq<char>| m@.contains_key(k), |k: Seq<char>| m@[k]@)
}

impl View for ProcessEnvironment {
    type V = Map<Seq<char>, Seq<char>>;

    open spec fn view(&self) -> Map<Seq<char>, Seq<char>> {
        string_map_view(self.variables)
    }
}

/// The value of the variable `name`, if it is set.
pub open spec fn var_of(vars: Map<Seq<char>, Seq<char>>, name: Seq<char>) -> Option<Seq<char>> {
    if vars.contains_key(name) {
        Some(vars[name])
    } else {
        None
    }
}

/// The value of PATH; empty where it is not set.
pub open spec fn path_of(vars: Map<Seq<char>, Seq<char>>) -> Seq<char> {
    match var_of(vars, "PATH"@) {
        Some(p) => p,
        None => Seq::empty(),
    }
}

impl ProcessEnvironment {
    /// An environment without variables.
    pub fn new() -> (r: Self)
        ensures
            r@ == Map::<Seq<char>, Seq<char>>::empty(),
    {
        let r = ProcessEnvironment { variables: StringMap::new() };
        assert(r@ =~= Map::<Seq<char>, Seq<char>>::empty());
        r
    }

    /// The value of `name`, if it is set.
    pub fn get(&self, name: &str) -> (r: Option<&String>)
        ensures
            match r {
                Some(v) => var_of(self@, name@) == Some(v@),
                None => var_of(self@, name@).is_none(),
            },
    {
        self.variables.get(name)
    }

    /// Sets `name` to `value`.
    pub fn set(&mut self, name: &str, value: &str)
        ensures
            final(self)@ == old(self)@.insert(name@, value@),
    {
        self.variables.insert(String::from_str(name), String::from_str(value));
        assert(self@ =~= old(self)@.insert(name@, value@));
    }

    /// Unsets `name`.
    pub fn unset(&mut self, name: &str)
        ensures
            final(self)@ == old(self)@.remove(name@),
    {
        self.variables.remove(name);
        assert(self@ =~= old(self)@.remove(name@));
    }
}

/// A path with its home prefix written out: a leading `~` before `/`, or a
/// leading `$HOME`, is replaced by the home directory. `None` where the path
/// has such a prefix and no home directory is known.
pub open spec fn expand_path(path: Seq<char>, home: Option<Seq<char>>) -> Option<Seq<char>> {
    if "~/"@.is_prefix_of(path) {
        match home {
            Some(h) => Some(h + path.subrange(1, path.len() as int)),
            None => None,
        }
    } else if "$HOME"@.is_prefix_of(path) {
        match home {
            Some(h) => Some(h + path.subrange(5, path.len() as int)),
            None => None,
        }
    } else {
        Some(path)
    }
}

/// All paths expanded, or `None` if one of them cannot be.
pub open spec fn expand_all(paths: Seq<Seq<char>>, home: Option<Seq<char>>) -> Option<
    Seq<Seq<char>>,
>
    decreases paths.len(),
{
    if paths.len() == 0 {
        Some(Seq::empty())
    } else {
        match (expand_all(paths.drop_last(), home), expand_path(paths.last(), home)) {
            (Some(a), Some(b)) => Some(a.push(b)),
            _ => None,
        }
    }
}

/// The entries of a PATH: the pieces between its colons.
pub open spec fn path_entries(path: Seq<char>) -> Seq<Seq<char>> {
    split_on(path, ':')
}

/// Whether `entry` is one of the entries of `path`.
pub open spec fn has_entry(path: Seq<char>, entry: Seq<char>) -> bool {
    path_entries(path).contains(entry)
}

/// PATH after the entries of `paths` were put in front of `rest`, behind the
/// entries in `front` that went there before them. A path that is an entry of
/// the PATH already is left out. The entries end up in the order of `paths`.
pub open spec fn prepend_paths(front: Seq<char>, rest: Seq<char>, paths: Seq<Seq<char>>) -> Seq<
    char,
>
    decreases paths.len(),
{
    if paths.len() == 0 {
        front + rest
    } else if has_entry(front + rest, paths[0]) {
        prepend_paths(front, rest, paths.drop_first())
    } else {
        prepend_paths(front + paths[0] + ":"@, rest, paths.drop_first())
    }
}

/// PATH after the entries of `paths` were put behind `current`, in order. A
/// path that is an entry of the PATH already is left out.
pub open spec fn append_paths(current: Seq<char>, paths: Seq<Seq<char>>) -> Seq<char>
    decreases paths.len(),
{
    if paths.len() == 0 {
        current
    } else if has_entry(current, paths[0]) {
        append_paths(current, paths.drop_first())
    } else {
        append_paths(current + ":"@ + paths[0], paths.drop_first())
    }
}

/// The entries of `current` that equal none of `removed`, in their order.
pub open spec fn kept_entries(current: Seq<char>, removed: Seq<Seq<char>>) -> Seq<Seq<char>> {
    path_entries(current).filter(|e: Seq<char>| !removed.contains(e))
}

/// PATH with every entry that equals one of `removed` taken out.
pub open spec fn path_without(current: Seq<char>, removed: Seq<Seq<char>>) -> Seq<char> {
    join_with(kept_entries(current, removed), ":"@)
}

/// Whether no path of `paths` holds a colon.
pub open spec fn colon_free(paths: Seq<Seq<char>>) -> bool {
    forall|k: int| 0 <= k < paths.len() ==> free_of(#[trigger] paths[k], ':')
}

/// After paths were taken out of a PATH, its entries are the entries that it
/// had and that equal none of them, in their order; so none of the paths is
/// an entry any more. The one exception is a PATH that loses every entry: it
/// ends up empty, and an empty PATH has one entry, the empty one.
pub proof fn lemma_reverse_leaves_the_other_entries(current: Seq<char>, removed: Seq<Seq<char>>)
    ensures
        kept_entries(current, removed).len() > 0 ==> path_entries(path_without(current, removed))
            == kept_entries(current, removed),
        kept_entries(current, removed).len() == 0 ==> path_without(current, removed).len() == 0,
        forall|e: Seq<char>|
            removed.contains(e) && e.len() > 0 ==> !#[trigger] has_entry(
                path_without(current, removed),
                e,
            ),
{
    reveal_strlit(":");
    assert(":"@ =~= seq![':']);
    let keep = |e: Seq<char>| !removed.contains(e);
    let all = path_entries(current);
    let kept = kept_entries(current, removed);
    let result = path_without(current, removed);
    lemma_split_pieces(current, ':');
    if kept.len() == 0 {
        assert(result =~= Seq::<char>::empty());
        lemma_split_single(result, ':');
        assert forall|e: Seq<char>| removed.contains(e) && e.len() > 0 implies !#[trigger] has_entry(
            result,
            e,
        ) by {
            if has_entry(result, e) {
                let i = choose|i: int| 0 <= i < seq![result].len() && seq![result][i] == e;
                assert(e == result);
            }
        }
    } else {
        assert forall|k: int| 0 <= k < kept.len() implies free_of(#[trigger] kept[k], ':') by {
            assert(kept.contains(kept[k]));
            all.lemma_filter_contains_rev(keep, kept[k]);
            let i = choose|i: int| 0 <= i < all.len() && all[i] == kept[k];
            assert(free_of(all[i], ':'));
        }
        lemma_split_join(kept, ':');
        assert forall|e: Seq<char>| removed.contains(e) && e.len() > 0 implies !#[trigger] has_entry(
            result,
            e,
        ) by {
            if has_entry(result, e) {
                let i = choose|i: int| 0 <= i < kept.len() && kept[i] == e;
                all.lemma_filter_pred(keep, i);
            }
        }
    }
}

/// Putting a path without a colon between a front that is empty or ends with
/// a colon and the rest of a PATH makes it an entry and keeps every entry.
pub proof fn lemma_insert_entry(front: Seq<char>, e: Seq<char>, rest: Seq<char>)
    requires
        front.len() == 0 || front.last() == ':',
        free_of(e, ':'),
    ensures
        has_entry(front + e + ":"@ + rest, e),
        forall|y: Seq<char>|
            has_entry(front + rest, y) ==> #[trigger] has_entry(front + e + ":"@ + rest, y),
{
    reveal_strlit(":");
    assert(":"@ =~= seq![':']);
    let tail = e + seq![':'] + rest;
    lemma_split_concat(e, rest, ':');
    lemma_split_single(e, ':');
    assert(split_on(tail, ':') =~= seq![e] + split_on(rest, ':'));
    if front.len() == 0 {
        assert(front + e + ":"@ + rest =~= tail);
        assert(front + rest =~= rest);
        assert(split_on(tail, ':')[0] == e);
        assert forall|y: Seq<char>| has_entry(front + rest, y) implies #[trigger] has_entry(
            front + e + ":"@ + rest,
            y,
        ) by {
            let i = choose|i: int| 0 <= i < split_on(rest, ':').len() && split_on(rest, ':')[i] == y;
            assert(split_on(tail, ':')[i + 1] == y);
        }
    } else {
        let head = front.drop_last();
        assert(front =~= head + seq![':']);
        assert(front + e + ":"@ + rest =~= head + seq![':'] + tail);
        assert(front + rest =~= head + seq![':'] + rest);
        lemma_split_concat(head, tail, ':');
        lemma_split_concat(head, rest, ':');
        let h = split_on(head, ':');
        let new = split_on(head + seq![':'] + tail, ':');
        assert(new =~= h + (seq![e] + split_on(rest, ':')));
        assert(new[h.len() as int] == e);
        assert forall|y: Seq<char>| has_entry(front + rest, y) implies #[trigger] has_entry(
            front + e + ":"@ + rest,
            y,
        ) by {
            let old = h + split_on(rest, ':');
            let i = choose|i: int| 0 <= i < old.len() && old[i] == y;
            if i < h.len() {
                assert(new[i] == y);
            } else {
                assert(new[i + 1] == y);
            }
        }
    }
}

/// After prepending, every path that was prepended is an entry, and so is
/// every entry that the PATH had.
pub proof fn lemma_prepend_entries(front: Seq<char>, rest: Seq<char>, paths: Seq<Seq<char>>)
    requires
        front.len() == 0 || front.last() == ':',
        colon_free(paths),
    ensures
        forall|y: Seq<char>|
            has_entry(front + rest, y) || paths.contains(y) ==> #[trigger] has_entry(
                prepend_paths(front, rest, paths),
                y,
            ),
    decreases paths.len(),
{
    if paths.len() > 0 {
        let e = paths[0];
        let later = paths.drop_first();
        assert forall|k: int| 0 <= k < later.len() implies free_of(#[trigger] later[k], ':') by {
            assert(later[k] == paths[k + 1]);
        }
        assert forall|y: Seq<char>| paths.contains(y) implies y == e || later.contains(y) by {
            let i = choose|i: int| 0 <= i < paths.len() && paths[i] == y;
            if i > 0 {
                assert(later[i - 1] == y);
            }
        }
        let result = prepend_paths(front, rest, paths);
        if has_entry(front + rest, e) {
            lemma_prepend_entries(front, rest, later);
            assert(result == prepend_paths(front, rest, later));
            assert forall|y: Seq<char>|
                has_entry(front + rest, y) || paths.contains(y) implies #[trigger] has_entry(
                result,
                y,
            ) by {
                if !has_entry(front + rest, y) {
                    assert(y == e || later.contains(y));
                }
            }
        } else {
            reveal_strlit(":");
            assert(":"@ =~= seq![':']);
            let next = front + e + ":"@;
            lemma_insert_entry(front, e, rest);
            assert(next + rest =~= front + e + ":"@ + rest);
            assert(next.last() == ':');
            lemma_prepend_entries(next, rest, later);
            assert(result == prepend_paths(next, rest, later));
            assert forall|y: Seq<char>|
                has_entry(front + rest, y) || paths.contains(y) implies #[trigger] has_entry(
                result,
                y,
            ) by {
                if has_entry(front + rest, y) {
                    assert(has_entry(front + e + ":"@ + rest, y));
                    assert(has_entry(next + rest, y));
                } else {
                    assert(y == e || later.contains(y));
                    if y == e {
                        assert(has_entry(next + rest, y));
                    }
                }
            }
        }
    } else {
        assert forall|y: Seq<char>|
            has_entry(front + rest, y) || paths.contains(y) implies #[trigger] has_entry(
            prepend_paths(front, rest, paths),
            y,
        ) by {
            assert(!paths.contains(y));
        }
    }
}

/// After appending, every path that was appended is an entry, and so is every
/// entry that the PATH had.
pub proof fn lemma_append_entries(current: Seq<char>, paths: Seq<Seq<char>>)
    requires
        colon_free(paths),
    ensures
        forall|y: Seq<char>|
            has_entry(current, y) || paths.contains(y) ==> #[trigger] has_entry(
                append_paths(current, paths),
                y,
            ),
    decreases paths.len(),
{
    if paths.len() > 0 {
        let e = paths[0];
        let later = paths.drop_first();
        assert forall|k: int| 0 <= k < later.len() implies free_of(#[trigger] later[k], ':') by {
            assert(later[k] == paths[k + 1]);
        }
        assert forall|y: Seq<char>| paths.contains(y) implies y == e || later.contains(y) by {
            let i = choose|i: int| 0 <= i < paths.len() && paths[i] == y;
            if i > 0 {
                assert(later[i - 1] == y);
            }
        }
        let result = append_paths(current, paths);
        if has_entry(current, e) {
            lemma_append_entries(current, later);
            assert(result == append_paths(current, later));
            assert forall|y: Seq<char>|
                has_entry(current, y) || paths.contains(y) implies #[trigger] has_entry(
                result,
                y,
            ) by {
                if !has_entry(current, y) {
                    assert(y == e || later.contains(y));
                }
            }
        } else {
            reveal_strlit(":");
            assert(":"@ =~= seq![':']);
            let next = current + ":"@ + e;
            assert(next =~= current + seq![':'] + e);
            lemma_split_concat(current, e, ':');
            lemma_split_single(e, ':');
            let c = split_on(current, ':');
            assert(split_on(next, ':') =~= c + seq![e]);
            assert(split_on(next, ':')[c.len() as int] == e);
            assert(has_entry(next, e));
            assert forall|y: Seq<char>| has_entry(current, y) implies has_entry(next, y) by {
                let i = choose|i: int| 0 <= i < c.len() && c[i] == y;
                assert(split_on(next, ':')[i] == y);
            }
            lemma_append_entries(next, later);
            assert(result == append_paths(next, later));
            assert forall|y: Seq<char>|
                has_entry(current, y) || paths.contains(y) implies #[trigger] has_entry(
                result,
                y,
            ) by {
                if has_entry(current, y) {
                    assert(has_entry(next, y));
                } else {
                    assert(y == e || later.contains(y));
                }
            }
        }
    } else {
        assert forall|y: Seq<char>|
            has_entry(current, y) || paths.contains(y) implies #[trigger] has_entry(
            append_paths(current, paths),
            y,
        ) by {
            assert(!paths.contains(y));
        }
    }
}

/// The text of a front: each of `entries` followed by a colon.
pub open spec fn fronted(entries: Seq<Seq<char>>) -> Seq<char>
    decreases entries.len(),
{
    if entries.len() == 0 {
        Seq::empty()
    } else {
        fronted(entries.drop_last()) + entries.last() + ":"@
    }
}

/// Those of `paths` that are neither in `list`, nor in `others`, nor earlier
/// in `paths`: the entries that inserting `paths` brings in.
pub open spec fn fresh_entries(
    list: Seq<Seq<char>>,
    others: Seq<Seq<char>>,
    paths: Seq<Seq<char>>,
) -> Seq<Seq<char>>
    decreases paths.len(),
{
    if paths.len() == 0 {
        Seq::empty()
    } else if list.contains(paths[0]) || others.contains(paths[0]) {
        fresh_entries(list, others, paths.drop_first())
    } else {
        seq![paths[0]] + fresh_entries(list.push(paths[0]), others, paths.drop_first())
    }
}

/// Every entry that inserting brings in is one of the paths inserted.
pub proof fn lemma_fresh_entries_are_paths(
    list: Seq<Seq<char>>,
    others: Seq<Seq<char>>,
    paths: Seq<Seq<char>>,
)
    ensures
        forall|k: int|
            0 <= k < fresh_entries(list, others, paths).len() ==> paths.contains(
                #[trigger] fresh_entries(list, others, paths)[k],
            ),
    decreases paths.len(),
{
    if paths.len() > 0 {
        let later = paths.drop_first();
        let fresh = fresh_entries(list, others, paths);
        if list.contains(paths[0]) || others.contains(paths[0]) {
            lemma_fresh_entries_are_paths(list, others, later);
            let tail = fresh_entries(list, others, later);
            assert forall|k: int| 0 <= k < fresh.len() implies paths.contains(#[trigger] fresh[k]) by {
                assert(later.contains(tail[k]));
                let i = choose|i: int| 0 <= i < later.len() && later[i] == tail[k];
                assert(paths[i + 1] == fresh[k]);
            }
        } else {
            lemma_fresh_entries_are_paths(list.push(paths[0]), others, later);
            let tail = fresh_entries(list.push(paths[0]), others, later);
            assert forall|k: int| 0 <= k < fresh.len() implies paths.contains(#[trigger] fresh[k]) by {
                if k == 0 {
                    assert(paths[0] == fresh[0]);
                } else {
                    assert(fresh[k] == tail[k - 1]);
                    assert(later.contains(tail[k - 1]));
                    let i = choose|i: int| 0 <= i < later.len() && later[i] == tail[k - 1];
                    assert(paths[i + 1] == fresh[k]);
                }
            }
        }
    }
}

/// The entries of a front followed by the rest of a PATH are the entries of
/// the front and then those of the rest.
pub proof fn lemma_fronted_entries(entries: Seq<Seq<char>>, rest: Seq<char>)
    requires
        colon_free(entries),
    ensures
        path_entries(fronted(entries) + rest) == entries + path_entries(rest),
        fronted(entries).len() == 0 || fronted(entries).last() == ':',
    decreases entries.len(),
{
    reveal_strlit(":");
    assert(":"@ =~= seq![':']);
    if entries.len() == 0 {
        assert(fronted(entries) + rest =~= rest);
        assert(entries + path_entries(rest) =~= path_entries(rest));
    } else {
        let init = entries.drop_last();
        let last = entries.last();
        assert forall|k: int| 0 <= k < init.len() implies free_of(#[trigger] init[k], ':') by {
            assert(init[k] == entries[k]);
        }
        let tail = last + seq![':'] + rest;
        lemma_fronted_entries(init, tail);
        lemma_split_concat(last, rest, ':');
        lemma_split_single(last, ':');
        assert(fronted(entries) + rest =~= fronted(init) + tail);
        assert(entries + path_entries(rest) =~= init + (seq![last] + path_entries(rest)));
    }
}

/// Prepending puts the entries that it brings in behind the front.
pub proof fn lemma_prepend_exact(list: Seq<Seq<char>>, rest: Seq<char>, paths: Seq<Seq<char>>)
    requires
        colon_free(list),
        colon_free(paths),
    ensures
        prepend_paths(fronted(list), rest, paths) == fronted(
            list + fresh_entries(list, path_entries(rest), paths),
        ) + rest,
        colon_free(list + fresh_entries(list, path_entries(rest), paths)),
    decreases paths.len(),
{
    let others = path_entries(rest);
    lemma_fronted_entries(list, rest);
    if paths.len() == 0 {
        assert(list + fresh_entries(list, others, paths) =~= list);
    } else {
        let e = paths[0];
        let later = paths.drop_first();
        assert forall|k: int| 0 <= k < later.len() implies free_of(#[trigger] later[k], ':') by {
            assert(later[k] == paths[k + 1]);
        }
        assert(has_entry(fronted(list) + rest, e) <==> (list.contains(e) || others.contains(e))) by {
            let both = list + others;
            if both.contains(e) {
                let i = choose|i: int| 0 <= i < both.len() && both[i] == e;
                if i < list.len() {
                    assert(list[i] == e);
                } else {
                    assert(others[i - list.len()] == e);
                }
            }
            if list.contains(e) {
                let i = choose|i: int| 0 <= i < list.len() && list[i] == e;
                assert(both[i] == e);
            }
            if others.contains(e) {
                let i = choose|i: int| 0 <= i < others.len() && others[i] == e;
                assert(both[list.len() + i] == e);
            }
        }
        if has_entry(fronted(list) + rest, e) {
            lemma_prepend_exact(list, rest, later);
        } else {
            let grown = list.push(e);
            assert forall|k: int| 0 <= k < grown.len() implies free_of(#[trigger] grown[k], ':') by {
                if k < list.len() {
                    assert(grown[k] == list[k]);
                }
            }
            assert(grown.drop_last() =~= list);
            assert(fronted(grown) == fronted(list) + e + ":"@);
            lemma_prepend_exact(grown, rest, later);
            assert(grown + fresh_entries(grown, others, later) =~= list + fresh_entries(
                list,
                others,
                paths,
            ));
        }
    }
}

/// Appending puts the entries that it brings in behind the entries of the PATH.
pub proof fn lemma_append_exact(current: Seq<char>, paths: Seq<Seq<char>>)
    requires
        colon_free(paths),
    ensures
        path_entries(append_paths(current, paths)) == path_entries(current) + fresh_entries(
            path_entries(current),
            Seq::empty(),
            paths,
        ),
    decreases paths.len(),
{
    let have = path_entries(current);
    let none = Seq::<Seq<char>>::empty();
    if paths.len() == 0 {
        assert(have + fresh_entries(have, none, paths) =~= have);
    } else {
        let e = paths[0];
        let later = paths.drop_first();
        assert forall|k: int| 0 <= k < later.len() implies free_of(#[trigger] later[k], ':') by {
            assert(later[k] == paths[k + 1]);
        }
        if has_entry(current, e) {
            lemma_append_exact(current, later);
        } else {
            reveal_strlit(":");
            assert(":"@ =~= seq![':']);
            let next = current + ":"@ + e;
            assert(next =~= current + seq![':'] + e);
            lemma_split_concat(current, e, ':');
            lemma_split_single(e, ':');
            assert(path_entries(next) =~= have.push(e));
            lemma_append_exact(next, later);
            assert(have.push(e) + fresh_entries(have.push(e), none, later) =~= have
                + fresh_entries(have, none, paths));
        }
    }
}

/// What a filter leaves of a list whose members all fail, or all pass, the test.
pub proof fn lemma_filter_all_or_none(list: Seq<Seq<char>>, test: spec_fn(Seq<char>) -> bool)
    ensures
        (forall|k: int| 0 <= k < list.len() ==> !test(#[trigger] list[k])) ==> list.filter(test)
            == Seq::<Seq<char>>::empty(),
        (forall|k: int| 0 <= k < list.len() ==> test(#[trigger] list[k])) ==> list.filter(test)
            == list,
    decreases list.len(),
{
    reveal_with_fuel(Seq::filter, 2);
    if list.len() > 0 {
        let init = list.drop_last();
        lemma_filter_all_or_none(init, test);
        if forall|k: int| 0 <= k < list.len() ==> !test(#[trigger] list[k]) {
            assert forall|k: int| 0 <= k < init.len() implies !test(#[trigger] init[k]) by {
                assert(init[k] == list[k]);
            }
            assert(!test(list[list.len() - 1]));
        }
        if forall|k: int| 0 <= k < list.len() ==> test(#[trigger] list[k]) {
            assert forall|k: int| 0 <= k < init.len() implies test(#[trigger] init[k]) by {
                assert(init[k] == list[k]);
            }
            assert(test(list[list.len() - 1]));
            assert(init.push(list.last()) =~= list);
        }
    } else {
        assert(list.filter(test) =~= Seq::<Seq<char>>::empty());
    }
}

/// Reversing what was applied gives the PATH back, provided that none of the
/// paths holds a colon and none of them was an entry of the PATH before.
pub proof fn lemma_reverse_undoes_apply(
    path: Seq<char>,
    prepends: Seq<Seq<char>>,
    appends: Seq<Seq<char>>,
)
    requires
        colon_free(prepends),
        colon_free(appends),
        forall|k: int|
            0 <= k < path_entries(path).len() ==> !(prepends + appends).contains(
                #[trigger] path_entries(path)[k],
            ),
    ensures
        path_without(
            append_paths(prepend_paths(Seq::empty(), path, prepends), appends),
            prepends + appends,
        ) == path,
{
    reveal_strlit(":");
    assert(":"@ =~= seq![':']);
    let removed = prepends + appends;
    let keep = |e: Seq<char>| !removed.contains(e);
    let none = Seq::<Seq<char>>::empty();
    let old = path_entries(path);
    let front = fresh_entries(none, old, prepends);
    assert(fronted(none) =~= Seq::<char>::empty());
    lemma_prepend_exact(none, path, prepends);
    assert(none + front =~= front);
    let middle = prepend_paths(Seq::empty(), path, prepends);
    assert(middle == fronted(front) + path);
    lemma_fronted_entries(front, path);
    let applied = append_paths(middle, appends);
    lemma_append_exact(middle, appends);
    let back = fresh_entries(front + old, none, appends);
    assert(path_entries(applied) == (front + old) + back);
    lemma_fresh_entries_are_paths(none, old, prepends);
    lemma_fresh_entries_are_paths(front + old, none, appends);
    assert forall|k: int| 0 <= k < front.len() implies !keep(#[trigger] front[k]) by {
        let i = choose|i: int| 0 <= i < prepends.len() && prepends[i] == front[k];
        assert(removed[i] == front[k]);
    }
    assert forall|k: int| 0 <= k < back.len() implies !keep(#[trigger] back[k]) by {
        let i = choose|i: int| 0 <= i < appends.len() && appends[i] == back[k];
        assert(removed[prepends.len() + i] == back[k]);
    }
    assert forall|k: int| 0 <= k < old.len() implies keep(#[trigger] old[k]) by {}
    lemma_filter_all_or_none(front, keep);
    lemma_filter_all_or_none(back, keep);
    lemma_filter_all_or_none(old, keep);
    Seq::filter_distributes_over_add(front, old, keep);
    Seq::filter_distributes_over_add(front + old, back, keep);
    assert(kept_entries(applied, removed) =~= old);
    lemma_join_split(path, ':');
}

/// Paths that are entries already change nothing, prepended or appended.
pub proof fn lemma_present_paths_change_nothing(current: Seq<char>, paths: Seq<Seq<char>>)
    requires
        forall|k: int| 0 <= k < paths.len() ==> has_entry(current, #[trigger] paths[k]),
    ensures
        prepend_paths(Seq::empty(), current, paths) == current,
        append_paths(current, paths) == current,
    decreases paths.len(),
{
    assert(Seq::<char>::empty() + current =~= current);
    if paths.len() > 0 {
        let later = paths.drop_first();
        assert forall|k: int| 0 <= k < later.len() implies has_entry(
            current,
            #[trigger] later[k],
        ) by {
            assert(later[k] == paths[k + 1]);
        }
        lemma_present_paths_change_nothing(current, later);
    }
}

/// Applying the same PATH entries a second time changes nothing, provided
/// that none of them holds a colon.
pub proof fn lemma_apply_twice_is_apply_once(
    path: Seq<char>,
    prepends: Seq<Seq<char>>,
    appends: Seq<Seq<char>>,
)
    requires
        colon_free(prepends),
        colon_free(appends),
    ensures
        ({
            let once = append_paths(prepend_paths(Seq::empty(), path, prepends), appends);
            append_paths(prepend_paths(Seq::empty(), once, prepends), appends) == once
        }),
{
    let middle = prepend_paths(Seq::empty(), path, prepends);
    let once = append_paths(middle, appends);
    lemma_prepend_entries(Seq::empty(), path, prepends);
    lemma_append_entries(middle, appends);
    assert forall|k: int| 0 <= k < prepends.len() implies has_entry(once, #[trigger] prepends[k]) by {
        assert(prepends.contains(prepends[k]));
        assert(has_entry(middle, prepends[k]));
    }
    assert forall|k: int| 0 <= k < appends.len() implies has_entry(once, #[trigger] appends[k]) by {
        assert(appends.contains(appends[k]));
    }
    lemma_present_paths_change_nothing(once, prepends);
    lemma_present_paths_change_nothing(once, appends);
}

/// PATH after an environment was applied: its prepended entries, the old PATH,
/// its appended entries. `None` where an entry needs a home directory and HOME
/// is not set.
pub open spec fn path_after_apply(env: EnvironmentStateView, vars: Map<Seq<char>, Seq<char>>)
    -> Option<Seq<char>> {
    let home = var_of(vars, "HOME"@);
    match (expand_all(env.paths_prepend, home), expand_all(env.paths_append, home)) {
        (Some(pre), Some(app)) => Some(
            append_paths(prepend_paths(Seq::empty(), path_of(vars), pre), app),
        ),
        _ => None,
    }
}

/// PATH after an environment was reversed: each of its entries is taken out
/// wherever it stands as a whole entry. `None` where an entry needs a home
/// directory and HOME is not set.
pub open spec fn path_after_clear(env: EnvironmentStateView, vars: Map<Seq<char>, Seq<char>>)
    -> Option<Seq<char>> {
    let home = var_of(vars, "HOME"@);
    match (expand_all(env.paths_prepend, home), expand_all(env.paths_append, home)) {
        (Some(pre), Some(app)) => Some(path_without(path_of(vars), pre + app)),
        _ => None,
    }
}

/// The variables after each pair was set, in order.
pub open spec fn set_all(vars: Map<Seq<char>, Seq<char>>, pairs: Seq<(Seq<char>, Seq<char>)>)
    -> Map<Seq<char>, Seq<char>>
    decreases pairs.len(),
{
    if pairs.len() == 0 {
        vars
    } else {
        set_all(vars, pairs.drop_last()).insert(pairs.last().0, pairs.last().1)
    }
}

/// The variables after the first part of each pair was unset.
pub open spec fn unset_all(vars: Map<Seq<char>, Seq<char>>, pairs: Seq<(Seq<char>, Seq<char>)>)
    -> Map<Seq<char>, Seq<char>>
    decreases pairs.len(),
{
    if pairs.len() == 0 {
        vars
    } else {
        unset_all(vars, pairs.drop_last()).remove(pairs.last().0)
    }
}

/// Unsetting variables leaves each variable as it was or unset.
pub proof fn lemma_unset_all_var(
    vars: Map<Seq<char>, Seq<char>>,
    pairs: Seq<(Seq<char>, Seq<char>)>,
    name: Seq<char>,
)
    ensures
        var_of(unset_all(vars, pairs), name) == var_of(vars, name) || var_of(
            unset_all(vars, pairs),
            name,
        ).is_none(),
    decreases pairs.len(),
{
    if pairs.len() > 0 {
        lemma_unset_all_var(vars, pairs.drop_last(), name);
    }
}

/// Taking paths out of a PATH brings in no entry: a path that is not empty and
/// is an entry afterwards was one before.
pub proof fn lemma_reverse_adds_no_entry(current: Seq<char>, removed: Seq<Seq<char>>, e: Seq<char>)
    requires
        e.len() > 0,
        has_entry(path_without(current, removed), e),
    ensures
        has_entry(current, e),
{
    lemma_reverse_leaves_the_other_entries(current, removed);
    let kept = kept_entries(current, removed);
    if kept.len() == 0 {
        lemma_split_single(path_without(current, removed), ':');
        let i = choose|i: int|
            0 <= i < seq![path_without(current, removed)].len() && seq![
                path_without(current, removed),
            ][i] == e;
    } else {
        assert(kept.contains(e));
        path_entries(current).lemma_filter_contains_rev(
            |x: Seq<char>| !removed.contains(x),
            e,
        );
    }
}

/// The paths that an environment names, expanded; none where one of them
/// cannot be expanded.
pub open spec fn expanded_paths(env: EnvironmentStateView, vars: Map<Seq<char>, Seq<char>>)
    -> Seq<Seq<char>> {
    let home = var_of(vars, "HOME"@);
    match (expand_all(env.paths_prepend, home), expand_all(env.paths_append, home)) {
        (Some(pre), Some(app)) => pre + app,
        _ => Seq::empty(),
    }
}

/// After an environment was reversed, none of its expanded paths, unless it
/// is empty, is an entry of PATH.
pub proof fn lemma_cleared_paths_are_gone(
    env: EnvironmentStateView,
    vars: Map<Seq<char>, Seq<char>>,
    e: Seq<char>,
)
    requires
        env_after_clear(env, vars) is Some,
        expanded_paths(env, vars).contains(e),
        e.len() > 0,
    ensures
        !has_entry(path_of(env_after_clear(env, vars)->0), e),
{
    let removed = expanded_paths(env, vars);
    let p = path_without(path_of(vars), removed);
    let with_path = vars.insert("PATH"@, p);
    lemma_unset_all_var(with_path, env.variables, "PATH"@);
    lemma_reverse_leaves_the_other_entries(path_of(vars), removed);
    let after = path_of(env_after_clear(env, vars)->0);
    if after != p {
        assert(after =~= Seq::<char>::empty());
        lemma_split_single(after, ':');
        if has_entry(after, e) {
            let i = choose|i: int| 0 <= i < seq![after].len() && seq![after][i] == e;
        }
    }
}

/// The variables after an environment was applied: unchanged if the
/// environment is switched off; else PATH is rebuilt and each variable set.
/// `None` where PATH cannot be rebuilt.
pub open spec fn env_after_apply(env: EnvironmentStateView, vars: Map<Seq<char>, Seq<char>>)
    -> Option<Map<Seq<char>, Seq<char>>> {
    if !env.active {
        Some(vars)
    } else {
        match path_after_apply(env, vars) {
            Some(p) => Some(set_all(vars.insert("PATH"@, p), env.variables)),
            None => None,
        }
    }
}

/// The variables after an environment was reversed: its entries leave PATH and
/// its variables are unset. `None` where PATH cannot be rebuilt.
pub open spec fn env_after_clear(env: EnvironmentStateView, vars: Map<Seq<char>, Seq<char>>)
    -> Option<Map<Seq<char>, Seq<char>>> {
    match path_after_clear(env, vars) {
        Some(p) => Some(unset_all(vars.insert("PATH"@, p), env.variables)),
        None => None,
    }
}

/// What is reported where a path needs the home directory and HOME is not set.
pub open spec fn home_not_set(e: Error) -> bool {
    e.spec_kind() == ErrorKind::IoFailure && e.spec_detail() == "HOME not set"@
}

/// The path with its home prefix written out.
pub fn expand_one(path: &str, home: Option<&String>) -> (r: Result<String, Error>)
    ensures
        match r {
            Ok(text) => expand_path(path@, opt_str_view(home)) == Some(text@),
            Err(e) => expand_path(path@, opt_str_view(home)).is_none() && home_not_set(e),
        },
{
    let skip: usize = if str_starts_with(path, "~/") {
        1
    } else if str_starts_with(path, "$HOME") {
        5
    } else {
        0
    };
    proof {
        reveal_strlit("~/");
        reveal_strlit("$HOME");
    }
    if skip == 0 {
        return Ok(String::from_str(path));
    }
    match home {
        Some(h) => {
            let n = path.unicode_len();
            let tail = path.substring_char(skip, n);
            Ok(concat2(h.as_str(), tail))
        },
        None => Err(Error::IoFailure(String::from_str("HOME not set"))),
    }
}

/// The view of an optional borrowed string.
pub open spec fn opt_str_view(o: Option<&String>) -> Option<Seq<char>> {
    match o {
        Some(s) => Some(s@),
        None => None,
    }
}

/// All paths with their home prefixes written out.
pub fn expand_each(paths: &Vec<String>, home: Option<&String>) -> (r: Result<Vec<String>, Error>)
    ensures
        match r {
            Ok(v) => expand_all(views(paths@), opt_str_view(home)) == Some(views(v@)),
            Err(e) => expand_all(views(paths@), opt_str_view(home)).is_none() && home_not_set(e),
        },
{
    let mut out: Vec<String> = Vec::new();
    let mut i: usize = 0;
    proof {
        assert(views(paths@).take(0) =~= Seq::empty());
        assert(views(out@) =~= Seq::empty());
    }
    while i < paths.len()
        invariant
            i <= paths.len(),
            expand_all(views(paths@).take(i as int), opt_str_view(home)) == Some(views(out@)),
        decreases paths.len() - i,
    {
        proof {
            let next = views(paths@).take(i + 1);
            assert(next.drop_last() =~= views(paths@).take(i as int));
            assert(next.last() == paths@[i as int]@);
        }
        match expand_one(paths[i].as_str(), home) {
            Ok(text) => {
                proof {
                    assert(views(out@.push(text)) =~= views(out@).push(text@));
                }
                out.push(text);
            },
            Err(e) => {
                proof {
                    lemma_expand_all_fails(views(paths@), opt_str_view(home), i as int);
                }
                return Err(e);
            },
        }
        i += 1;
    }
    assert(views(paths@).take(paths@.len() as int) =~= views(paths@));
    Ok(out)
}

/// If one path cannot be expanded, the list cannot.
pub proof fn lemma_expand_all_fails(paths: Seq<Seq<char>>, home: Option<Seq<char>>, i: int)
    requires
        0 <= i < paths.len(),
        expand_path(paths[i], home).is_none(),
    ensures
        expand_all(paths, home).is_none(),
    decreases paths.len(),
{
    if i < paths.len() - 1 {
        lemma_expand_all_fails(paths.drop_last(), home, i);
    }
}

/// Whether `entry` is one of the entries of `path`.
pub fn path_has_entry(path: &str, entry: &str) -> (r: bool)
    ensures
        r == has_entry(path@, entry@),
{
    let entries = split(path, ':');
    contains_string(&entries, entry)
}

/// PATH with the entries of `paths` put in front, in order.
pub fn prepend_each(current: &str, paths: &Vec<String>) -> (r: String)
    ensures
        r@ == prepend_paths(Seq::empty(), current@, views(paths@)),
{
    let mut front = String::new();
    let mut i: usize = 0;
    proof {
        assert(views(paths@).skip(0) =~= views(paths@));
    }
    while i < paths.len()
        invariant
            i <= paths.len(),
            prepend_paths(Seq::empty(), current@, views(paths@)) == prepend_paths(
                front@,
                current@,
                views(paths@).skip(i as int),
            ),
        decreases paths.len() - i,
    {
        proof {
            let rest = views(paths@).skip(i as int);
            assert(rest[0] == paths@[i as int]@);
            assert(rest.drop_first() =~= views(paths@).skip(i + 1));
        }
        let whole = concat2(front.as_str(), current);
        if !path_has_entry(whole.as_str(), paths[i].as_str()) {
            front.append(paths[i].as_str());
            front.append(":");
        }
        i += 1;
    }
    concat2(front.as_str(), current)
}

/// PATH with the entries of `paths` put behind, in order.
pub fn append_each(current: String, paths: &Vec<String>) -> (r: String)
    ensures
        r@ == append_paths(current@, views(paths@)),
{
    let mut out = current;
    let mut i: usize = 0;
    proof {
        assert(views(paths@).skip(0) =~= views(paths@));
    }
    while i < paths.len()
        invariant
            i <= paths.len(),
            append_paths(current@, views(paths@)) == append_paths(
                out@,
                views(paths@).skip(i as int),
            ),
        decreases paths.len() - i,
    {
        proof {
            let rest = views(paths@).skip(i as int);
            assert(rest[0] == paths@[i as int]@);
            assert(rest.drop_first() =~= views(paths@).skip(i + 1));
        }
        if !path_has_entry(out.as_str(), paths[i].as_str()) {
            out.append(":");
            out.append(paths[i].as_str());
        }
        i += 1;
    }
    out
}

/// PATH with every entry that equals one of `removed` taken out; none of
/// `removed`, unless it is empty, is an entry of the result.
pub fn remove_entries(current: &str, removed: &Vec<String>) -> (r: String)
    ensures
        r@ == path_without(current@, views(removed@)),
        forall|e: Seq<char>|
            views(removed@).contains(e) && e.len() > 0 ==> !#[trigger] has_entry(r@, e),
{
    proof {
        lemma_reverse_leaves_the_other_entries(current@, views(removed@));
    }
    let parts = split(current, ':');
    let ghost keep = |e: Seq<char>| !views(removed@).contains(e);
    let mut kept: Vec<String> = Vec::new();
    let mut i: usize = 0;
    proof {
        assert(views(parts@).take(0) =~= Seq::empty());
        assert(views(kept@) =~= Seq::empty());
        assert(views(parts@).take(0).filter(keep) =~= Seq::empty());
    }
    while i < parts.len()
        invariant
            i <= parts.len(),
            keep == (|e: Seq<char>| !views(removed@).contains(e)),
            views(kept@) == views(parts@).take(i as int).filter(keep),
        decreases parts.len() - i,
    {
        proof {
            let next = views(parts@).take(i + 1);
            assert(next.drop_last() =~= views(parts@).take(i as int));
            assert(next.last() == parts@[i as int]@);
            assert(views(kept@.push(parts@[i as int])) =~= views(kept@).push(parts@[i as int]@));
            assert(next.filter(keep) == (if keep(next.last()) {
                next.drop_last().filter(keep).push(next.last())
            } else {
                next.drop_last().filter(keep)
            })) by {
                reveal_with_fuel(Seq::filter, 2);
            }
        }
        if !contains_string(removed, parts[i].as_str()) {
            kept.push(parts[i].clone());
        }
        i += 1;
    }
    assert(views(parts@).take(parts@.len() as int) =~= views(parts@));
    join(&kept, ":")
}

/// The shell family of a host: on Windows, PowerShell if its module path is
/// set and the batch interpreter otherwise; elsewhere the family named in the
/// login shell's path, zsh before bash before fish, and bash if none is named.
pub open spec fn detected_shell(windows: bool, powershell: bool, shell: Seq<char>) -> ShellType {
    if windows {
        if powershell {
            ShellType::PowerShell
        } else {
            ShellType::Cmd
        }
    } else if contains_text(shell, "zsh"@) {
        ShellType::Zsh
    } else if contains_text(shell, "bash"@) {
        ShellType::Bash
    } else if contains_text(shell, "fish"@) {
        ShellType::Fish
    } else {
        ShellType::Bash
    }
}

/// The shell family of a host. `windows` says whether the host runs Windows,
/// `powershell` whether `PSModulePath` is set, and `shell` is the value of
/// `SHELL`, empty where it is not set.
pub fn detect_shell(windows: bool, powershell: bool, shell: &str) -> (r: ShellType)
    ensures
        r == detected_shell(windows, powershell, shell@),
{
    if windows {
        if powershell {
            ShellType::PowerShell
        } else {
            ShellType::Cmd
        }
    } else if str_contains(shell, "zsh") {
        ShellType::Zsh
    } else if str_contains(shell, "bash") {
        ShellType::Bash
    } else if str_contains(shell, "fish") {
        ShellType::Fish
    } else {
        ShellType::Bash
    }
}

/// The line that makes a shell read the file at `env_path` on start-up.
pub open spec fn source_line_for(shell: ShellType, env_path: Seq<char>) -> Option<Seq<char>> {
    match shell {
        ShellType::Zsh | ShellType::Bash => Some(
            "[ -f "@ + env_path + " ] && source "@ + env_path,
        ),
        ShellType::Fish => Some("test -f "@ + env_path + "; and source "@ + env_path),
        ShellType::PowerShell => Some(". \""@ + env_path + "\""@),
        ShellType::Cmd => None,
    }
}

/// `content` closed with a line break, unless it is empty or closed already.
pub open spec fn closed_with_newline(content: Seq<char>) -> Seq<char> {
    if content.len() > 0 && content.last() != '\n' {
        content + "\n"@
    } else {
        content
    }
}

/// The start-up file with the source line added below a remark; `None` where
/// there is no line to add or `content` holds it already.
pub open spec fn with_source_line(shell: ShellType, content: Seq<char>, env_path: Seq<char>)
    -> Option<Seq<char>> {
    match source_line_for(shell, env_path) {
        None => None,
        Some(line) => if contains_text(content, line) {
            None
        } else {
            Some(closed_with_newline(content) + "\n# zshrcman environment\n"@ + line + "\n"@)
        },
    }
}

/// The shell start-up file of a shell family, relative to the home directory.
pub open spec fn shell_config_file(shell: ShellType, windows: bool) -> Seq<char> {
    match shell {
        ShellType::Zsh => ".zshrc"@,
        ShellType::Bash => ".bashrc"@,
        ShellType::Fish => ".config/fish/config.fish"@,
        ShellType::PowerShell => if windows {
            "Documents/PowerShell/Microsoft.PowerShell_profile.ps1"@
        } else {
            ".config/powershell/profile.ps1"@
        },
        ShellType::Cmd => "zshrcman_env.bat"@,
    }
}

/// Renders environments for one shell family.
#[derive(Clone, Copy, Debug)]
pub struct EnvironmentManager {
    pub shell_type: ShellType,
}

impl EnvironmentManager {
    /// A renderer for the given shell family.
    pub fn with_shell(shell_type: ShellType) -> (r: Self)
        ensures
            r.shell_type == shell_type,
    {
        EnvironmentManager { shell_type }
    }

    /// A renderer for the shell family that [`detect_shell`] finds.
    pub fn new(windows: bool, powershell: bool, shell: &str) -> (r: Self)
        ensures
            r.shell_type == detected_shell(windows, powershell, shell@),
    {
        EnvironmentManager { shell_type: detect_shell(windows, powershell, shell) }
    }

    /// Applies `env_state` to `process`. Nothing happens if the environment is
    /// switched off. Otherwise PATH becomes the prepended entries in their
    /// order, the old PATH, and the appended entries in their order, each entry
    /// expanded and left out if it is an entry of the PATH already; then each
    /// variable is set. Fails, and changes nothing, exactly if an entry needs
    /// the home directory and HOME is not set.
    pub fn apply_profile_environment(
        &self,
        env_state: &EnvironmentState,
        process: &mut ProcessEnvironment,
    ) -> (r: Result<(), Error>)
        ensures
            match env_after_apply(env_state@, old(process)@) {
                Some(vars) => r is Ok && final(process)@ == vars,
                None => final(process)@ == old(process)@ && (r matches Err(e) && home_not_set(e)),
            },
    {
        if !env_state.active {
            return Ok(());
        }
        match self.apply_path_changes(env_state, process) {
            Ok(()) => {},
            Err(e) => {
                return Err(e);
            },
        }
        let ghost base = process@;
        let ghost pairs = string_entries(env_state.variables);
        let keys = env_state.variables.keys();
        let mut i: usize = 0;
        proof {
            assert(pairs.take(0) =~= Seq::empty());
        }
        while i < keys.len()
            invariant
                i <= keys.len(),
                pairs == string_entries(env_state.variables),
                views(keys@) == env_state.variables.order(),
                env_state.variables@.dom() == env_state.variables.order().to_set(),
                process@ == set_all(base, pairs.take(i as int)),
            decreases keys.len() - i,
        {
            proof {
                let next = pairs.take(i + 1);
                assert(next.drop_last() =~= pairs.take(i as int));
                assert(views(keys@)[i as int] == keys@[i as int]@);
                assert(env_state.variables.order().contains(keys@[i as int]@));
                assert(env_state.variables@.dom().contains(keys@[i as int]@));
                assert(next.last() == (
                    keys@[i as int]@,
                    env_state.variables@[keys@[i as int]@]@,
                ));
            }
            if let Some(value) = env_state.variables.get(keys[i].as_str()) {
                process.set(keys[i].as_str(), value.as_str());
            }
            i += 1;
        }
        assert(pairs.take(pairs.len() as int) =~= pairs);
        Ok(())
    }

    /// Reverses `env_state` on `process`: each of its PATH entries, expanded,
    /// leaves PATH wherever it stands as a whole entry, and each of its
    /// variables is unset. Fails, and changes nothing, exactly if an entry
    /// needs the home directory and HOME is not set.
    pub fn clear_profile_environment(
        &self,
        env_state: &EnvironmentState,
        process: &mut ProcessEnvironment,
    ) -> (r: Result<(), Error>)
        ensures
            match env_after_clear(env_state@, old(process)@) {
                Some(vars) => r is Ok && final(process)@ == vars,
                None => final(process)@ == old(process)@ && (r matches Err(e) && home_not_set(e)),
            },
    {
        match self.remove_path_changes(env_state, process) {
            Ok(()) => {},
            Err(e) => {
                return Err(e);
            },
        }
        let ghost base = process@;
        let ghost pairs = string_entries(env_state.variables);
        let keys = env_state.variables.keys();
        let mut i: usize = 0;
        proof {
            assert(pairs.take(0) =~= Seq::empty());
        }
        while i < keys.len()
            invariant
                i <= keys.len(),
                pairs == string_entries(env_state.variables),
                views(keys@) == env_state.variables.order(),
                process@ == unset_all(base, pairs.take(i as int)),
            decreases keys.len() - i,
        {
            proof {
                let next = pairs.take(i + 1);
                assert(next.drop_last() =~= pairs.take(i as int));
                assert(views(keys@)[i as int] == keys@[i as int]@);
                assert(next.last().0 == keys@[i as int]@);
            }
            process.unset(keys[i].as_str());
            i += 1;
        }
        assert(pairs.take(pairs.len() as int) =~= pairs);
        Ok(())
    }

    /// Rebuilds PATH for `env_state`: see [`path_after_apply`].
    pub fn apply_path_changes(&self, env_state: &EnvironmentState, process: &mut ProcessEnvironment)
        -> (r: Result<(), Error>)
        ensures
            match path_after_apply(env_state@, old(process)@) {
                Some(p) => r is Ok && final(process)@ == old(process)@.insert("PATH"@, p),
                None => final(process)@ == old(process)@ && (r matches Err(e) && home_not_set(e)),
            },
    {
        let home = process.get("HOME");
        let prepends = match expand_each(&env_state.paths_prepend, home) {
            Ok(v) => v,
            Err(e) => {
                return Err(e);
            },
        };
        let appends = match expand_each(&env_state.paths_append, home) {
            Ok(v) => v,
            Err(e) => {
                return Err(e);
            },
        };
        let current = match process.get("PATH") {
            Some(p) => p.clone(),
            None => String::new(),
        };
        let with_front = prepend_each(current.as_str(), &prepends);
        let new_path = append_each(with_front, &appends);
        process.set("PATH", new_path.as_str());
        Ok(())
    }

    /// Takes the entries of `env_state` out of PATH: see [`path_after_clear`].
    pub fn remove_path_changes(
        &self,
        env_state: &EnvironmentState,
        process: &mut ProcessEnvironment,
    ) -> (r: Result<(), Error>)
        ensures
            match path_after_clear(env_state@, old(process)@) {
                Some(p) => r is Ok && final(process)@ == old(process)@.insert("PATH"@, p),
                None => final(process)@ == old(process)@ && (r matches Err(e) && home_not_set(e)),
            },
    {
        let home = process.get("HOME");
        let mut removed = match expand_each(&env_state.paths_prepend, home) {
            Ok(v) => v,
            Err(e) => {
                return Err(e);
            },
        };
        let mut appends = match expand_each(&env_state.paths_append, home) {
            Ok(v) => v,
            Err(e) => {
                return Err(e);
            },
        };
        proof {
            assert(views(removed@ + appends@) =~= views(removed@) + views(appends@));
        }
        removed.append(&mut appends);
        let current = match process.get("PATH") {
            Some(p) => p.clone(),
            None => String::new(),
        };
        let new_path = remove_entries(current.as_str(), &removed);
        process.set("PATH", new_path.as_str());
        Ok(())
    }

    /// `path` with its home prefix written out, the home directory being the
    /// value of HOME in `process`.
    pub fn expand_path(&self, path: &str, process: &ProcessEnvironment) -> (r: Result<
        String,
        Error,
    >)
        ensures
            match r {
                Ok(text) => expand_path(path@, var_of(process@, "HOME"@)) == Some(text@),
                Err(e) => expand_path(path@, var_of(process@, "HOME"@)).is_none() && home_not_set(
                    e,
                ),
            },
    {
        expand_one(path, process.get("HOME"))
    }

    /// The line that makes this manager's shell family read the file at
    /// `env_path` on start-up; batch files have no such line.
    pub fn source_line(&self, env_path: &str) -> (r: Option<String>)
        ensures
            match r {
                Some(line) => source_line_for(self.shell_type, env_path@) == Some(line@),
                None => source_line_for(self.shell_type, env_path@).is_none(),
            },
    {
        match self.shell_type {
            ShellType::Zsh | ShellType::Bash => {
                let mut line = concat3("[ -f ", env_path, " ] && source ");
                line.append(env_path);
                Some(line)
            },
            ShellType::Fish => {
                let mut line = concat3("test -f ", env_path, "; and source ");
                line.append(env_path);
                Some(line)
            },
            ShellType::PowerShell => Some(concat3(". \"", env_path, "\"")),
            ShellType::Cmd => None,
        }
    }

    /// What the shell start-up file has to hold so that the file at `env_path`
    /// is read on start-up, given that it holds `content` now; `None` where
    /// nothing is to be written: the shell family has no such line, or the
    /// line stands in `content` already.
    pub fn add_source_line(&self, content: &str, env_path: &str) -> (r: Option<String>)
        ensures
            match r {
                Some(text) => with_source_line(self.shell_type, content@, env_path@) == Some(text@),
                None => with_source_line(self.shell_type, content@, env_path@).is_none(),
            },
    {
        let line = match self.source_line(env_path) {
            Some(l) => l,
            None => {
                return None;
            },
        };
        if str_contains(content, line.as_str()) {
            return None;
        }
        let mut out = String::from_str(content);
        let empty = content.unicode_len() == 0;
        if !str_ends_with_char(content, '\n') && !empty {
            out.append("\n");
        }
        out.append("\n# zshrcman environment\n");
        out.append(line.as_str());
        out.append("\n");
        proof {
            reveal_strlit("\n");
            assert("\n"@ =~= seq!['\n']);
        }
        Some(out)
    }

    /// The shell start-up file of this manager's shell family, relative to the
    /// home directory.
    pub fn get_shell_config_path(&self, windows: bool) -> (r: String)
        ensures
            r@ == shell_config_file(self.shell_type, windows),
    {
        match self.shell_type {
            ShellType::Zsh => String::from_str(".zshrc"),
            ShellType::Bash => String::from_str(".bashrc"),
            ShellType::Fish => String::from_str(".config/fish/config.fish"),
            ShellType::PowerShell => if windows {
                String::from_str("Documents/PowerShell/Microsoft.PowerShell_profile.ps1")
            } else {
                String::from_str(".config/powershell/profile.ps1")
            },
            ShellType::Cmd => String::from_str("zshrcman_env.bat"),
        }
    }

    /// The file that the source text of a profile is written to, below `home`.
    pub fn get_profile_env_path(&self, home: &str) -> (r: String)
        ensures
            r@ == home@ + "/.local/share/zshrcman/env/profile.env"@,
    {
        concat2(home, "/.local/share/zshrcman/env/profile.env")
    }

    /// The source text that sets up `env_state` in this manager's shell family.
    pub fn generate_shell_config(&self, env_state: &EnvironmentState) -> (r: Result<String, Error>)
        ensures
            r matches Ok(text) && text@ == shell_config(self.shell_type, env_state@),
    {
        match self.shell_type {
            ShellType::Zsh | ShellType::Bash => self.generate_bash_config(env_state),
            ShellType::Fish => self.generate_fish_config(env_state),
            ShellType::PowerShell => self.generate_powershell_config(env_state),
            ShellType::Cmd => self.generate_cmd_config(env_state),
        }
    }

    /// The source text for zsh and bash: PATH lines, a blank line if there were
    /// any, one `export` per variable, a blank line if there were any, one
    /// `alias` per alias.
    pub fn generate_bash_config(&self, env_state: &EnvironmentState) -> (r: Result<String, Error>)
        ensures
            r matches Ok(text) && text@ == bash_config(env_state@),
    {
        let mut script = String::from_str("# zshrcman profile environment\n\n");
        push_item_lines(&mut script, &env_state.paths_prepend, "export PATH=\"", ":$PATH\"\n");
        push_item_lines(&mut script, &env_state.paths_append, "export PATH=\"$PATH:", "\"\n");
        if env_state.paths_prepend.len() > 0 || env_state.paths_append.len() > 0 {
            script.append("\n");
        }
        push_pair_lines(&mut script, &env_state.variables, "export ", "=\"", "\"\n");
        if !env_state.variables.is_empty() {
            script.append("\n");
        }
        push_pair_lines(&mut script, &env_state.aliases, "alias ", "='", "'\n");
        proof {
            assert(script@ =~= bash_config(env_state@));
        }
        Ok(script)
    }

    /// The source text for fish, laid out as for bash.
    pub fn generate_fish_config(&self, env_state: &EnvironmentState) -> (r: Result<String, Error>)
        ensures
            r matches Ok(text) && text@ == fish_config(env_state@),
    {
        let mut script = String::from_str("# zshrcman profile environment\n\n");
        push_item_lines(&mut script, &env_state.paths_prepend, "set -gx PATH ", " $PATH\n");
        push_item_lines(&mut script, &env_state.paths_append, "set -gx PATH $PATH ", "\n");
        if env_state.paths_prepend.len() > 0 || env_state.paths_append.len() > 0 {
            script.append("\n");
        }
        push_pair_lines(&mut script, &env_state.variables, "set -gx ", " \"", "\"\n");
        if !env_state.variables.is_empty() {
            script.append("\n");
        }
        push_pair_lines(&mut script, &env_state.aliases, "alias ", " '", "'\n");
        proof {
            assert(script@ =~= fish_config(env_state@));
        }
        Ok(script)
    }

    /// The source text for PowerShell: one statement that rebuilds the PATH if
    /// any entry is named, one assignment per variable, one function per alias.
    pub fn generate_powershell_config(&self, env_state: &EnvironmentState) -> (r: Result<
        String,
        Error,
    >)
        ensures
            r matches Ok(text) && text@ == powershell_config(env_state@),
    {
        let mut script = String::from_str("# zshrcman profile environment\n\n");
        if env_state.paths_prepend.len() > 0 || env_state.paths_append.len() > 0 {
            script.append("$env:Path = @(");
            push_item_lines(&mut script, &env_state.paths_prepend, "\n    \"", "\",");
            script.append("\n    $env:Path");
            push_item_lines(&mut script, &env_state.paths_append, ",\n    \"", "\"");
            script.append("\n) -join ';'\n\n");
            proof {
                assert(script@ =~= "# zshrcman profile environment\n\n"@ + powershell_path_block(
                    env_state@,
                ));
            }
        }
        push_pair_lines(&mut script, &env_state.variables, "$env:", " = \"", "\"\n");
        if !env_state.variables.is_empty() {
            script.append("\n");
        }
        push_pair_lines(&mut script, &env_state.aliases, "function ", " { ", " }\n");
        proof {
            assert(script@ =~= powershell_config(env_state@));
        }
        Ok(script)
    }

    /// The source text for batch files: one `set PATH` if any entry is named,
    /// one `set` per variable, and a remark per alias, since a batch file
    /// cannot define aliases.
    pub fn generate_cmd_config(&self, env_state: &EnvironmentState) -> (r: Result<String, Error>)
        ensures
            r matches Ok(text) && text@ == cmd_config(env_state@),
    {
        let mut script = String::from_str("@echo off\nREM zshrcman profile environment\n\n");
        if env_state.paths_prepend.len() > 0 || env_state.paths_append.len() > 0 {
            script.append("set PATH=");
            push_item_lines(&mut script, &env_state.paths_prepend, "", ";");
            script.append("%PATH%");
            push_item_lines(&mut script, &env_state.paths_append, ";", "");
            script.append("\n\n");
            proof {
                assert(script@ =~= "@echo off\nREM zshrcman profile environment\n\n"@
                    + cmd_path_block(env_state@));
            }
        }
        push_pair_lines(&mut script, &env_state.variables, "set ", "=", "\n");
        if !env_state.variables.is_empty() {
            script.append("\n");
        }
        if !env_state.aliases.is_empty() {
            let ghost so_far = script@;
            script.append("REM Aliases not supported in CMD batch files\n");
            push_pair_lines(&mut script, &env_state.aliases, "REM ", " = ", "\n");
            proof {
                assert(script@ =~= so_far + cmd_alias_block(env_state@));
            }
        }
        proof {
            assert(script@ =~= cmd_config(env_state@));
        }
        Ok(script)
    }
}

} // verus!
