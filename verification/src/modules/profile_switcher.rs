//! The ordered protocol that moves the shell environment, the linked binaries
//! and the marker in the shell start-up file from one profile to another.

use crate::error::{Error, ErrorKind};
use crate::models::clone_opt_string;
use crate::modules::environment::{
    closed_with_newline, env_after_apply, env_after_clear, expanded_paths, has_entry, home_not_set,
    lemma_cleared_paths_are_gone, lemma_reverse_adds_no_entry,
    lemma_reverse_leaves_the_other_entries, path_has_entry, path_of, path_without, remove_entries,
    var_of, EnvironmentManager, ProcessEnvironment,
};
use crate::modules::state_manager::{InstallationStateManager, StateView};
use crate::text::{
    chars_match_at, concat2, concat3, contains_text, find_char_from, first_char_from, free_of,
    lemma_first_char_from, matches_at, str_contains, str_ends_with_char, to_chars, views,
};
use vstd::prelude::*;
use vstd::string::*;

verus! {

/// The directory that holds the linked binaries of `profile`, below `home`.
pub open spec fn profile_bin_dir(home: Seq<char>, profile: Seq<char>) -> Seq<char> {
    home + "/.local/share/zshrcman/profiles/"@ + profile + "/bin"@
}

/// The variables after `dir` was put in front of PATH; untouched where `dir`
/// is an entry of PATH already.
pub open spec fn vars_with_front(vars: Map<Seq<char>, Seq<char>>, dir: Seq<char>) -> Map<
    Seq<char>,
    Seq<char>,
> {
    if has_entry(path_of(vars), dir) {
        vars
    } else {
        vars.insert("PATH"@, dir + ":"@ + path_of(vars))
    }
}

/// The variables after every entry equal to `dir` was taken out of PATH.
pub open spec fn vars_without_entry(vars: Map<Seq<char>, Seq<char>>, dir: Seq<char>) -> Map<
    Seq<char>,
    Seq<char>,
> {
    vars.insert("PATH"@, path_without(path_of(vars), seq![dir]))
}

/// The variables after an attempt to bring in the environment of `profile`,
/// and whether the attempt went through. A profile that the registry does not
/// hold brings nothing. Otherwise its environment is applied and its binary
/// directory put in front of PATH; the attempt stops where the home directory
/// is needed and HOME is not set, and what was done up to there stays done.
pub open spec fn vars_after_activation(
    state: StateView,
    profile: Seq<char>,
    vars: Map<Seq<char>, Seq<char>>,
) -> (Map<Seq<char>, Seq<char>>, bool) {
    if !state.profiles.contains_key(profile) {
        (vars, true)
    } else {
        match env_after_apply(state.profiles[profile].environment, vars) {
            None => (vars, false),
            Some(applied) => match var_of(applied, "HOME"@) {
                None => (applied, false),
                Some(home) => (vars_with_front(applied, profile_bin_dir(home, profile)), true),
            },
        }
    }
}

/// The variables after an attempt to take out the environment of `profile`,
/// and whether the attempt went through; the mirror image of
/// [`vars_after_activation`].
pub open spec fn vars_after_deactivation(
    state: StateView,
    profile: Seq<char>,
    vars: Map<Seq<char>, Seq<char>>,
) -> (Map<Seq<char>, Seq<char>>, bool) {
    if !state.profiles.contains_key(profile) {
        (vars, true)
    } else {
        match env_after_clear(state.profiles[profile].environment, vars) {
            None => (vars, false),
            Some(cleared) => match var_of(cleared, "HOME"@) {
                None => (cleared, false),
                Some(home) => (vars_without_entry(cleared, profile_bin_dir(home, profile)), true),
            },
        }
    }
}

/// Once a profile has been left, neither its binary directory nor any path of
/// its environment, unless that path is empty, is an entry of PATH.
pub proof fn lemma_left_profile_is_off_the_path(
    state: StateView,
    profile: Seq<char>,
    vars: Map<Seq<char>, Seq<char>>,
    e: Seq<char>,
)
    requires
        state.profiles.contains_key(profile),
        vars_after_deactivation(state, profile, vars).1,
        e.len() > 0,
        expanded_paths(state.profiles[profile].environment, vars).contains(e) || (var_of(
            env_after_clear(state.profiles[profile].environment, vars)->0,
            "HOME"@,
        ) matches Some(home) && e == profile_bin_dir(home, profile)),
    ensures
        !has_entry(path_of(vars_after_deactivation(state, profile, vars).0), e),
{
    let env = state.profiles[profile].environment;
    let cleared = env_after_clear(env, vars)->0;
    let home = var_of(cleared, "HOME"@)->0;
    let dir = profile_bin_dir(home, profile);
    let before = path_of(cleared);
    let after = path_without(before, seq![dir]);
    assert(path_of(vars_after_deactivation(state, profile, vars).0) == after);
    if has_entry(after, e) {
        if e == dir {
            lemma_reverse_leaves_the_other_entries(before, seq![dir]);
            assert(seq![dir][0] == dir);
            assert(seq![dir].contains(e));
        } else {
            lemma_reverse_adds_no_entry(before, seq![dir], e);
            lemma_cleared_paths_are_gone(env, vars, e);
        }
    }
}

/// A link to create in a binary directory: its name and what it points at.
#[derive(Clone, Debug)]
pub struct BinaryLink {
    pub name: String,
    pub target: String,
}

/// The links of a list as pairs of name and target.
pub open spec fn link_views(links: Seq<BinaryLink>) -> Seq<(Seq<char>, Seq<char>)> {
    Seq::new(links.len(), |i: int| (links[i].name@, links[i].target@))
}

/// The links that mirror `profile`: one for each package of its set whose
/// record names a location, named after the package and pointing there.
pub open spec fn link_set(state: StateView, profile: Seq<char>) -> Set<(Seq<char>, Seq<char>)> {
    Set::new(
        |l: (Seq<char>, Seq<char>)|
            state.packages_of(profile).contains(l.0) && state.installations.contains_key(l.0)
                && state.installations[l.0].location == Some(l.1),
    )
}

/// The prefix of the marker line.
pub open spec fn marker_prefix() -> Seq<char> {
    "# ZSHRCMAN_PROFILE:"@
}

/// The marker line for `profile`, without its line break.
pub open spec fn marker_line(profile: Seq<char>) -> Seq<char> {
    "# ZSHRCMAN_PROFILE: "@ + profile
}

/// Whether a line that starts with the marker prefix starts at `i`.
pub open spec fn marker_line_at(content: Seq<char>, i: int) -> bool {
    &&& matches_at(content, marker_prefix(), i)
    &&& (i == 0 || content[i - 1] == '\n')
}

/// The start of the first line at or after `from` that starts with the marker prefix.
pub open spec fn first_marker_line(content: Seq<char>, from: int) -> Option<int>
    decreases content.len() - from,
{
    if from < 0 || from >= content.len() {
        None
    } else if marker_line_at(content, from) {
        Some(from)
    } else {
        first_marker_line(content, from + 1)
    }
}

/// The content without its first marker line: from the start of that line to
/// the line break that ends it, or to the end of the content where no line
/// break follows.
pub open spec fn without_marker(content: Seq<char>) -> Seq<char> {
    match first_marker_line(content, 0) {
        None => content,
        Some(start) => match first_char_from(content, '\n', start) {
            None => content.subrange(0, start),
            Some(end) => content.subrange(0, start) + content.subrange(
                end + 1,
                content.len() as int,
            ),
        },
    }
}

/// The content with its first marker line removed and the marker line for
/// `profile` added at the end; everything else stays as it is.
pub open spec fn with_marker(content: Seq<char>, profile: Seq<char>) -> Seq<char> {
    closed_with_newline(without_marker(content)) + marker_line(profile) + "\n"@
}

/// The first marker line is a marker line, and none starts before it.
pub proof fn lemma_first_marker_line(content: Seq<char>, from: int)
    requires
        0 <= from,
    ensures
        match first_marker_line(content, from) {
            Some(i) => from <= i < content.len() && marker_line_at(content, i) && forall|j: int|
                from <= j < i ==> !marker_line_at(content, j),
            None => forall|j: int| from <= j < content.len() ==> !marker_line_at(content, j),
        },
    decreases content.len() - from,
{
    if from < content.len() && !marker_line_at(content, from) {
        lemma_first_marker_line(content, from + 1);
    }
}

/// Neither the marker prefix nor the head of a marker line holds a line
/// break, and the head starts with the prefix.
pub proof fn lemma_marker_prefix()
    ensures
        marker_prefix().len() == 19,
        free_of(marker_prefix(), '\n'),
        "# ZSHRCMAN_PROFILE: "@.len() == 20,
        free_of("# ZSHRCMAN_PROFILE: "@, '\n'),
        "# ZSHRCMAN_PROFILE: "@.subrange(0, 19) == marker_prefix(),
{
    reveal_strlit("# ZSHRCMAN_PROFILE:");
    reveal_strlit("# ZSHRCMAN_PROFILE: ");
    let p = marker_prefix();
    let l = "# ZSHRCMAN_PROFILE: "@;
    assert(p[0] == '#');
    assert(p[1] == ' ');
    assert(p[2] == 'Z');
    assert(p[3] == 'S');
    assert(p[4] == 'H');
    assert(p[5] == 'R');
    assert(p[6] == 'C');
    assert(p[7] == 'M');
    assert(p[8] == 'A');
    assert(p[9] == 'N');
    assert(p[10] == '_');
    assert(p[11] == 'P');
    assert(p[12] == 'R');
    assert(p[13] == 'O');
    assert(p[14] == 'F');
    assert(p[15] == 'I');
    assert(p[16] == 'L');
    assert(p[17] == 'E');
    assert(p[18] == ':');
    assert(l[0] == '#');
    assert(l[1] == ' ');
    assert(l[2] == 'Z');
    assert(l[3] == 'S');
    assert(l[4] == 'H');
    assert(l[5] == 'R');
    assert(l[6] == 'C');
    assert(l[7] == 'M');
    assert(l[8] == 'A');
    assert(l[9] == 'N');
    assert(l[10] == '_');
    assert(l[11] == 'P');
    assert(l[12] == 'R');
    assert(l[13] == 'O');
    assert(l[14] == 'F');
    assert(l[15] == 'I');
    assert(l[16] == 'L');
    assert(l[17] == 'E');
    assert(l[18] == ':');
    assert(l[19] == ' ');
    assert(l.subrange(0, 19) =~= p);
}

/// A match of a text without line breaks covers no line break.
pub proof fn lemma_match_covers_no_break(hay: Seq<char>, needle: Seq<char>, i: int, k: int)
    requires
        matches_at(hay, needle, i),
        free_of(needle, '\n'),
        i <= k < i + needle.len(),
    ensures
        hay[k] != '\n',
{
    assert(hay.subrange(i, i + needle.len())[k - i] == hay[k]);
}

/// Where at most one line of the content starts with the marker prefix, none
/// does once that line is removed.
pub proof fn lemma_without_marker_has_none(content: Seq<char>)
    requires
        forall|i: int, j: int| marker_line_at(content, i) && marker_line_at(content, j) ==> i == j,
    ensures
        forall|i: int| !marker_line_at(without_marker(content), i),
{
    lemma_marker_prefix();
    let p = marker_prefix();
    let w = without_marker(content);
    lemma_first_marker_line(content, 0);
    match first_marker_line(content, 0) {
        None => {
            assert forall|i: int| !marker_line_at(w, i) by {
                if marker_line_at(content, i) {
                    assert(0 <= i < content.len());
                }
            }
        },
        Some(s) => {
            lemma_first_char_from(content, '\n', s);
            match first_char_from(content, '\n', s) {
                None => {
                    assert forall|i: int| !marker_line_at(w, i) by {
                        if marker_line_at(w, i) {
                            assert(w.subrange(i, i + 19) =~= content.subrange(i, i + 19));
                            if i > 0 {
                                assert(w[i - 1] == content[i - 1]);
                            }
                            assert(marker_line_at(content, i));
                        }
                    }
                },
                Some(e) => {
                    let d = e + 1 - s;
                    assert forall|i: int| !marker_line_at(w, i) by {
                        if marker_line_at(w, i) {
                            if i + 19 <= s {
                                assert(w.subrange(i, i + 19) =~= content.subrange(i, i + 19));
                                if i > 0 {
                                    assert(w[i - 1] == content[i - 1]);
                                }
                                assert(marker_line_at(content, i));
                            } else if i < s {
                                lemma_match_covers_no_break(w, p, i, s - 1);
                                assert(w[s - 1] == content[s - 1]);
                            } else {
                                assert(w.subrange(i, i + 19) =~= content.subrange(
                                    i + d,
                                    i + d + 19,
                                ));
                                if i > s {
                                    assert(w[i - 1] == content[i - 1 + d]);
                                }
                                assert(content[i + d - 1] == '\n');
                                assert(marker_line_at(content, i + d));
                            }
                        }
                    }
                },
            }
        },
    }
}

/// Whether at most one line of the content starts with the marker prefix.
pub open spec fn at_most_one_marker_line(content: Seq<char>) -> bool {
    forall|i: int, j: int| marker_line_at(content, i) && marker_line_at(content, j) ==> i == j
}

/// Whether the content has exactly one line that starts with the marker
/// prefix, and that line is its last and is the marker line of `profile`.
pub open spec fn ends_with_the_only_marker(content: Seq<char>, profile: Seq<char>) -> bool {
    let at = content.len() - marker_line(profile).len() - 1;
    &&& at >= 0
    &&& content.subrange(at, content.len() as int) == marker_line(profile) + "\n"@
    &&& marker_line_at(content, at)
    &&& forall|i: int| marker_line_at(content, i) ==> i == at
}

/// Where at most one line of the content starts with the marker prefix and
/// the profile's name holds no line break, the rewritten content has exactly
/// one such line: its last, which is the marker line of the profile. Before
/// it stands what the content held apart from its old marker line.
pub proof fn lemma_one_marker_line(content: Seq<char>, profile: Seq<char>)
    requires
        free_of(profile, '\n'),
        at_most_one_marker_line(content),
    ensures
        with_marker(content, profile) == closed_with_newline(without_marker(content))
            + marker_line(profile) + "\n"@,
        ends_with_the_only_marker(with_marker(content, profile), profile),
{
    lemma_marker_prefix();
    lemma_without_marker_has_none(content);
    reveal_strlit("\n");
    assert("\n"@ =~= seq!['\n']);
    let p = marker_prefix();
    let w = without_marker(content);
    let c = closed_with_newline(w);
    let m = marker_line(profile);
    let out = with_marker(content, profile);
    let at = c.len() as int;
    assert(m.subrange(0, 19) =~= "# ZSHRCMAN_PROFILE: "@.subrange(0, 19));
    assert(free_of(m, '\n')) by {
        assert forall|j: int| 0 <= j < m.len() implies m[j] != '\n' by {
            if j < 20 {
                assert(m[j] == "# ZSHRCMAN_PROFILE: "@[j]);
            } else {
                assert(m[j] == profile[j - 20]);
            }
        }
    }
    assert(c.len() == 0 || c.last() == '\n');
    assert(out.subrange(at, at + 19) =~= p);
    if at > 0 {
        assert(out[at - 1] == c[at - 1]);
    }
    assert(marker_line_at(out, at));
    assert forall|i: int| marker_line_at(out, i) implies i == at by {
        if i < at {
            if i + 19 > w.len() {
                lemma_match_covers_no_break(out, p, i, at - 1);
                assert(out[at - 1] == c[at - 1]);
            } else {
                assert(out.subrange(i, i + 19) =~= w.subrange(i, i + 19));
                if i > 0 {
                    assert(out[i - 1] == w[i - 1]);
                }
                assert(marker_line_at(w, i));
            }
        } else if i > at {
            assert(out[i - 1] == m[i - 1 - at]);
        }
    }
    assert(out.len() - m.len() - 1 == at);
    assert(out.subrange(at, out.len() as int) =~= m + "\n"@);
}

/// The start of the first line that starts with the marker prefix.
pub fn find_marker_line(chars: &Vec<char>) -> (r: Option<usize>)
    ensures
        match r {
            Some(i) => first_marker_line(chars@, 0) == Some(i as int) && i < chars@.len(),
            None => first_marker_line(chars@, 0).is_none(),
        },
{
    let prefix = to_chars("# ZSHRCMAN_PROFILE:");
    let n = chars.len();
    let mut i: usize = 0;
    while i < n
        invariant
            i <= n,
            n == chars@.len(),
            prefix@ == marker_prefix(),
            first_marker_line(chars@, 0) == first_marker_line(chars@, i as int),
        decreases n - i,
    {
        let at_line_start = i == 0 || chars[i - 1] == '\n';
        if at_line_start && chars_match_at(chars, &prefix, i) {
            return Some(i);
        }
        i += 1;
    }
    None
}

/// The shell start-up file that carries the marker, relative to the home
/// directory: chosen by the name of the login shell, `.profile` if it names
/// none of zsh, bash and fish.
pub open spec fn marker_file(shell: Seq<char>) -> Seq<char> {
    if contains_text(shell, "zsh"@) {
        ".zshrc"@
    } else if contains_text(shell, "bash"@) {
        ".bashrc"@
    } else if contains_text(shell, "fish"@) {
        ".config/fish/config.fish"@
    } else {
        ".profile"@
    }
}

/// The three transitions.
#[derive(Clone, Copy, Debug, PartialEq, Eq, Structural)]
pub enum TransitionKind {
    /// Leave the active profile, if any, and enter another.
    Switch,
    /// Enter a profile without leaving one.
    Activate,
    /// Leave the active profile.
    Deactivate,
}

/// How far a transition has come. A transition that waits is one whose last
/// request to the driver has not been answered yet.
#[derive(Clone, Copy, Debug, PartialEq, Eq, Structural)]
pub enum Stage {
    /// Nothing has been done.
    Start,
    /// The old environment is out; waits for the old binary directory to be cleared.
    OldReversed,
    /// The pointer names the new profile; waits for the configuration to be written.
    PointerUpdated,
    /// The new environment is in; waits for the binaries to be linked.
    Linking,
    /// The binaries are linked; waits for the marker to be rewritten.
    Marking,
    /// The environment is out; waits for the binary directory to be cleared.
    Clearing,
    /// The pointer is cleared; waits for the configuration to be written.
    PointerCleared,
    /// Every step has been completed.
    Done,
    /// A step failed; the steps after it were not taken and none was undone.
    Aborted,
}

impl Stage {
    /// Whether a request to the driver is unanswered at this stage.
    pub open spec fn waits(self) -> bool {
        self == Stage::OldReversed || self == Stage::PointerUpdated || self == Stage::Linking
            || self == Stage::Marking || self == Stage::Clearing || self == Stage::PointerCleared
    }
}

/// What became of the last request to the driver.
#[derive(Clone, Copy, Debug, PartialEq, Eq, Structural)]
pub enum StepOutcome {
    Completed,
    Failed,
}

/// A transition under way: what it is, which profile it is about, and how far
/// it has come.
#[derive(Debug)]
pub struct Transition {
    pub kind: TransitionKind,
    pub target: String,
    pub stage: Stage,
}

/// What the driver has to do before it reports back.
#[derive(Debug)]
pub enum TransitionAction {
    /// Remove the files and links in `directory`, the binary directory of `profile`.
    ClearBinaries { profile: String, directory: String },
    /// Write the configuration out.
    Persist,
    /// Empty `directory`, the binary directory of `profile`, and create the links in it.
    LinkBinaries { profile: String, directory: String, links: Vec<BinaryLink> },
    /// Rewrite the shell start-up file so that its marker names `profile`.
    WriteMarker { profile: String },
    /// Nothing: the transition is over.
    Finished,
}

/// The view of [`TransitionAction`]; the links of a request are a set.
pub enum ActionView {
    ClearBinaries { profile: Seq<char>, directory: Seq<char> },
    Persist,
    LinkBinaries { profile: Seq<char>, directory: Seq<char>, links: Set<(Seq<char>, Seq<char>)> },
    WriteMarker { profile: Seq<char> },
    Finished,
}

impl View for TransitionAction {
    type V = ActionView;

    open spec fn view(&self) -> ActionView {
        match self {
            TransitionAction::ClearBinaries { profile, directory } => ActionView::ClearBinaries {
                profile: profile@,
                directory: directory@,
            },
            TransitionAction::Persist => ActionView::Persist,
            TransitionAction::LinkBinaries { profile, directory, links } => {
                ActionView::LinkBinaries {
                    profile: profile@,
                    directory: directory@,
                    links: link_views(links@).to_set(),
                }
            },
            TransitionAction::WriteMarker { profile } => ActionView::WriteMarker {
                profile: profile@,
            },
            TransitionAction::Finished => ActionView::Finished,
        }
    }
}

/// Why a step could not be taken.
pub enum StepError {
    /// The home directory is needed and HOME is not set.
    HomeNotSet,
    /// The registry has no profile of the name to switch to.
    ProfileNotFound,
}

/// What one step of a transition leads to.
pub struct StepView {
    /// The stage after the step.
    pub stage: Stage,
    /// The ledger, registry and pointer after the step.
    pub state: StateView,
    /// Whether the step hands the state over for writing.
    pub saves: bool,
    /// The process variables after the step.
    pub vars: Map<Seq<char>, Seq<char>>,
    /// The request to the driver, or why the step could not be taken.
    pub result: Result<ActionView, StepError>,
}

/// The step that takes the environment of `profile` out and asks for its
/// binary directory to be cleared; `waiting` is the stage in which the answer
/// is awaited.
pub open spec fn leave_step(
    state: StateView,
    vars: Map<Seq<char>, Seq<char>>,
    profile: Seq<char>,
    waiting: Stage,
) -> StepView {
    let (after, ok) = vars_after_deactivation(state, profile, vars);
    if ok && var_of(after, "HOME"@) is Some {
        StepView {
            stage: waiting,
            state,
            saves: false,
            vars: after,
            result: Ok(
                ActionView::ClearBinaries {
                    profile,
                    directory: profile_bin_dir(var_of(after, "HOME"@)->0, profile),
                },
            ),
        }
    } else {
        StepView {
            stage: Stage::Aborted,
            state,
            saves: false,
            vars: after,
            result: Err(StepError::HomeNotSet),
        }
    }
}

/// The step that moves the pointer to `target` and asks for the configuration
/// to be written; it cannot be taken if the registry has no such profile.
pub open spec fn pointer_step(state: StateView, vars: Map<Seq<char>, Seq<char>>, target: Seq<char>)
    -> StepView {
    if state.profiles.contains_key(target) {
        StepView {
            stage: Stage::PointerUpdated,
            state: state.switch_profile(target),
            saves: true,
            vars,
            result: Ok(ActionView::Persist),
        }
    } else {
        StepView {
            stage: Stage::Aborted,
            state,
            saves: false,
            vars,
            result: Err(StepError::ProfileNotFound),
        }
    }
}

/// The step that brings the environment of `target` in and asks for its
/// binaries to be linked.
pub open spec fn enter_step(state: StateView, vars: Map<Seq<char>, Seq<char>>, target: Seq<char>)
    -> StepView {
    let (after, ok) = vars_after_activation(state, target, vars);
    if ok && var_of(after, "HOME"@) is Some {
        StepView {
            stage: Stage::Linking,
            state,
            saves: false,
            vars: after,
            result: Ok(
                ActionView::LinkBinaries {
                    profile: target,
                    directory: profile_bin_dir(var_of(after, "HOME"@)->0, target),
                    links: link_set(state, target),
                },
            ),
        }
    } else {
        StepView {
            stage: Stage::Aborted,
            state,
            saves: false,
            vars: after,
            result: Err(StepError::HomeNotSet),
        }
    }
}

/// A step that changes nothing but the stage.
pub open spec fn plain_step(
    state: StateView,
    vars: Map<Seq<char>, Seq<char>>,
    stage: Stage,
    action: ActionView,
) -> StepView {
    StepView { stage, state, saves: false, vars, result: Ok(action) }
}

/// The protocol. A switch takes five steps in this order: leave the old
/// profile (skipped where none is active), move the pointer, enter the new
/// profile, link its binaries, rewrite the marker. An activation takes the
/// last three. A deactivation leaves the active profile, then clears the
/// pointer and has the configuration written; where no profile is active it
/// is over at once and changes nothing. A step is taken when the step before it is reported completed; a
/// step that is reported failed, or that cannot be taken, ends the transition
/// with nothing undone.
pub open spec fn step_of(
    kind: TransitionKind,
    stage: Stage,
    target: Seq<char>,
    state: StateView,
    vars: Map<Seq<char>, Seq<char>>,
    outcome: StepOutcome,
) -> StepView {
    if stage.waits() && outcome == StepOutcome::Failed {
        plain_step(state, vars, Stage::Aborted, ActionView::Finished)
    } else {
        match stage {
            Stage::Start => match kind {
                TransitionKind::Switch => match state.active_profile {
                    Some(old) => leave_step(state, vars, old, Stage::OldReversed),
                    None => pointer_step(state, vars, target),
                },
                TransitionKind::Activate => enter_step(state, vars, target),
                TransitionKind::Deactivate => match state.active_profile {
                    Some(current) => leave_step(state, vars, current, Stage::Clearing),
                    None => plain_step(state, vars, Stage::Done, ActionView::Finished),
                },
            },
            Stage::OldReversed => pointer_step(state, vars, target),
            Stage::PointerUpdated => enter_step(state, vars, target),
            Stage::Linking => plain_step(
                state,
                vars,
                Stage::Marking,
                ActionView::WriteMarker { profile: target },
            ),
            Stage::Marking => plain_step(state, vars, Stage::Done, ActionView::Finished),
            Stage::Clearing => StepView {
                stage: Stage::PointerCleared,
                state: state.clear_active(),
                saves: true,
                vars,
                result: Ok(ActionView::Persist),
            },
            Stage::PointerCleared => plain_step(state, vars, Stage::Done, ActionView::Finished),
            Stage::Done => plain_step(state, vars, Stage::Done, ActionView::Finished),
            Stage::Aborted => plain_step(state, vars, Stage::Aborted, ActionView::Finished),
        }
    }
}

/// Whether `r` is the outcome that `expected` describes.
pub open spec fn step_result_is(
    r: Result<TransitionAction, Error>,
    expected: Result<ActionView, StepError>,
    target: Seq<char>,
) -> bool {
    match expected {
        Ok(action) => r matches Ok(a) && a@ == action,
        Err(StepError::HomeNotSet) => r matches Err(e) && home_not_set(e),
        Err(StepError::ProfileNotFound) => r matches Err(e) && e.spec_kind()
            == ErrorKind::NotFound && e.spec_detail() == "Profile '"@ + target
            + "' does not exist"@,
    }
}

/// Performs profile transitions on a state engine.
#[derive(Debug)]
pub struct ProfileSwitcher {
    pub state_mgr: InstallationStateManager,
    pub env_mgr: EnvironmentManager,
}

impl ProfileSwitcher {
    /// A switcher over `state_mgr` that renders with `env_mgr`.
    pub fn new(state_mgr: InstallationStateManager, env_mgr: EnvironmentManager) -> (r: Self)
        ensures
            r.state_mgr == state_mgr,
            r.env_mgr == env_mgr,
    {
        ProfileSwitcher { state_mgr, env_mgr }
    }

    /// Starts a switch to `new_profile`.
    pub fn switch_profile(&self, new_profile: &str) -> (r: Transition)
        ensures
            r.kind == TransitionKind::Switch,
            r.target@ == new_profile@,
            r.stage == Stage::Start,
    {
        Transition {
            kind: TransitionKind::Switch,
            target: String::from_str(new_profile),
            stage: Stage::Start,
        }
    }

    /// Starts an activation of `profile`.
    pub fn activate_profile(&self, profile: &str) -> (r: Transition)
        ensures
            r.kind == TransitionKind::Activate,
            r.target@ == profile@,
            r.stage == Stage::Start,
    {
        Transition {
            kind: TransitionKind::Activate,
            target: String::from_str(profile),
            stage: Stage::Start,
        }
    }

    /// Starts a deactivation of the active profile.
    pub fn deactivate_current(&self) -> (r: Transition)
        ensures
            r.kind == TransitionKind::Deactivate,
            r.target@ == Seq::<char>::empty(),
            r.stage == Stage::Start,
    {
        Transition { kind: TransitionKind::Deactivate, target: String::new(), stage: Stage::Start }
    }

    fn leave(
        &self,
        transition: &mut Transition,
        process: &mut ProcessEnvironment,
        profile: &str,
        waiting: Stage,
    ) -> (r: Result<TransitionAction, Error>)
        ensures
            final(transition).kind == old(transition).kind,
            final(transition).target == old(transition).target,
            final(transition).stage == leave_step(
                self.state_mgr@.state,
                old(process)@,
                profile@,
                waiting,
            ).stage,
            final(process)@ == leave_step(
                self.state_mgr@.state,
                old(process)@,
                profile@,
                waiting,
            ).vars,
            step_result_is(
                r,
                leave_step(self.state_mgr@.state, old(process)@, profile@, waiting).result,
                old(transition).target@,
            ),
    {
        match self.deactivate_environment(profile, process) {
            Ok(()) => {},
            Err(e) => {
                transition.stage = Stage::Aborted;
                return Err(e);
            },
        }
        match self.get_profile_bin_dir(profile, process) {
            Ok(directory) => {
                transition.stage = waiting;
                Ok(TransitionAction::ClearBinaries { profile: String::from_str(profile), directory })
            },
            Err(e) => {
                transition.stage = Stage::Aborted;
                Err(e)
            },
        }
    }

    fn move_pointer(&mut self, transition: &mut Transition) -> (r: Result<TransitionAction, Error>)
        ensures
            final(transition).kind == old(transition).kind,
            final(transition).target == old(transition).target,
            final(self).env_mgr == old(self).env_mgr,
            final(transition).stage == pointer_step(
                old(self).state_mgr@.state,
                Map::empty(),
                old(transition).target@,
            ).stage,
            final(self).state_mgr@ == old(self).state_mgr@.step(
                pointer_step(old(self).state_mgr@.state, Map::empty(), old(transition).target@).state,
                pointer_step(old(self).state_mgr@.state, Map::empty(), old(transition).target@).saves,
            ),
            step_result_is(
                r,
                pointer_step(old(self).state_mgr@.state, Map::empty(), old(transition).target@).result,
                old(transition).target@,
            ),
    {
        match self.state_mgr.switch_profile(transition.target.as_str()) {
            Ok(()) => {
                transition.stage = Stage::PointerUpdated;
                Ok(TransitionAction::Persist)
            },
            Err(e) => {
                transition.stage = Stage::Aborted;
                Err(e)
            },
        }
    }

    fn enter(&self, transition: &mut Transition, process: &mut ProcessEnvironment) -> (r: Result<
        TransitionAction,
        Error,
    >)
        ensures
            final(transition).kind == old(transition).kind,
            final(transition).target == old(transition).target,
            final(transition).stage == enter_step(
                self.state_mgr@.state,
                old(process)@,
                old(transition).target@,
            ).stage,
            final(process)@ == enter_step(
                self.state_mgr@.state,
                old(process)@,
                old(transition).target@,
            ).vars,
            step_result_is(
                r,
                enter_step(self.state_mgr@.state, old(process)@, old(transition).target@).result,
                old(transition).target@,
            ),
    {
        match self.activate_environment(transition.target.as_str(), process) {
            Ok(()) => {},
            Err(e) => {
                transition.stage = Stage::Aborted;
                return Err(e);
            },
        }
        match self.get_profile_bin_dir(transition.target.as_str(), process) {
            Ok(directory) => {
                let links = self.update_active_binaries(transition.target.as_str());
                transition.stage = Stage::Linking;
                Ok(
                    TransitionAction::LinkBinaries {
                        profile: transition.target.clone(),
                        directory,
                        links,
                    },
                )
            },
            Err(e) => {
                transition.stage = Stage::Aborted;
                Err(e)
            },
        }
    }

    /// Takes the next step of `transition`, given what became of the request
    /// that the step before made: see [`step_of`]. The driver carries out the
    /// request that is returned and calls again with its outcome, until the
    /// request is `Finished` or an error is returned.
    pub fn advance(
        &mut self,
        transition: &mut Transition,
        process: &mut ProcessEnvironment,
        outcome: StepOutcome,
    ) -> (r: Result<TransitionAction, Error>)
        ensures
            final(transition).kind == old(transition).kind,
            final(transition).target == old(transition).target,
            final(self).env_mgr == old(self).env_mgr,
            ({
                let step = step_of(
                    old(transition).kind,
                    old(transition).stage,
                    old(transition).target@,
                    old(self).state_mgr@.state,
                    old(process)@,
                    outcome,
                );
                &&& final(transition).stage == step.stage
                &&& final(self).state_mgr@ == old(self).state_mgr@.step(step.state, step.saves)
                &&& final(process)@ == step.vars
                &&& step_result_is(r, step.result, old(transition).target@)
            }),
    {
        let waits = match transition.stage {
            Stage::OldReversed | Stage::PointerUpdated | Stage::Linking | Stage::Marking
            | Stage::Clearing | Stage::PointerCleared => true,
            _ => false,
        };
        let failed = match outcome {
            StepOutcome::Failed => true,
            StepOutcome::Completed => false,
        };
        if waits && failed {
            transition.stage = Stage::Aborted;
            return Ok(TransitionAction::Finished);
        }
        match transition.stage {
            Stage::Start => match transition.kind {
                TransitionKind::Switch => {
                    let old_profile = clone_opt_string(&self.state_mgr.active_profile);
                    match old_profile {
                        Some(old) => self.leave(
                            transition,
                            process,
                            old.as_str(),
                            Stage::OldReversed,
                        ),
                        None => self.move_pointer(transition),
                    }
                },
                TransitionKind::Activate => self.enter(transition, process),
                TransitionKind::Deactivate => {
                    let current = clone_opt_string(&self.state_mgr.active_profile);
                    match current {
                        Some(profile) => self.leave(
                            transition,
                            process,
                            profile.as_str(),
                            Stage::Clearing,
                        ),
                        None => {
                            transition.stage = Stage::Done;
                            Ok(TransitionAction::Finished)
                        },
                    }
                },
            },
            Stage::OldReversed => self.move_pointer(transition),
            Stage::PointerUpdated => self.enter(transition, process),
            Stage::Linking => {
                transition.stage = Stage::Marking;
                Ok(TransitionAction::WriteMarker { profile: transition.target.clone() })
            },
            Stage::Marking => {
                transition.stage = Stage::Done;
                Ok(TransitionAction::Finished)
            },
            Stage::Clearing => {
                self.state_mgr.active_profile = None;
                let _ = self.state_mgr.save_state();
                transition.stage = Stage::PointerCleared;
                Ok(TransitionAction::Persist)
            },
            Stage::PointerCleared => {
                transition.stage = Stage::Done;
                Ok(TransitionAction::Finished)
            },
            Stage::Done => Ok(TransitionAction::Finished),
            Stage::Aborted => Ok(TransitionAction::Finished),
        }
    }

    /// The binary directory of `profile`, below the home directory that
    /// `process` names. Fails exactly if HOME is not set.
    pub fn get_profile_bin_dir(&self, profile: &str, process: &ProcessEnvironment) -> (r: Result<
        String,
        Error,
    >)
        ensures
            match r {
                Ok(dir) => var_of(process@, "HOME"@) matches Some(home) && dir@ == profile_bin_dir(
                    home,
                    profile@,
                ),
                Err(e) => var_of(process@, "HOME"@).is_none() && home_not_set(e),
            },
    {
        match process.get("HOME") {
            Some(home) => {
                let mut dir = concat3(home.as_str(), "/.local/share/zshrcman/profiles/", profile);
                dir.append("/bin");
                Ok(dir)
            },
            None => Err(Error::IoFailure(String::from_str("HOME not set"))),
        }
    }

    /// The shell start-up file that carries the marker, relative to the home
    /// directory; `shell` is the path of the login shell.
    pub fn get_shell_config_path(&self, shell: &str) -> (r: String)
        ensures
            r@ == marker_file(shell@),
    {
        if str_contains(shell, "zsh") {
            String::from_str(".zshrc")
        } else if str_contains(shell, "bash") {
            String::from_str(".bashrc")
        } else if str_contains(shell, "fish") {
            String::from_str(".config/fish/config.fish")
        } else {
            String::from_str(".profile")
        }
    }

    /// Puts `dir` in front of PATH unless it is an entry there already.
    pub fn add_to_path(&self, dir: &str, process: &mut ProcessEnvironment) -> (r: Result<(), Error>)
        ensures
            r is Ok,
            final(process)@ == vars_with_front(old(process)@, dir@),
    {
        let current = match process.get("PATH") {
            Some(p) => p.clone(),
            None => String::new(),
        };
        if !path_has_entry(current.as_str(), dir) {
            let new_path = concat3(dir, ":", current.as_str());
            process.set("PATH", new_path.as_str());
        }
        Ok(())
    }

    /// Takes every entry equal to `dir` out of PATH, so that `dir`, unless it
    /// is empty, is no entry of PATH afterwards.
    pub fn remove_from_path(&self, dir: &str, process: &mut ProcessEnvironment) -> (r: Result<
        (),
        Error,
    >)
        ensures
            r is Ok,
            final(process)@ == vars_without_entry(old(process)@, dir@),
            dir@.len() > 0 ==> !has_entry(path_of(final(process)@), dir@),
    {
        let current = match process.get("PATH") {
            Some(p) => p.clone(),
            None => String::new(),
        };
        let mut removed: Vec<String> = Vec::new();
        removed.push(String::from_str(dir));
        proof {
            assert(views(removed@) =~= seq![dir@]);
        }
        let new_path = remove_entries(current.as_str(), &removed);
        process.set("PATH", new_path.as_str());
        proof {
            assert(views(removed@)[0] == dir@);
            assert(views(removed@).contains(dir@));
            assert(path_of(process@) == new_path@);
        }
        Ok(())
    }

    /// Brings the environment of `profile` into `process`: see
    /// [`vars_after_activation`].
    pub fn activate_environment(&self, profile: &str, process: &mut ProcessEnvironment) -> (r:
        Result<(), Error>)
        ensures
            final(process)@ == vars_after_activation(
                self.state_mgr@.state,
                profile@,
                old(process)@,
            ).0,
            vars_after_activation(self.state_mgr@.state, profile@, old(process)@).1 ==> r is Ok,
            !vars_after_activation(self.state_mgr@.state, profile@, old(process)@).1 ==> (
            r matches Err(e) && home_not_set(e)),
    {
        if let Some(profile_state) = self.state_mgr.profiles.get(profile) {
            match self.env_mgr.apply_profile_environment(&profile_state.environment, process) {
                Ok(()) => {},
                Err(e) => {
                    return Err(e);
                },
            }
            let dir = match self.get_profile_bin_dir(profile, process) {
                Ok(d) => d,
                Err(e) => {
                    return Err(e);
                },
            };
            let _ = self.add_to_path(dir.as_str(), process);
        }
        Ok(())
    }

    /// Takes the environment of `profile` out of `process`: see
    /// [`vars_after_deactivation`].
    pub fn deactivate_environment(&self, profile: &str, process: &mut ProcessEnvironment) -> (r:
        Result<(), Error>)
        ensures
            final(process)@ == vars_after_deactivation(
                self.state_mgr@.state,
                profile@,
                old(process)@,
            ).0,
            vars_after_deactivation(self.state_mgr@.state, profile@, old(process)@).1 ==> r is Ok,
            !vars_after_deactivation(self.state_mgr@.state, profile@, old(process)@).1 ==> (
            r matches Err(e) && home_not_set(e)),
            r is Ok && self.state_mgr@.state.profiles.contains_key(profile@) ==> forall|
                e: Seq<char>,
            |
                e.len() > 0 && expanded_paths(
                    self.state_mgr@.state.profiles[profile@].environment,
                    old(process)@,
                ).contains(e) ==> !#[trigger] has_entry(path_of(final(process)@), e),
    {
        if let Some(profile_state) = self.state_mgr.profiles.get(profile) {
            match self.env_mgr.clear_profile_environment(&profile_state.environment, process) {
                Ok(()) => {},
                Err(e) => {
                    return Err(e);
                },
            }
            let dir = match self.get_profile_bin_dir(profile, process) {
                Ok(d) => d,
                Err(e) => {
                    return Err(e);
                },
            };
            let _ = self.remove_from_path(dir.as_str(), process);
            proof {
                let state = self.state_mgr@.state;
                assert(vars_after_deactivation(state, profile@, old(process)@).1);
                assert(process@ == vars_after_deactivation(state, profile@, old(process)@).0);
                assert forall|e: Seq<char>|
                    e.len() > 0 && expanded_paths(
                        state.profiles[profile@].environment,
                        old(process)@,
                    ).contains(e) implies !#[trigger] has_entry(path_of(process@), e) by {
                    lemma_left_profile_is_off_the_path(state, profile@, old(process)@, e);
                }
            }
        }
        Ok(())
    }

    /// The links that the binary directory of `profile` has to hold: one for
    /// each package of the profile whose record names a location, and no other.
    pub fn update_active_binaries(&self, profile: &str) -> (r: Vec<BinaryLink>)
        ensures
            link_views(r@).to_set() == link_set(self.state_mgr@.state, profile@),
            link_views(r@).no_duplicates(),
    {
        let packages = match self.state_mgr.get_active_packages(profile) {
            Ok(v) => v,
            Err(_) => Vec::new(),
        };
        let ghost state = self.state_mgr@.state;
        let mut links: Vec<BinaryLink> = Vec::new();
        let mut i: usize = 0;
        while i < packages.len()
            invariant
                i <= packages.len(),
                state == self.state_mgr@.state,
                views(packages@).no_duplicates(),
                views(packages@).to_set() == state.packages_of(profile@),
                link_views(links@).no_duplicates(),
                forall|l: (Seq<char>, Seq<char>)| #[trigger]
                    link_views(links@).contains(l) <==> (exists|j: int|
                        0 <= j < i && views(packages@)[j] == l.0) && link_set(
                        state,
                        profile@,
                    ).contains(l),
            decreases packages.len() - i,
        {
            let ghost name = packages@[i as int]@;
            let ghost before = link_views(links@);
            proof {
                assert(views(packages@)[i as int] == name);
                assert(views(packages@).contains(name));
                assert(state.packages_of(profile@).contains(name));
            }
            if let Some(record) = self.state_mgr.get_package_info(packages[i].as_str()) {
                if let Some(location) = &record.location {
                    let link = BinaryLink { name: packages[i].clone(), target: location.clone() };
                    proof {
                        let l = (name, location@);
                        assert(link_views(links@.push(link)) =~= before.push(l));
                        assert(!before.contains(l)) by {
                            if before.contains(l) {
                                let j = choose|j: int| 0 <= j < i && views(packages@)[j] == l.0;
                                assert(views(packages@)[j] == views(packages@)[i as int]);
                            }
                        }
                        assert(before.push(l).no_duplicates()) by {
                            assert forall|a: int, b: int|
                                0 <= a < before.push(l).len() && 0 <= b < before.push(l).len()
                                    && a != b implies before.push(l)[a] != before.push(l)[b] by {
                                if a < before.len() {
                                    assert(before.contains(before[a]));
                                }
                                if b < before.len() {
                                    assert(before.contains(before[b]));
                                }
                            }
                        }
                    }
                    links.push(link);
                }
            }
            proof {
                let after = link_views(links@);
                assert forall|l: (Seq<char>, Seq<char>)| #[trigger]
                    after.contains(l) <==> (exists|j: int|
                        0 <= j < i + 1 && views(packages@)[j] == l.0) && link_set(
                        state,
                        profile@,
                    ).contains(l) by {
                    if after.contains(l) {
                        let k = choose|k: int| 0 <= k < after.len() && after[k] == l;
                        if k < before.len() {
                            assert(before[k] == l);
                            assert(before.contains(l));
                            let j = choose|j: int| 0 <= j < i && views(packages@)[j] == l.0;
                            assert(0 <= j < i + 1 && views(packages@)[j] == l.0);
                        } else {
                            assert(views(packages@)[i as int] == l.0);
                        }
                    }
                    if (exists|j: int| 0 <= j < i + 1 && views(packages@)[j] == l.0) && link_set(
                        state,
                        profile@,
                    ).contains(l) {
                        let j = choose|j: int| 0 <= j < i + 1 && views(packages@)[j] == l.0;
                        if j < i {
                            assert(before.contains(l));
                            let k = choose|k: int| 0 <= k < before.len() && before[k] == l;
                            assert(after[k] == l);
                        } else {
                            assert(l.0 == name);
                            assert(after[after.len() - 1] == l);
                        }
                    }
                }
            }
            i += 1;
        }
        proof {
            assert forall|l: (Seq<char>, Seq<char>)|
                link_views(links@).to_set().contains(l) <==> link_set(state, profile@).contains(
                    l,
                ) by {
                if link_set(state, profile@).contains(l) {
                    assert(views(packages@).to_set().contains(l.0));
                    assert(views(packages@).contains(l.0));
                }
            }
            assert(link_views(links@).to_set() =~= link_set(state, profile@));
        }
        links
    }

    /// The shell start-up file that names `profile` in its marker line, given
    /// that it holds `content` now: the first line that starts with the marker
    /// prefix is removed, with its line break if it has one, and
    /// `# ZSHRCMAN_PROFILE: ` with the name is added as the last line.
    pub fn update_shell_config(&self, content: &str, profile: &str) -> (r: String)
        ensures
            r@ == with_marker(content@, profile@),
            free_of(profile@, '\n') && at_most_one_marker_line(content@)
                ==> ends_with_the_only_marker(r@, profile@),
    {
        proof {
            if free_of(profile@, '\n') && at_most_one_marker_line(content@) {
                lemma_one_marker_line(content@, profile@);
            }
        }
        let chars = to_chars(content);
        let n = chars.len();
        let mut out = match find_marker_line(&chars) {
            None => String::from_str(content),
            Some(start) => match find_char_from(&chars, '\n', start) {
                None => String::from_str(content.substring_char(0, start)),
                Some(end) => concat2(
                    content.substring_char(0, start),
                    content.substring_char(end + 1, n),
                ),
            },
        };
        let ghost base = out@;
        let empty = out.as_str().unicode_len() == 0;
        if !str_ends_with_char(out.as_str(), '\n') && !empty {
            out.append("\n");
        }
        proof {
            reveal_strlit("\n");
            assert("\n"@ =~= seq!['\n']);
            assert(out@ == closed_with_newline(base));
        }
        out.append("# ZSHRCMAN_PROFILE: ");
        out.append(profile);
        out.append("\n");
        proof {
            assert(out@ =~= with_marker(content@, profile@));
        }
        out
    }
}

} // verus!
