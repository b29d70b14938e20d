//! Whether every command a document gives could run here.
//!
//! Which commands a shell block holds, which are another tool's, and where a
//! `cd` leaves the repository are decided here; whether a path is on disk is
//! the caller's to ask.

use vstd::prelude::*;
use crate::fences::{commands, command_views, commands_in, words, undecorated, Fence};
use crate::text::{chars_of, matches_at, same_chars, string_of, string_views, views, words_of};

verus! {

broadcast use vstd::string::group_string_axioms;

/// Info strings that mean "this block is shell".
pub open spec fn shell_languages() -> Seq<Seq<char>> {
    seq!["bash"@, "sh"@, "shell"@, "console"@]
}

/// Verbs whose semantics cannot be checked from here: a flasher, a package
/// manager, another repository's build system. Their paths are still read.
pub open spec fn not_ours() -> Seq<Seq<char>> {
    seq![
        "pio"@,
        "platformio"@,
        "elf2uf2-rs"@,
        "probe-rs"@,
        "espflash"@,
        "esptool"@,
        "espup"@,
        "brew"@,
        "apt"@,
        "apt-get"@,
        "rustup"@,
        "curl"@,
        "wget"@,
        "gh"@,
        "ssh"@,
        "scp"@,
        "docker"@,
        "pipx"@,
        "code"@,
        "python3"@,
    ]
}

/// The verbs that are another tool's.
pub fn not_our_verbs() -> (r: Vec<&'static str>)
    ensures
        views(r@) == not_ours(),
{
    let r = vec![
        "pio",
        "platformio",
        "elf2uf2-rs",
        "probe-rs",
        "espflash",
        "esptool",
        "espup",
        "brew",
        "apt",
        "apt-get",
        "rustup",
        "curl",
        "wget",
        "gh",
        "ssh",
        "scp",
        "docker",
        "pipx",
        "code",
        "python3",
    ];
    assert(views(r@) =~= not_ours());
    r
}

/// Whether `w` is one of `list`.
fn among(list: &Vec<&'static str>, w: &[char]) -> (r: bool)
    ensures
        r == views(list@).contains(w@),
{
    let mut i: usize = 0;
    while i < list.len()
        invariant
            i <= list@.len(),
            forall|k: int| 0 <= k < i ==> views(list@)[k] != w@,
        decreases list@.len() - i,
    {
        if same_chars(&chars_of(list[i]), w) {
            assert(views(list@)[i as int] == w@);
            return true;
        }
        i = i + 1;
    }
    false
}

/// Whether a fence's language marks it as shell.
pub fn is_shell(language: &str) -> (r: bool)
    ensures
        r == shell_languages().contains(language@),
{
    let list = vec!["bash", "sh", "shell", "console"];
    assert(views(list@) =~= shell_languages());
    among(&list, &chars_of(language))
}

/// What one command of a block asks of the caller.
pub enum Step {
    /// A `cd`, to this directory if one is named.
    Cd { target: Option<String> },
    /// A command to check, starting on `line`: its words, and whether its
    /// verb is this repository's.
    Run { line: usize, parts: Vec<String>, ours: bool },
}

/// What a step holds, as plain values.
pub enum StepView {
    Cd { target: Option<Seq<char>> },
    Run { line: int, parts: Seq<Seq<char>>, ours: bool },
}

/// The view of a step.
pub open spec fn step_view(s: Step) -> StepView {
    match s {
        Step::Cd { target } => StepView::Cd {
            target: match target {
                Some(t) => Some(t@),
                None => None,
            },
        },
        Step::Run { line, parts, ours } => StepView::Run {
            line: line as int,
            parts: string_views(parts@),
            ours,
        },
    }
}

/// The step one command is: nothing for a command with no words, a `cd`, or
/// a command to check.
pub open spec fn step_of(command: (int, Seq<char>)) -> Option<StepView> {
    let parts = undecorated(words_of(command.1));
    if parts.len() == 0 {
        None
    } else if parts[0] == "cd"@ {
        Some(StepView::Cd { target: if parts.len() > 1 { Some(parts[1]) } else { None } })
    } else {
        Some(StepView::Run { line: command.0, parts, ours: !not_ours().contains(parts[0]) })
    }
}

/// The steps of the first `k` commands.
pub open spec fn steps_upto(cs: Seq<(int, Seq<char>)>, k: nat) -> Seq<StepView>
    decreases k,
{
    if k == 0 || k > cs.len() {
        Seq::empty()
    } else {
        steps_upto(cs, (k - 1) as nat) + match step_of(cs[k - 1]) {
            Some(s) => seq![s],
            None => Seq::empty(),
        }
    }
}

/// The steps of a shell block, command by command.
pub open spec fn steps_of(fence_lines: Seq<(int, Seq<char>)>) -> Seq<StepView> {
    let cs = commands_in(fence_lines);
    steps_upto(cs, cs.len())
}

/// The steps of a shell block: for each command with words, a `cd` or a
/// command to check.
pub fn block_steps(fence: &Fence) -> (r: Vec<Step>)
    ensures
        r@.map_values(|s: Step| step_view(s)) == steps_of(fence@.lines),
{
    proof {
        reveal_strlit("cd");
    }
    let cs = commands(fence);
    let ghost cv = command_views(cs@);
    let others = not_our_verbs();
    let cd = chars_of("cd");
    let mut out: Vec<Step> = Vec::new();
    let mut i: usize = 0;
    while i < cs.len()
        invariant
            i <= cs@.len(),
            cv == command_views(cs@),
            cv == commands_in(fence@.lines),
            views(others@) == not_ours(),
            cd@ == "cd"@,
            out@.map_values(|s: Step| step_view(s)) == steps_upto(cv, i as nat),
        decreases cs@.len() - i,
    {
        let ghost was = out@.map_values(|s: Step| step_view(s));
        assert(cv[i as int] == (cs@[i as int].line as int, cs@[i as int].text@));
        let parts = words(cs[i].text.as_str());
        let ghost pv = views(parts@);
        if parts.len() > 0 {
            let verb = chars_of(parts[0]);
            assert(pv[0] == verb@);
            let mut owned: Vec<String> = Vec::new();
            let mut j: usize = 0;
            while j < parts.len()
                invariant
                    j <= parts@.len(),
                    pv == views(parts@),
                    string_views(owned@) == pv.take(j as int),
                decreases parts@.len() - j,
            {
                let ghost before = string_views(owned@);
                owned.push(string_of(&chars_of(parts[j])));
                assert(string_views(owned@) =~= before.push(pv[j as int]));
                assert(pv.take(j + 1) =~= pv.take(j as int).push(pv[j as int]));
                j = j + 1;
            }
            assert(pv.take(parts@.len() as int) =~= pv);
            let step = if same_chars(&verb, &cd) {
                let target = if parts.len() > 1 {
                    assert(pv[1] == parts@[1]@);
                    Some(string_of(&chars_of(parts[1])))
                } else {
                    None
                };
                Step::Cd { target }
            } else {
                Step::Run { line: cs[i].line, parts: owned, ours: !among(&others, &verb) }
            };
            out.push(step);
            assert(out@.map_values(|s: Step| step_view(s)) =~= was + seq![step_view(step)]);
        } else {
            assert(out@.map_values(|s: Step| step_view(s)) =~= was + Seq::<StepView>::empty());
        }
        i = i + 1;
    }
    out
}

/// A directory a `cd` names, without trailing `/`s.
pub open spec fn cd_target(target: Seq<char>) -> Seq<char> {
    crate::text::trim_end_char(target, '/')
}

/// Whether a `cd` leaves this repository: it names no directory, or one
/// above or outside the root, or one that is not here. `here` says whether
/// the trimmed target exists under the root.
pub open spec fn leaves_of(target: Option<Seq<char>>, here: bool) -> bool {
    match target {
        None => true,
        Some(t) => {
            let d = cd_target(t);
            ||| d == ".."@
            ||| matches_at(d, 0, "../"@)
            ||| (d.len() > 0 && d[0] == '/')
            ||| (d.len() > 0 && d[0] == '~')
            ||| !here
        },
    }
}

/// The directory a `cd` names, without trailing `/`s, for the caller to look
/// for.
pub fn cd_dir(target: &str) -> (r: String)
    ensures
        r@ == cd_target(target@),
{
    string_of(&crate::text::trim_end_chars(&chars_of(target), '/'))
}

/// Whether a `cd` leaves this repository, given whether the directory it
/// names is here.
pub fn leaves(target: Option<&str>, here: bool) -> (r: bool)
    ensures
        r == leaves_of(
            match target {
                Some(t) => Some(t@),
                None => None,
            },
            here,
        ),
{
    match target {
        None => true,
        Some(t) => {
            let d = crate::text::trim_end_chars(&chars_of(t), '/');
            let up = chars_of("..");
            same_chars(&d, &up) || crate::text::starts_with_str(&d, "../") || (d.len() > 0 && d[0]
                == '/') || (d.len() > 0 && d[0] == '~') || !here
        },
    }
}

/// Where a block's walk stands after some of its steps: whether a `cd` has
/// left the repository, and how many commands were checked, were another
/// tool's, and came after the block left.
pub struct Walk {
    pub elsewhere: bool,
    pub checked: usize,
    pub skipped: usize,
    pub left: usize,
}

/// The walk over the first `k` steps, `here[j]` saying whether the directory
/// the `j`th step's `cd` names is here. Leaving latches: once a `cd` has left,
/// every later command is another repository's, whatever a later `cd` names.
pub open spec fn walk_of(steps: Seq<StepView>, here: Seq<bool>, k: int) -> (bool, int, int, int)
    decreases k,
{
    if k <= 0 || k > steps.len() {
        (false, 0, 0, 0)
    } else {
        let (e, c, s, l) = walk_of(steps, here, k - 1);
        match steps[k - 1] {
            StepView::Cd { target } => (e || leaves_of(target, here[k - 1]), c, s, l),
            StepView::Run { ours, .. } => if e {
                (e, c, s, l + 1)
            } else if ours {
                (e, c + 1, s, l)
            } else {
                (e, c, s + 1, l)
            },
        }
    }
}

/// Whether step `i` is a command this block still checks: it is not a `cd`
/// and no earlier `cd` left the repository.
pub open spec fn active_of(steps: Seq<StepView>, here: Seq<bool>, i: int) -> bool {
    steps[i] is Run && !walk_of(steps, here, i).0
}

/// Walks a block's steps, `here[i]` saying whether the directory step `i`'s
/// `cd` names is here (read only for a `cd` that names one). Gives, for each
/// step, whether its command is still checked, and the counts.
pub fn walk(steps: &Vec<Step>, here: &Vec<bool>) -> (r: (Vec<bool>, Walk))
    requires
        here@.len() == steps@.len(),
    ensures
        r.0@.len() == steps@.len(),
        forall|i: int| 0 <= i < steps@.len() ==> r.0@[i] == active_of(
            steps@.map_values(|s: Step| step_view(s)), here@, i),
        (r.1.elsewhere, r.1.checked as int, r.1.skipped as int, r.1.left as int) == walk_of(
            steps@.map_values(|s: Step| step_view(s)), here@, steps@.len() as int),
{
    let ghost sv = steps@.map_values(|s: Step| step_view(s));
    let mut active: Vec<bool> = Vec::new();
    let mut w = Walk { elsewhere: false, checked: 0, skipped: 0, left: 0 };
    let mut i: usize = 0;
    while i < steps.len()
        invariant
            i <= steps@.len(),
            here@.len() == steps@.len(),
            sv == steps@.map_values(|s: Step| step_view(s)),
            active@.len() == i,
            forall|j: int| 0 <= j < i ==> active@[j] == active_of(sv, here@, j),
            (w.elsewhere, w.checked as int, w.skipped as int, w.left as int) == walk_of(sv, here@, i as int),
            w.checked + w.skipped + w.left <= i,
        decreases steps@.len() - i,
    {
        assert(sv[i as int] == step_view(steps@[i as int]));
        match &steps[i] {
            Step::Cd { target } => {
                active.push(false);
                let gone = match target {
                    None => true,
                    Some(t) => leaves(Some(t.as_str()), here[i]),
                };
                w.elsewhere = w.elsewhere || gone;
            },
            Step::Run { ours, .. } => {
                active.push(!w.elsewhere);
                if w.elsewhere {
                    w.left = w.left + 1;
                } else if *ours {
                    w.checked = w.checked + 1;
                } else {
                    w.skipped = w.skipped + 1;
                }
            },
        }
        i = i + 1;
    }
    (active, w)
}

/// Once a walk has left, it stays left.
proof fn lemma_left_stays(steps: Seq<StepView>, here: Seq<bool>, k: int, m: int)
    requires
        0 <= k <= m <= steps.len(),
        walk_of(steps, here, k).0,
    ensures
        walk_of(steps, here, m).0,
    decreases m - k,
{
    if k < m {
        lemma_left_stays(steps, here, k, m - 1);
    }
}

/// Leaving the repository latches for the rest of the block: after a `cd`
/// that leaves, no later command of the block is checked, whatever a later
/// `cd` names.
pub proof fn leaving_latches(steps: Seq<StepView>, here: Seq<bool>, i: int, j: int)
    requires
        0 <= i < j < steps.len(),
        here.len() == steps.len(),
        steps[i] matches StepView::Cd { target } && leaves_of(target, here[i]),
    ensures
        !active_of(steps, here, j),
{
    lemma_left_stays(steps, here, i + 1, j);
}

/// How many of the first `k` steps are commands.
pub open spec fn runs_upto(steps: Seq<StepView>, k: int) -> int
    decreases k,
{
    if k <= 0 || k > steps.len() {
        0
    } else {
        runs_upto(steps, k - 1) + if steps[k - 1] is Run {
            1int
        } else {
            0int
        }
    }
}

/// Every command of a block is counted exactly once: checked, another
/// tool's, or another repository's.
pub proof fn every_command_is_counted_once(steps: Seq<StepView>, here: Seq<bool>, k: int)
    requires
        0 <= k <= steps.len(),
    ensures
        walk_of(steps, here, k).1 + walk_of(steps, here, k).2 + walk_of(steps, here, k).3 == runs_upto(steps, k),
    decreases k,
{
    if k > 0 {
        every_command_is_counted_once(steps, here, k - 1);
    }
}

} // verus!
