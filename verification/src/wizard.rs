//! The setup questions: which steps the setup asks, in order, and which step
//! follows an answer.

use vstd::prelude::*;
use crate::setup::{answer, answer_exec, answers_view, choices, is_yes, is_yes_spec};
use crate::text::{chars_of, string_of};

verus! {

broadcast use vstd::string::group_string_axioms;

/// What a step asks for.
#[derive(Debug, Clone, Copy, PartialEq, Eq, Structural)]
pub enum StepKind {
    /// A message, with nothing to answer.
    Dialog,
    /// A yes-or-no question.
    Confirm,
    /// A choice among labelled options.
    Select,
    /// Text typed in.
    Prompt,
}

/// Where the setup goes once a step is answered.
pub enum Branch {
    /// The step after this one.
    Next,
    /// The step with this id.
    JumpTo(String),
    /// Nowhere: the setup is over.
    Finish,
}

/// The mathematical content of a branch.
pub enum BranchView {
    Next,
    JumpTo(Seq<char>),
    Finish,
}

impl View for Branch {
    type V = BranchView;

    open spec fn view(&self) -> BranchView {
        match self {
            Branch::Next => BranchView::Next,
            Branch::JumpTo(id) => BranchView::JumpTo(id@),
            Branch::Finish => BranchView::Finish,
        }
    }
}

/// The rule a step's answer is read by to choose the next step, beyond its
/// own yes and no branches.
#[derive(Debug, Clone, Copy, PartialEq, Eq, Structural)]
pub enum OnSubmit {
    /// The step's own branches decide.
    Own,
    /// Installing the rule: to the choice of destination when tools were
    /// found, else to typing a path; not installing it, to the shim.
    RuleConfirm,
    /// A rule destination chosen: `other` goes to typing a path, anything
    /// else to the shim.
    RuleSelect,
    /// On to the shim question.
    ToShim,
    /// A shell file chosen: `other` goes to typing a path, anything else
    /// on to the sync question.
    RcSelect,
    /// On to the sync question.
    ToSync,
    /// The setup is over.
    ToFinish,
}

/// One step of the setup.
pub struct Step {
    pub kind: StepKind,
    pub id: Option<String>,
    pub message: String,
    /// The key its answer is recorded under; empty for a dialog.
    pub key: String,
    /// The labelled options of a choice.
    pub options: Vec<(String, String)>,
    /// The answer a prompt starts with.
    pub default: String,
    /// Where a confirm goes on yes, and on no.
    pub on_yes: Branch,
    pub on_no: Branch,
    pub on_submit: OnSubmit,
}

/// The mathematical content of a step.
#[verifier::ext_equal]
pub struct StepView {
    pub kind: StepKind,
    pub id: Option<Seq<char>>,
    pub message: Seq<char>,
    pub key: Seq<char>,
    pub options: Seq<(Seq<char>, Seq<char>)>,
    pub default: Seq<char>,
    pub on_yes: BranchView,
    pub on_no: BranchView,
    pub on_submit: OnSubmit,
}

impl View for Step {
    type V = StepView;

    open spec fn view(&self) -> StepView {
        StepView {
            kind: self.kind,
            id: crate::git::opt_text(self.id),
            message: self.message@,
            key: self.key@,
            options: choices(self.options@),
            default: self.default@,
            on_yes: self.on_yes@,
            on_no: self.on_no@,
            on_submit: self.on_submit,
        }
    }
}

/// The views of steps.
pub open spec fn steps_view(v: Seq<Step>) -> Seq<StepView> {
    v.map_values(|s: Step| s@)
}

/// A step of the setup, from its parts.
pub open spec fn step_spec(
    kind: StepKind,
    id: Option<Seq<char>>,
    message: Seq<char>,
    key: Seq<char>,
    options: Seq<(Seq<char>, Seq<char>)>,
    on_yes: BranchView,
    on_no: BranchView,
    on_submit: OnSubmit,
) -> StepView {
    StepView { kind, id, message, key, options, default: Seq::<char>::empty(), on_yes, on_no, on_submit }
}

/// The steps of the setup, in order: a welcome; whether to install the rule,
/// where (among the destinations found, or typed), and whether to install
/// the shell shim and where (among the shell files found, or typed); whether
/// to sync, and through which remote. Each choice ends with `Other`.
pub open spec fn wizard_steps(rc_files: Seq<(Seq<char>, Seq<char>)>, rule_destinations: Seq<(Seq<char>, Seq<char>)>) -> Seq<StepView> {
    let other = ("Other"@, "other"@);
    seq![
        step_spec(StepKind::Dialog, None, "Welcome! Let's set up insights for your environment."@, Seq::<char>::empty(), seq![], BranchView::Next, BranchView::Next, OnSubmit::Own),
        step_spec(StepKind::Confirm, Some("rule-confirm"@), "Install an AI rule file for this tool?"@, "INSTALL_RULE"@, seq![], BranchView::Next, BranchView::JumpTo("shim-confirm"@), OnSubmit::RuleConfirm),
        step_spec(StepKind::Select, Some("rule-select"@), "Where should the rule be installed?"@, "RULE_PATH"@, rule_destinations.push(other), BranchView::Next, BranchView::Next, OnSubmit::RuleSelect),
        step_spec(StepKind::Prompt, Some("custom-rule-path"@), "Enter rule file path:"@, "RULE_PATH"@, seq![], BranchView::Next, BranchView::Next, OnSubmit::ToShim),
        step_spec(StepKind::Confirm, Some("shim-confirm"@), "Install shell shim?"@, "INSTALL_SHIM"@, seq![], BranchView::Next, BranchView::JumpTo("sync-confirm"@), OnSubmit::Own),
        step_spec(StepKind::Select, Some("rc-select"@), "Which shell RC should the shim be added to?"@, "SHIM_PATH"@, rc_files.push(other), BranchView::Next, BranchView::Next, OnSubmit::RcSelect),
        step_spec(StepKind::Prompt, Some("custom-rc-path"@), "Enter shell RC path:"@, "SHIM_PATH"@, seq![], BranchView::Next, BranchView::Next, OnSubmit::ToSync),
        step_spec(StepKind::Confirm, Some("sync-confirm"@), "Sync your insights to your other machines through a git remote?"@, "INSTALL_SYNC"@, seq![], BranchView::Next, BranchView::Finish, OnSubmit::Own),
        step_spec(StepKind::Prompt, Some("sync-remote"@), "Git remote URL for your insight store:"@, "SYNC_REMOTE"@, seq![], BranchView::Next, BranchView::Next, OnSubmit::ToFinish),
    ]
}

fn make_step(
    kind: StepKind,
    id: Option<&str>,
    message: &str,
    key: &str,
    options: Vec<(String, String)>,
    on_yes: Branch,
    on_no: Branch,
    on_submit: OnSubmit,
) -> (r: Step)
    ensures
        r@ == step_spec(
            kind,
            match id {
                Some(i) => Some(i@),
                None => None,
            },
            message@,
            key@,
            choices(options@),
            on_yes@,
            on_no@,
            on_submit,
        ),
{
    let id = match id {
        Some(i) => Some(string_of(chars_of(i).as_slice())),
        None => None,
    };
    let r = Step {
        kind,
        id,
        message: string_of(chars_of(message).as_slice()),
        key: string_of(chars_of(key).as_slice()),
        options,
        default: String::new(),
        on_yes,
        on_no,
        on_submit,
    };
    proof {
        assert(r.default@ =~= Seq::<char>::empty());
    }
    r
}

fn with_other(items: &[(String, String)]) -> (r: Vec<(String, String)>)
    ensures
        choices(r@) == choices(items@).push(("Other"@, "other"@)),
{
    let mut out: Vec<(String, String)> = Vec::new();
    let mut i: usize = 0;
    while i < items.len()
        invariant
            i <= items@.len(),
            choices(out@) == choices(items@).take(i as int),
        decreases items@.len() - i,
    {
        let ghost before = out@;
        out.push((string_of(chars_of(items[i].0.as_str()).as_slice()), string_of(chars_of(items[i].1.as_str()).as_slice())));
        proof {
            assert(choices(out@) =~= choices(before).push((items@[i as int].0@, items@[i as int].1@)));
            assert(choices(items@).take(i + 1) =~= choices(items@).take(i as int).push((items@[i as int].0@, items@[i as int].1@)));
        }
        i = i + 1;
    }
    let ghost before = out@;
    out.push(("Other".to_string(), "other".to_string()));
    proof {
        assert(choices(items@).take(items@.len() as int) =~= choices(items@));
        assert(choices(out@) =~= choices(before).push(("Other"@, "other"@)));
    }
    out
}

fn no_options() -> (r: Vec<(String, String)>)
    ensures
        choices(r@) == Seq::<(Seq<char>, Seq<char>)>::empty(),
{
    let r: Vec<(String, String)> = Vec::new();
    proof {
        assert(choices(r@) =~= Seq::<(Seq<char>, Seq<char>)>::empty());
    }
    r
}

fn jump(id: &str) -> (r: Branch)
    ensures
        r@ == BranchView::JumpTo(id@),
{
    Branch::JumpTo(string_of(chars_of(id).as_slice()))
}

/// The steps of the setup, with the shell files and rule destinations
/// found to choose among.
pub fn build_steps(rc_files: &[(String, String)], rule_destinations: &[(String, String)]) -> (r: Vec<Step>)
    ensures
        steps_view(r@) == wizard_steps(choices(rc_files@), choices(rule_destinations@)),
{
    let rc_options = with_other(rc_files);
    let rule_options = with_other(rule_destinations);
    let mut steps: Vec<Step> = Vec::new();
    steps.push(make_step(StepKind::Dialog, None, "Welcome! Let's set up insights for your environment.", "", no_options(), Branch::Next, Branch::Next, OnSubmit::Own));
    steps.push(make_step(StepKind::Confirm, Some("rule-confirm"), "Install an AI rule file for this tool?", "INSTALL_RULE", no_options(), Branch::Next, jump("shim-confirm"), OnSubmit::RuleConfirm));
    steps.push(make_step(StepKind::Select, Some("rule-select"), "Where should the rule be installed?", "RULE_PATH", rule_options, Branch::Next, Branch::Next, OnSubmit::RuleSelect));
    steps.push(make_step(StepKind::Prompt, Some("custom-rule-path"), "Enter rule file path:", "RULE_PATH", no_options(), Branch::Next, Branch::Next, OnSubmit::ToShim));
    steps.push(make_step(StepKind::Confirm, Some("shim-confirm"), "Install shell shim?", "INSTALL_SHIM", no_options(), Branch::Next, jump("sync-confirm"), OnSubmit::Own));
    steps.push(make_step(StepKind::Select, Some("rc-select"), "Which shell RC should the shim be added to?", "SHIM_PATH", rc_options, Branch::Next, Branch::Next, OnSubmit::RcSelect));
    steps.push(make_step(StepKind::Prompt, Some("custom-rc-path"), "Enter shell RC path:", "SHIM_PATH", no_options(), Branch::Next, Branch::Next, OnSubmit::ToSync));
    steps.push(make_step(StepKind::Confirm, Some("sync-confirm"), "Sync your insights to your other machines through a git remote?", "INSTALL_SYNC", no_options(), Branch::Next, Branch::Finish, OnSubmit::Own));
    steps.push(make_step(StepKind::Prompt, Some("sync-remote"), "Git remote URL for your insight store:", "SYNC_REMOTE", no_options(), Branch::Next, Branch::Next, OnSubmit::ToFinish));
    proof {
        reveal_strlit("");
        let want = wizard_steps(choices(rc_files@), choices(rule_destinations@));
        let got = steps_view(steps@);
        assert(got.len() == want.len());
        assert(got[0] =~= want[0]);
        assert(got[1] =~= want[1]);
        assert(got[2] =~= want[2]);
        assert(got[3] =~= want[3]);
        assert(got[4] =~= want[4]);
        assert(got[5] =~= want[5]);
        assert(got[6] =~= want[6]);
        assert(got[7] =~= want[7]);
        assert(got[8] =~= want[8]);
        assert(got =~= want);
    }
    steps
}

/// Where a step's answer leads by its own rule, if it has one: the rules of
/// the setup's questions, given the answers so far and whether any agent
/// tool was found.
pub open spec fn submitted(on_submit: OnSubmit, answers: Seq<(Seq<char>, Seq<char>)>, has_detected_aides: bool) -> Option<BranchView> {
    match on_submit {
        OnSubmit::Own => None,
        OnSubmit::RuleConfirm => {
            let val = match answer(answers, "INSTALL_RULE"@) {
                Some(v) => v,
                None => "yes"@,
            };
            if val == "yes"@ {
                if has_detected_aides {
                    Some(BranchView::JumpTo("rule-select"@))
                } else {
                    Some(BranchView::JumpTo("custom-rule-path"@))
                }
            } else {
                Some(BranchView::JumpTo("shim-confirm"@))
            }
        },
        OnSubmit::RuleSelect => if answer(answers, "RULE_PATH"@) == Some("other"@) {
            Some(BranchView::JumpTo("custom-rule-path"@))
        } else {
            Some(BranchView::JumpTo("shim-confirm"@))
        },
        OnSubmit::ToShim => Some(BranchView::JumpTo("shim-confirm"@)),
        OnSubmit::RcSelect => if answer(answers, "SHIM_PATH"@) == Some("other"@) {
            Some(BranchView::JumpTo("custom-rc-path"@))
        } else {
            Some(BranchView::JumpTo("sync-confirm"@))
        },
        OnSubmit::ToSync => Some(BranchView::JumpTo("sync-confirm"@)),
        OnSubmit::ToFinish => Some(BranchView::Finish),
    }
}

/// Where the setup goes from a step once it is answered: its own rule, if it
/// has one; else, for a yes-or-no question, its yes or no branch; else on.
pub open spec fn branch_after(step: StepView, answers: Seq<(Seq<char>, Seq<char>)>, has_detected_aides: bool) -> BranchView {
    match submitted(step.on_submit, answers, has_detected_aides) {
        Some(b) => b,
        None => if step.kind == StepKind::Confirm {
            if is_yes_spec(answers, step.key) {
                step.on_yes
            } else {
                step.on_no
            }
        } else {
            BranchView::Next
        },
    }
}

/// The index of the first step with the given id, if any.
pub open spec fn step_with_id(steps: Seq<StepView>, id: Seq<char>, from: int) -> Option<int>
    decreases steps.len() - from,
{
    if from < 0 || from >= steps.len() {
        None
    } else if steps[from].id == Some(id) {
        Some(from)
    } else {
        step_with_id(steps, id, from + 1)
    }
}

/// The step a branch leads to from step `current`, or none when the setup
/// is over: the next one (none past the last), the one with the id jumped to
/// (none when no step has it), or none on finishing.
pub open spec fn resolve(steps: Seq<StepView>, current: int, branch: BranchView) -> Option<int> {
    match branch {
        BranchView::Next => if current + 1 < steps.len() {
            Some(current + 1)
        } else {
            None
        },
        BranchView::JumpTo(id) => step_with_id(steps, id, 0),
        BranchView::Finish => None,
    }
}

fn text_eq(a: &str, b: &str) -> (r: bool)
    ensures
        r == (a@ == b@),
{
    crate::text::chars_eq(chars_of(a).as_slice(), chars_of(b).as_slice())
}

fn answer_is(answers: &Vec<(String, String)>, key: &str, value: &str) -> (r: bool)
    ensures
        r == (answer(answers_view(answers@), key@) == Some(value@)),
{
    match answer_exec(answers, key) {
        Some(v) => text_eq(v.as_str(), value),
        None => false,
    }
}

fn submitted_exec(on_submit: OnSubmit, answers: &Vec<(String, String)>, has_detected_aides: bool) -> (r: Option<Branch>)
    ensures
        match r {
            Some(b) => submitted(on_submit, answers_view(answers@), has_detected_aides) == Some(b@),
            None => submitted(on_submit, answers_view(answers@), has_detected_aides) is None,
        },
{
    match on_submit {
        OnSubmit::Own => None,
        OnSubmit::RuleConfirm => {
            let yes = match answer_exec(answers, "INSTALL_RULE") {
                Some(v) => text_eq(v.as_str(), "yes"),
                None => true,
            };
            if yes {
                if has_detected_aides {
                    Some(jump("rule-select"))
                } else {
                    Some(jump("custom-rule-path"))
                }
            } else {
                Some(jump("shim-confirm"))
            }
        },
        OnSubmit::RuleSelect => if answer_is(answers, "RULE_PATH", "other") {
            Some(jump("custom-rule-path"))
        } else {
            Some(jump("shim-confirm"))
        },
        OnSubmit::ToShim => Some(jump("shim-confirm")),
        OnSubmit::RcSelect => if answer_is(answers, "SHIM_PATH", "other") {
            Some(jump("custom-rc-path"))
        } else {
            Some(jump("sync-confirm"))
        },
        OnSubmit::ToSync => Some(jump("sync-confirm")),
        OnSubmit::ToFinish => Some(Branch::Finish),
    }
}

fn copy_branch(b: &Branch) -> (r: Branch)
    ensures
        r@ == b@,
{
    match b {
        Branch::Next => Branch::Next,
        Branch::JumpTo(id) => Branch::JumpTo(string_of(chars_of(id.as_str()).as_slice())),
        Branch::Finish => Branch::Finish,
    }
}

/// The step that follows step `current` once it is answered, or none when
/// the setup is over.
pub fn next_step(steps: &Vec<Step>, current: usize, answers: &Vec<(String, String)>, has_detected_aides: bool) -> (r: Option<usize>)
    requires
        current < steps@.len(),
    ensures
        match r {
            Some(i) => resolve(steps_view(steps@), current as int, branch_after(steps@[current as int]@, answers_view(answers@), has_detected_aides)) == Some(i as int),
            None => resolve(steps_view(steps@), current as int, branch_after(steps@[current as int]@, answers_view(answers@), has_detected_aides)) is None,
        },
{
    let step = &steps[current];
    let branch = match submitted_exec(step.on_submit, answers, has_detected_aides) {
        Some(b) => b,
        None => if step.kind == StepKind::Confirm {
            if is_yes(answers, step.key.as_str()) {
                copy_branch(&step.on_yes)
            } else {
                copy_branch(&step.on_no)
            }
        } else {
            Branch::Next
        },
    };
    let ghost sv = steps_view(steps@);
    proof {
        assert(sv[current as int] == steps@[current as int]@);
        assert(branch@ == branch_after(steps@[current as int]@, answers_view(answers@), has_detected_aides));
    }
    match branch {
        Branch::Next => if current < steps.len() - 1 {
            Some(current + 1)
        } else {
            None
        },
        Branch::Finish => None,
        Branch::JumpTo(id) => {
            let ghost target = branch_after(steps@[current as int]@, answers_view(answers@), has_detected_aides);
            assert(target == BranchView::JumpTo(id@));
            let mut i: usize = 0;
            while i < steps.len()
                invariant
                    i <= steps@.len(),
                    current < steps@.len(),
                    target == branch_after(steps@[current as int]@, answers_view(answers@), has_detected_aides),
                    target == BranchView::JumpTo(id@),
                    sv == steps_view(steps@),
                    step_with_id(sv, id@, 0) == step_with_id(sv, id@, i as int),
                decreases steps@.len() - i,
            {
                let matches_id = match &steps[i].id {
                    Some(s) => text_eq(s.as_str(), id.as_str()),
                    None => false,
                };
                proof {
                    assert(sv[i as int] == steps@[i as int]@);
                }
                if matches_id {
                    return Some(i);
                }
                i = i + 1;
            }
            None
        },
    }
}

} // verus!
