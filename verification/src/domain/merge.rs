//! Bringing one branch into another without a checkout.
//!
//! The repository answers questions about its history; this module decides, from the
//! answers so far, what to ask next or what to do. The caller asks, acts and reports back.

use crate::error::ItackError;
use crate::text::same_text;
use vstd::prelude::*;
use vstd::string::StringExecFns;

verus! {

/// What a three-way merge of two trees over their base gave.
#[derive(Debug, Clone, PartialEq, Eq)]
pub enum TreeMerge {
    /// Both sides changed the same entry in different ways.
    Conflict,
    /// The merged tree, by its identifier.
    Clean(String),
}

/// What is known of the two branches. A tip is `None` where the branch does not exist; any
/// other field is `None` until the repository has answered.
#[derive(Debug, Clone, PartialEq, Eq)]
pub struct MergeFacts {
    /// The tip of the source branch.
    pub source: Option<String>,
    /// The tip of the target branch.
    pub target: Option<String>,
    /// Whether the target's tip descends from the source's tip.
    pub target_descends: Option<bool>,
    /// Whether the source's tip descends from the target's tip.
    pub source_descends: Option<bool>,
    /// The merge of the two tips' trees over the tree of their merge base.
    pub merged: Option<TreeMerge>,
}

/// What to do next in a merge.
#[derive(Debug, Clone, PartialEq, Eq)]
pub enum MergeStep {
    /// Ask whether the target's tip descends from the source's tip.
    AskTargetDescends,
    /// Ask whether the source's tip descends from the target's tip.
    AskSourceDescends,
    /// Ask for the three-way merge of the two trees.
    AskTreeMerge,
    /// The target does not exist: create it at the source's tip, which is the result.
    CreateBranch { at: String },
    /// The target holds the source already: nothing to do, the target's tip is the result.
    AlreadyMerged { tip: String },
    /// The source continues the target: move the target to the source's tip, which is the
    /// result.
    FastForward { to: String },
    /// Commit the merged tree on the target, with the target's tip and the source's tip as
    /// parents, in this order. The new commit is the result.
    Commit { tree: String, first_parent: String, second_parent: String, message: String },
    /// The merge fails and nothing is changed.
    Fail(ItackError),
}

/// `MergeFacts` as mathematical values.
pub struct MergeFactsView {
    pub source: Option<Seq<char>>,
    pub target: Option<Seq<char>>,
    pub target_descends: Option<bool>,
    pub source_descends: Option<bool>,
    pub merged: Option<Option<Seq<char>>>,
}

/// `MergeStep` as mathematical values.
pub enum MergeStepView {
    AskTargetDescends,
    AskSourceDescends,
    AskTreeMerge,
    CreateBranch { at: Seq<char> },
    AlreadyMerged { tip: Seq<char> },
    FastForward { to: Seq<char> },
    Commit {
        tree: Seq<char>,
        first_parent: Seq<char>,
        second_parent: Seq<char>,
        message: Seq<char>,
    },
    SourceMissing { source: Seq<char> },
    Conflict { source: Seq<char>, target: Seq<char> },
}

impl View for MergeFacts {
    type V = MergeFactsView;

    open spec fn view(&self) -> MergeFactsView {
        MergeFactsView {
            source: match self.source {
                Some(s) => Some(s@),
                None => None,
            },
            target: match self.target {
                Some(s) => Some(s@),
                None => None,
            },
            target_descends: self.target_descends,
            source_descends: self.source_descends,
            merged: match self.merged {
                Some(TreeMerge::Clean(tree)) => Some(Some(tree@)),
                Some(TreeMerge::Conflict) => Some(None),
                None => None,
            },
        }
    }
}

impl View for MergeStep {
    type V = MergeStepView;

    open spec fn view(&self) -> MergeStepView {
        match self {
            MergeStep::AskTargetDescends => MergeStepView::AskTargetDescends,
            MergeStep::AskSourceDescends => MergeStepView::AskSourceDescends,
            MergeStep::AskTreeMerge => MergeStepView::AskTreeMerge,
            MergeStep::CreateBranch { at } => MergeStepView::CreateBranch { at: at@ },
            MergeStep::AlreadyMerged { tip } => MergeStepView::AlreadyMerged { tip: tip@ },
            MergeStep::FastForward { to } => MergeStepView::FastForward { to: to@ },
            MergeStep::Commit { tree, first_parent, second_parent, message } => {
                MergeStepView::Commit {
                    tree: tree@,
                    first_parent: first_parent@,
                    second_parent: second_parent@,
                    message: message@,
                }
            },
            MergeStep::Fail(ItackError::MergeConflict(source, target)) => MergeStepView::Conflict {
                source: source@,
                target: target@,
            },
            MergeStep::Fail(ItackError::BranchNotFound(source)) => MergeStepView::SourceMissing {
                source: source@,
            },
            MergeStep::Fail(_) => arbitrary(),
        }
    }
}

/// The message of a merge commit.
pub open spec fn merge_message(source_branch: Seq<char>, target_branch: Seq<char>) -> Seq<char> {
    "Merge "@ + source_branch + " into "@ + target_branch
}

/// The next step of a merge of `source_branch` into `target_branch`.
///
/// A source without a tip fails. A target without a tip is created at the source's tip.
/// A target that is at the source's tip, or descends from it, holds the source already.
/// A source that descends from the target's tip is fast-forwarded to. Otherwise the trees
/// are merged: a conflict fails, a clean merge is committed.
pub open spec fn next_step(
    source_branch: Seq<char>,
    target_branch: Seq<char>,
    facts: MergeFactsView,
) -> MergeStepView {
    match facts.source {
        None => MergeStepView::SourceMissing { source: source_branch },
        Some(source) => match facts.target {
            None => MergeStepView::CreateBranch { at: source },
            Some(target) => if target == source {
                MergeStepView::AlreadyMerged { tip: target }
            } else {
                match facts.target_descends {
                    None => MergeStepView::AskTargetDescends,
                    Some(true) => MergeStepView::AlreadyMerged { tip: target },
                    Some(false) => match facts.source_descends {
                        None => MergeStepView::AskSourceDescends,
                        Some(true) => MergeStepView::FastForward { to: source },
                        Some(false) => match facts.merged {
                            None => MergeStepView::AskTreeMerge,
                            Some(None) => MergeStepView::Conflict {
                                source: source_branch,
                                target: target_branch,
                            },
                            Some(Some(tree)) => MergeStepView::Commit {
                                tree,
                                first_parent: target,
                                second_parent: source,
                                message: merge_message(source_branch, target_branch),
                            },
                        },
                    },
                }
            },
        },
    }
}

/// Merge source branch into target branch without checkout: the next step, given what the
/// repository has answered so far.
pub fn merge_branches(source_branch: &str, target_branch: &str, facts: &MergeFacts) -> (step:
    MergeStep)
    ensures
        step@ == next_step(source_branch@, target_branch@, facts@),
        step matches MergeStep::Fail(e) ==> e is MergeConflict || e is BranchNotFound,
{
    let source = match &facts.source {
        None => {
            return MergeStep::Fail(ItackError::BranchNotFound(source_branch.to_owned()));
        },
        Some(source) => source,
    };
    let target = match &facts.target {
        None => {
            return MergeStep::CreateBranch { at: source.clone() };
        },
        Some(target) => target,
    };
    if same_text(target.as_str(), source.as_str()) {
        return MergeStep::AlreadyMerged { tip: target.clone() };
    }
    match facts.target_descends {
        None => {
            return MergeStep::AskTargetDescends;
        },
        Some(true) => {
            return MergeStep::AlreadyMerged { tip: target.clone() };
        },
        Some(false) => {},
    }
    match facts.source_descends {
        None => {
            return MergeStep::AskSourceDescends;
        },
        Some(true) => {
            return MergeStep::FastForward { to: source.clone() };
        },
        Some(false) => {},
    }
    match &facts.merged {
        None => MergeStep::AskTreeMerge,
        Some(TreeMerge::Conflict) => MergeStep::Fail(
            ItackError::MergeConflict(source_branch.to_owned(), target_branch.to_owned()),
        ),
        Some(TreeMerge::Clean(tree)) => {
            let mut message = "Merge ".to_owned();
            message.append(source_branch);
            message.append(" into ");
            message.append(target_branch);
            MergeStep::Commit {
                tree: tree.clone(),
                first_parent: target.clone(),
                second_parent: source.clone(),
                message,
            }
        },
    }
}

/// The commits of a repository: each with its parents.
pub type History = Map<Seq<char>, Seq<Seq<char>>>;

/// `to` is `from`, or lies at most `steps` parent links behind it.
pub open spec fn reaches(h: History, from: Seq<char>, to: Seq<char>, steps: nat) -> bool
    decreases steps,
{
    from == to || (steps > 0 && h.dom().contains(from) && exists|i: int|
        0 <= i < h[from].len() && reaches(h, #[trigger] h[from][i], to, (steps - 1) as nat))
}

/// `from` is another commit than `to` and has it in its history.
pub open spec fn descends(h: History, from: Seq<char>, to: Seq<char>) -> bool {
    from != to && exists|steps: nat| reaches(h, from, to, steps)
}

/// The answers in `facts` are true of the history `h`.
pub open spec fn facts_hold(h: History, facts: MergeFactsView) -> bool {
    facts.source matches Some(source) && facts.target matches Some(target) ==> {
        &&& facts.target_descends matches Some(answer) ==> answer == descends(h, target, source)
        &&& facts.source_descends matches Some(answer) ==> answer == descends(h, source, target)
    }
}

/// The target's tip once a step that ends a merge in success is carried out; `fresh` is
/// the commit that a `Commit` step makes.
pub open spec fn tip_after(step: MergeStepView, fresh: Seq<char>) -> Option<Seq<char>> {
    match step {
        MergeStepView::CreateBranch { at } => Some(at),
        MergeStepView::AlreadyMerged { tip } => Some(tip),
        MergeStepView::FastForward { to } => Some(to),
        MergeStepView::Commit { tree, first_parent, second_parent, message } => Some(fresh),
        _ => None,
    }
}

/// The history once a step is carried out: a `Commit` step adds the commit `fresh` with
/// its two parents; no other step adds a commit.
pub open spec fn history_after(h: History, step: MergeStepView, fresh: Seq<char>) -> History {
    match step {
        MergeStepView::Commit { tree, first_parent, second_parent, message } => h.insert(
            fresh,
            seq![first_parent, second_parent],
        ),
        _ => h,
    }
}

/// Merging a branch into another twice is merging it once: after a merge that succeeded,
/// a second merge of the same source never moves the target. It finds the target at the
/// source's tip, or asks whether the target descends from it and, on the true answer,
/// ends with the target's tip unchanged.
pub proof fn lemma_second_merge_is_noop(
    h: History,
    source_branch: Seq<char>,
    target_branch: Seq<char>,
    first: MergeFactsView,
    fresh: Seq<char>,
    second: MergeFactsView,
)
    requires
        facts_hold(h, first),
        tip_after(next_step(source_branch, target_branch, first), fresh) is Some,
        second.source == first.source,
        second.target == tip_after(next_step(source_branch, target_branch, first), fresh),
        facts_hold(
            history_after(h, next_step(source_branch, target_branch, first), fresh),
            second,
        ),
    ensures
        next_step(source_branch, target_branch, second) == (MergeStepView::AlreadyMerged {
            tip: second.target->0,
        }) || (second.target_descends is None && next_step(source_branch, target_branch, second)
            == MergeStepView::AskTargetDescends),
{
    let step = next_step(source_branch, target_branch, first);
    let h2 = history_after(h, step, fresh);
    let tip = tip_after(step, fresh)->0;
    let source = first.source->0;
    if tip != source {
        match step {
            MergeStepView::Commit { tree, first_parent, second_parent, message } => {
                assert(h2[fresh][1] == source);
                assert(reaches(h2, h2[fresh][1], source, 0));
                assert(reaches(h2, fresh, source, 1));
                assert(descends(h2, tip, source));
            },
            MergeStepView::AlreadyMerged { tip: t } => {
                assert(descends(h, tip, source));
            },
            _ => {},
        }
    }
}

} // verus!
