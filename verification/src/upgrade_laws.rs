//! What an upgrade comes to as a whole.

use vstd::prelude::*;

use crate::error::Error;
use crate::upgrade::{
    after_environment, after_installation, after_receipt, after_removal, after_update, counts_for,
    not_installed_text, plan_of, reinstall_text, take_up, Changed, Combine, ExitStatus,
    Installation, Plan, Receipt, StepView, UpgradeView,
};

verus! {

/// What is found and done about one tool: its receipt, its environment, the settings that count for
/// it, what its update comes to (what the environment becomes and the packages that are changed),
/// and what the installation of its resources comes to.
pub struct Answer<T, Q, O, E, F> {
    pub receipt: Result<Option<Receipt<T, Q, O>>, Error>,
    pub environment: Result<Option<E>, Error>,
    pub options: O,
    pub update: Result<(E, Seq<Seq<char>>), F>,
    pub install: Result<(), F>,
}

impl<T, Q, O, E, F> Answer<T, Q, O, E, F> {
    /// Whether the tool can be upgraded.
    pub open spec fn usable(self) -> bool {
        &&& self.receipt matches Ok(Some(_))
        &&& self.environment matches Ok(Some(_))
    }

    /// The receipt of a tool that can be upgraded.
    pub open spec fn own_receipt(self) -> Receipt<T, Q, O> {
        self.receipt->Ok_0->Some_0
    }

    /// The plan for the tool.
    pub open spec fn plan(self) -> Plan<T, Q, O> {
        plan_of(self.own_receipt(), self.options)
    }

    /// Whether any package is changed.
    pub open spec fn changes(self) -> bool {
        self.update matches Ok(done) && done.1.len() > 0
    }

    /// Whether the tool of the given name is changed itself.
    pub open spec fn changes_tool(self, name: Seq<char>) -> bool {
        self.update matches Ok(done) && done.1.contains(name)
    }

    /// Whether the upgrade gets through the tool of the given name, to the next one.
    pub open spec fn passes(self, name: Seq<char>) -> bool {
        self.usable() && self.update is Ok && (self.changes_tool(name) ==> self.install is Ok)
    }
}

/// Something that is done to a tool, with the tool's name and what is handed to it.
pub enum Act<T, Q, O, E> {
    Update(Seq<char>, Plan<T, Q, O>, E),
    Remove(Seq<char>, Changed<T, Q, O, E>),
    Install(Seq<char>, Installation<T, Q, O, E>),
}

impl<T, Q, O, E> Act<T, Q, O, E> {
    /// The tool.
    pub open spec fn name(self) -> Seq<char> {
        match self {
            Act::Update(name, _, _) => name,
            Act::Remove(name, _) => name,
            Act::Install(name, _) => name,
        }
    }

    /// The plan that is gone by.
    pub open spec fn plan(self) -> Plan<T, Q, O> {
        match self {
            Act::Update(_, plan, _) => plan,
            Act::Remove(_, changed) => changed.plan,
            Act::Install(_, installation) => installation.plan,
        }
    }
}

/// How an upgrade ends.
pub enum End<F> {
    Exit(ExitStatus, Option<Seq<char>>),
    Fail(F),
}

/// What an upgrade comes to: all that is done, in order, and how it ends.
pub struct Outcome<T, Q, O, E, F> {
    pub acts: Seq<Act<T, Q, O, E>>,
    pub end: End<F>,
}

/// How many steps are left at most.
pub open spec fn steps_left<T, Q, O, E, F>(step: StepView<T, Q, O, E, F>) -> int {
    match step {
        StepView::ReadReceipt(upgrade) => 5 * (upgrade.names.len() - upgrade.next) + 4,
        StepView::FindEnvironment(upgrade) => 5 * (upgrade.names.len() - upgrade.next) + 3,
        StepView::UpdateEnvironment(upgrade, _) => 5 * (upgrade.names.len() - upgrade.next) + 2,
        StepView::RemoveResources(upgrade) => 5 * (upgrade.names.len() - upgrade.next) + 1,
        StepView::InstallResources(upgrade) => 5 * (upgrade.names.len() - upgrade.next),
        StepView::Exit(_, _) => 0,
        StepView::Fail(_) => 0,
    }
}

/// Whether a step has a tool in work, or is the end.
pub open spec fn in_work<T, Q, O, E, F>(step: StepView<T, Q, O, E, F>) -> bool {
    match step {
        StepView::ReadReceipt(upgrade) => upgrade.pending(),
        StepView::FindEnvironment(upgrade) => upgrade.pending(),
        StepView::UpdateEnvironment(upgrade, _) => upgrade.pending(),
        StepView::RemoveResources(upgrade) => upgrade.pending(),
        StepView::InstallResources(upgrade) => upgrade.pending(),
        StepView::Exit(_, _) => true,
        StepView::Fail(_) => true,
    }
}

/// The step after a step, with the answer for the tool in work.
pub open spec fn step_after<T, Q, O, E, F>(
    step: StepView<T, Q, O, E, F>,
    answer: Answer<T, Q, O, E, F>,
) -> StepView<T, Q, O, E, F> {
    match step {
        StepView::ReadReceipt(upgrade) => after_receipt(upgrade, answer.receipt),
        StepView::FindEnvironment(upgrade) => after_environment(
            upgrade,
            answer.environment,
            answer.options,
        ),
        StepView::UpdateEnvironment(upgrade, _) => after_update(upgrade, answer.update),
        StepView::RemoveResources(upgrade) => after_removal(upgrade),
        StepView::InstallResources(upgrade) => after_installation(upgrade, answer.install),
        StepView::Exit(_, _) => step,
        StepView::Fail(_) => step,
    }
}

/// Follows an upgrade from a step to its end, with one answer for each tool.
pub open spec fn run<T, Q, O, E, F>(
    step: StepView<T, Q, O, E, F>,
    answers: Seq<Answer<T, Q, O, E, F>>,
) -> Outcome<T, Q, O, E, F>
    decreases steps_left(step),
    when in_work(step)
{
    match step {
        StepView::Exit(status, message) => Outcome {
            acts: Seq::empty(),
            end: End::Exit(status, message),
        },
        StepView::Fail(error) => Outcome { acts: Seq::empty(), end: End::Fail(error) },
        StepView::ReadReceipt(upgrade) => run(step_after(step, answers[upgrade.next]), answers),
        StepView::FindEnvironment(upgrade) => run(
            step_after(step, answers[upgrade.next]),
            answers,
        ),
        StepView::UpdateEnvironment(upgrade, environment) => {
            let rest = run(step_after(step, answers[upgrade.next]), answers);
            let act = Act::Update(upgrade.name(), upgrade.known, environment);
            Outcome { acts: seq![act] + rest.acts, end: rest.end }
        },
        StepView::RemoveResources(upgrade) => {
            let rest = run(step_after(step, answers[upgrade.next]), answers);
            let act = Act::Remove(upgrade.name(), upgrade.known);
            Outcome { acts: seq![act] + rest.acts, end: rest.end }
        },
        StepView::InstallResources(upgrade) => {
            let rest = run(step_after(step, answers[upgrade.next]), answers);
            let act = Act::Install(upgrade.name(), upgrade.known);
            Outcome { acts: seq![act] + rest.acts, end: rest.end }
        },
    }
}

/// Whether the settings of the command line and of the user's configuration that a step goes by,
/// where it is not the end, are the given ones.
pub open spec fn goes_by<T, Q, O, E, F>(
    step: StepView<T, Q, O, E, F>,
    args: O,
    filesystem: O,
) -> bool {
    match step {
        StepView::ReadReceipt(upgrade) => upgrade.args == args && upgrade.filesystem == filesystem,
        StepView::FindEnvironment(upgrade) => upgrade.args == args && upgrade.filesystem
            == filesystem,
        StepView::UpdateEnvironment(upgrade, _) => upgrade.args == args && upgrade.filesystem
            == filesystem,
        StepView::RemoveResources(upgrade) => upgrade.args == args && upgrade.filesystem
            == filesystem,
        StepView::InstallResources(upgrade) => upgrade.args == args && upgrade.filesystem
            == filesystem,
        StepView::Exit(_, _) => true,
        StepView::Fail(_) => true,
    }
}

/// No tool changes the settings that the next tool goes by.
pub proof fn settings_are_kept<T, Q, O, E, F>(
    step: StepView<T, Q, O, E, F>,
    answer: Answer<T, Q, O, E, F>,
    args: O,
    filesystem: O,
)
    requires
        goes_by(step, args, filesystem),
    ensures
        goes_by(step_after(step, answer), args, filesystem),
{
}

/// Whether any package was changed for the tools from `from` to `to`.
pub open spec fn any_changed<T, Q, O, E, F>(
    answers: Seq<Answer<T, Q, O, E, F>>,
    from: int,
    to: int,
) -> bool {
    exists|i: int| from <= i < to && (#[trigger] answers[i]).changes()
}

/// The update of a tool: with its own receipt, the settings that count for it, and the environment
/// that was found for it.
pub open spec fn update_of<T, Q, O, E, F>(
    name: Seq<char>,
    answer: Answer<T, Q, O, E, F>,
) -> Act<T, Q, O, E> {
    Act::Update(name, answer.plan(), answer.environment->Ok_0->Some_0)
}

/// What is done to a tool whose own package was changed: the old resources are removed, and then
/// the new ones are installed, by the plan of the update, from the updated environment, and over
/// files that are in the way.
pub open spec fn renewal_of<T, Q, O, E, F>(
    name: Seq<char>,
    answer: Answer<T, Q, O, E, F>,
) -> Seq<Act<T, Q, O, E>> {
    let plan = answer.plan();
    let environment = answer.update->Ok_0.0;
    seq![
        Act::Remove(name, Changed { plan, environment }),
        Act::Install(name, Installation { plan, environment, force: true }),
    ]
}

/// All that is done to a tool.
pub open spec fn acts_of<T, Q, O, E, F>(
    name: Seq<char>,
    answer: Answer<T, Q, O, E, F>,
) -> Seq<Act<T, Q, O, E>> {
    if !answer.usable() {
        Seq::empty()
    } else if answer.changes_tool(name) {
        seq![update_of(name, answer)] + renewal_of(name, answer)
    } else {
        seq![update_of(name, answer)]
    }
}

/// All that is done to the tools from `from` to `to`, in order.
pub open spec fn acts_between<T, Q, O, E, F>(
    names: Seq<Seq<char>>,
    answers: Seq<Answer<T, Q, O, E, F>>,
    from: int,
    to: int,
) -> Seq<Act<T, Q, O, E>>
    decreases to - from,
{
    if from >= to {
        Seq::empty()
    } else {
        acts_of(names[from], answers[from]) + acts_between(names, answers, from + 1, to)
    }
}

/// The message for a tool that cannot be upgraded.
pub open spec fn refusal<T, Q, O, E, F>(
    name: Seq<char>,
    answer: Answer<T, Q, O, E, F>,
) -> Seq<char> {
    match answer.receipt {
        Ok(None) => not_installed_text(name),
        Err(_) => reinstall_text(name, "receipt"@),
        Ok(Some(_)) => match answer.environment {
            Ok(None) => not_installed_text(name),
            _ => reinstall_text(name, "environment"@),
        },
    }
}

/// How an upgrade ends at a tool that it does not get through.
pub open spec fn end_at<T, Q, O, E, F>(name: Seq<char>, answer: Answer<T, Q, O, E, F>) -> End<F> {
    if !answer.usable() {
        End::Exit(ExitStatus::Failure, Some(refusal(name, answer)))
    } else {
        match answer.update {
            Err(error) => End::Fail(error),
            Ok(_) => End::Fail(answer.install->Err_0),
        }
    }
}

/// What an upgrade comes to that gets through its tools up to the one at `stop`.
pub open spec fn expected<T, Q, O, E, F>(
    upgrade: UpgradeView<O, ()>,
    answers: Seq<Answer<T, Q, O, E, F>>,
    stop: int,
) -> Outcome<T, Q, O, E, F> {
    let names = upgrade.names;
    let before = acts_between(names, answers, upgrade.next, stop);
    if stop < names.len() {
        Outcome {
            acts: before + acts_of(names[stop], answers[stop]),
            end: end_at(names[stop], answers[stop]),
        }
    } else {
        let message = if upgrade.did_upgrade || any_changed(answers, upgrade.next, stop) {
            None
        } else {
            Some("Nothing to upgrade"@)
        };
        Outcome { acts: before, end: End::Exit(ExitStatus::Success, message) }
    }
}

/// What one tool that can be upgraded adds to an upgrade up to its update.
proof fn lemma_up_to_update<T, Q, O, E, F>(
    upgrade: UpgradeView<O, ()>,
    answers: Seq<Answer<T, Q, O, E, F>>,
)
    requires
        upgrade.pending(),
        answers[upgrade.next].usable(),
    ensures
        ({
            let answer = answers[upgrade.next];
            let rest = run(
                after_update::<T, Q, O, E, F>(upgrade.knowing(answer.plan()), answer.update),
                answers,
            );
            run(take_up(upgrade), answers) == (Outcome {
                acts: seq![update_of(upgrade.name(), answer)] + rest.acts,
                end: rest.end,
            })
        }),
{
    let answer = answers[upgrade.next];
    let first = take_up::<T, Q, O, E, F>(upgrade);
    let known = upgrade.knowing(answer.own_receipt());
    let found = StepView::<T, Q, O, E, F>::FindEnvironment(known);
    let planned = upgrade.knowing(answer.plan());
    let ready = StepView::<T, Q, O, E, F>::UpdateEnvironment(
        planned,
        answer.environment->Ok_0->Some_0,
    );
    assert(step_after(first, answer) == found);
    assert(step_after(found, answer) == ready);
    assert(run(first, answers) == run(found, answers));
    assert(run(found, answers) == run(ready, answers));
}

/// What a tool that was changed itself adds to an upgrade behind its update.
proof fn lemma_renewal<T, Q, O, E, F>(
    upgrade: UpgradeView<O, Changed<T, Q, O, E>>,
    answers: Seq<Answer<T, Q, O, E, F>>,
)
    requires
        upgrade.pending(),
        answers[upgrade.next].update matches Ok(done) && upgrade.known == (Changed {
            plan: answers[upgrade.next].plan(),
            environment: done.0,
        }),
    ensures
        ({
            let answer = answers[upgrade.next];
            let rest = match answer.install {
                Err(error) => Outcome { acts: Seq::empty(), end: End::Fail(error) },
                Ok(_) => run(take_up(upgrade.advanced(upgrade.did_upgrade)), answers),
            };
            run(StepView::<T, Q, O, E, F>::RemoveResources(upgrade), answers) == (Outcome {
                acts: renewal_of(upgrade.name(), answer) + rest.acts,
                end: rest.end,
            })
        }),
{
    let answer = answers[upgrade.next];
    let first = StepView::<T, Q, O, E, F>::RemoveResources(upgrade);
    let next = upgrade.knowing(
        Installation {
            plan: upgrade.known.plan,
            environment: upgrade.known.environment,
            force: true,
        },
    );
    let second = StepView::<T, Q, O, E, F>::InstallResources(next);
    assert(step_after(first, answer) == second);
    let third = step_after(second, answer);
    assert(third == after_installation(next, answer.install));
    assert(answer.install is Ok ==> next.advanced(next.did_upgrade) == upgrade.advanced(
        upgrade.did_upgrade,
    ));
    let rest = run(third, answers);
    let remove = Act::<T, Q, O, E>::Remove(upgrade.name(), upgrade.known);
    let install = Act::Install(upgrade.name(), next.known);
    assert(run(second, answers) == (Outcome {
        acts: seq![install] + rest.acts,
        end: rest.end,
    }));
    assert(seq![remove] + (seq![install] + rest.acts) == renewal_of(upgrade.name(), answer)
        + rest.acts);
}

/// What one tool makes of an upgrade.
proof fn lemma_one_tool<T, Q, O, E, F>(
    upgrade: UpgradeView<O, ()>,
    answers: Seq<Answer<T, Q, O, E, F>>,
)
    requires
        upgrade.pending(),
    ensures
        ({
            let name = upgrade.name();
            let answer = answers[upgrade.next];
            let rest = if answer.passes(name) {
                run(take_up(upgrade.advanced(upgrade.did_upgrade || answer.changes())), answers)
            } else {
                Outcome { acts: Seq::empty(), end: end_at(name, answer) }
            };
            run(take_up(upgrade), answers) == (Outcome {
                acts: acts_of(name, answer) + rest.acts,
                end: rest.end,
            })
        }),
{
    let name = upgrade.name();
    let answer = answers[upgrade.next];
    let first = take_up::<T, Q, O, E, F>(upgrade);
    let nothing = Seq::<Act<T, Q, O, E>>::empty();
    if !answer.usable() {
        let second = step_after(first, answer);
        assert(run(first, answers) == run(second, answers));
        if answer.receipt matches Ok(Some(_)) {
            let third = step_after(second, answer);
            assert(run(second, answers) == run(third, answers));
        }
        assert(acts_of(name, answer) + nothing == nothing);
    } else {
        lemma_up_to_update(upgrade, answers);
        let planned = upgrade.knowing(answer.plan());
        let done = after_update::<T, Q, O, E, F>(planned, answer.update);
        let did_upgrade = upgrade.did_upgrade || answer.changes();
        let update = seq![update_of(name, answer)];
        if answer.changes_tool(name) {
            let changed = UpgradeView {
                did_upgrade,
                ..planned.knowing(
                    Changed { plan: answer.plan(), environment: answer.update->Ok_0.0 },
                )
            };
            assert(done == StepView::<T, Q, O, E, F>::RemoveResources(changed));
            assert(changed.advanced(did_upgrade) == upgrade.advanced(did_upgrade));
            lemma_renewal(changed, answers);
            let last = if answer.install is Ok {
                run(take_up(upgrade.advanced(did_upgrade)), answers).acts
            } else {
                nothing
            };
            assert(update + (renewal_of(name, answer) + last) == acts_of(name, answer) + last);
        } else if answer.update is Ok {
            assert(planned.advanced(did_upgrade) == upgrade.advanced(did_upgrade));
        }
    }
}

/// An upgrade goes through its tools in order, up to the first that it does not get through, where
/// there is one: a tool that is not usable, or of which the update or the installation fails. It
/// then ends with the message for that tool and in failure, or with the error, and leaves all
/// behind it alone; what was done to the tools before it stays. Otherwise it ends in success, and
/// says that there was nothing to upgrade exactly when no package was changed. Of exactly those
/// tools that were changed themselves the resources are removed and then installed again. What is
/// done to a tool is handed that tool's own receipt and environment, and the settings that its own
/// answer holds.
pub proof fn upgrade_comes_to<T, Q, O, E, F>(
    upgrade: UpgradeView<O, ()>,
    answers: Seq<Answer<T, Q, O, E, F>>,
    stop: int,
)
    requires
        0 <= upgrade.next <= stop <= upgrade.names.len(),
        answers.len() == upgrade.names.len(),
        forall|i: int|
            upgrade.next <= i < stop ==> (#[trigger] answers[i]).passes(upgrade.names[i]),
        stop < upgrade.names.len() ==> !answers[stop].passes(upgrade.names[stop]),
    ensures
        run(take_up(upgrade), answers) == expected(upgrade, answers, stop),
    decreases stop - upgrade.next,
{
    let names = upgrade.names;
    let at = upgrade.next;
    let nothing = Seq::<Act<T, Q, O, E>>::empty();
    if upgrade.pending() {
        lemma_one_tool(upgrade, answers);
    }
    if at == stop {
        assert(acts_between(names, answers, at, stop) == nothing);
        assert(!any_changed(answers, at, stop));
        if stop < names.len() {
            let acts = acts_of(names[stop], answers[stop]);
            assert(acts + nothing == acts);
            assert(nothing + acts == acts);
        }
    } else {
        let answer = answers[at];
        assert(answer.passes(names[at]));
        let next = upgrade.advanced(upgrade.did_upgrade || answer.changes());
        upgrade_comes_to(next, answers, stop);
        assert(any_changed(answers, at, stop) <==> answer.changes() || any_changed(
            answers,
            at + 1,
            stop,
        )) by {
            if any_changed(answers, at, stop) {
                let i = choose|i: int| at <= i < stop && (#[trigger] answers[i]).changes();
                assert(i > at ==> answers[i].changes());
            }
            if any_changed(answers, at + 1, stop) {
                let i = choose|i: int| at + 1 <= i < stop && (#[trigger] answers[i]).changes();
                assert(answers[i].changes());
            }
        }
        let first = acts_of(names[at], answer);
        let middle = acts_between(names, answers, at + 1, stop);
        if stop < names.len() {
            let last = acts_of(names[stop], answers[stop]);
            assert(first + (middle + last) == first + middle + last);
        }
    }
}

/// Every upgrade either gets through all its tools or has a first tool that it does not get
/// through.
pub proof fn upgrade_has_a_stop<T, Q, O, E, F>(
    upgrade: UpgradeView<O, ()>,
    answers: Seq<Answer<T, Q, O, E, F>>,
) -> (stop: int)
    requires
        0 <= upgrade.next <= upgrade.names.len(),
        answers.len() == upgrade.names.len(),
    ensures
        upgrade.next <= stop <= upgrade.names.len(),
        forall|i: int|
            upgrade.next <= i < stop ==> (#[trigger] answers[i]).passes(upgrade.names[i]),
        stop < upgrade.names.len() ==> !answers[stop].passes(upgrade.names[stop]),
        run(take_up(upgrade), answers) == expected(upgrade, answers, stop),
    decreases upgrade.names.len() - upgrade.next,
{
    if upgrade.next == upgrade.names.len() || !answers[upgrade.next].passes(upgrade.name()) {
        upgrade_comes_to(upgrade, answers, upgrade.next);
        upgrade.next
    } else {
        let next = UpgradeView { next: upgrade.next + 1, ..upgrade };
        let stop = upgrade_has_a_stop(next, answers);
        assert forall|i: int| upgrade.next <= i < stop implies (#[trigger] answers[i]).passes(
            upgrade.names[i],
        ) by {}
        upgrade_comes_to(upgrade, answers, stop);
        stop
    }
}

/// Where the update of a tool fails, the upgrade ends with that error. The updates are those of the
/// tools up to this one, and nothing of this one or of a later one is removed or installed.
pub proof fn failed_update_ends<T, Q, O, E, F>(
    upgrade: UpgradeView<O, ()>,
    answers: Seq<Answer<T, Q, O, E, F>>,
    at: int,
    error: F,
)
    requires
        0 <= upgrade.next <= at < upgrade.names.len(),
        answers.len() == upgrade.names.len(),
        forall|i: int| upgrade.next <= i < at ==> (#[trigger] answers[i]).passes(upgrade.names[i]),
        answers[at].usable(),
        answers[at].update == Err::<(E, Seq<Seq<char>>), F>(error),
    ensures
        run(take_up(upgrade), answers) == (Outcome {
            acts: acts_between(upgrade.names, answers, upgrade.next, at).push(
                update_of(upgrade.names[at], answers[at]),
            ),
            end: End::Fail(error),
        }),
{
    upgrade_comes_to(upgrade, answers, at);
    let before = acts_between(upgrade.names, answers, upgrade.next, at);
    let update = update_of(upgrade.names[at], answers[at]);
    assert(before + seq![update] == before.push(update));
}

/// Where the installation of the resources of a tool fails, the upgrade ends with that error, once
/// the tool was updated and its old resources were removed; no later tool is touched.
pub proof fn failed_installation_ends<T, Q, O, E, F>(
    upgrade: UpgradeView<O, ()>,
    answers: Seq<Answer<T, Q, O, E, F>>,
    at: int,
    error: F,
)
    requires
        0 <= upgrade.next <= at < upgrade.names.len(),
        answers.len() == upgrade.names.len(),
        forall|i: int| upgrade.next <= i < at ==> (#[trigger] answers[i]).passes(upgrade.names[i]),
        answers[at].usable(),
        answers[at].changes_tool(upgrade.names[at]),
        answers[at].install == Err::<(), F>(error),
    ensures
        run(take_up(upgrade), answers) == (Outcome {
            acts: acts_between(upgrade.names, answers, upgrade.next, at) + seq![
                update_of(upgrade.names[at], answers[at]),
            ] + renewal_of(upgrade.names[at], answers[at]),
            end: End::Fail(error),
        }),
{
    upgrade_comes_to(upgrade, answers, at);
    let before = acts_between(upgrade.names, answers, upgrade.next, at);
    let update = seq![update_of(upgrade.names[at], answers[at])];
    let renewal = renewal_of(upgrade.names[at], answers[at]);
    assert(before + (update + renewal) == before + update + renewal);
}

/// Whether what is done goes by the plan of the tool at `i`, with the settings that count for it:
/// those of the command line before those of its own receipt, and both before those of the user's
/// configuration.
pub open spec fn is_of_tool<T, Q, O: Combine + Clone, E, F>(
    upgrade: UpgradeView<O, ()>,
    answers: Seq<Answer<T, Q, O, E, F>>,
    act: Act<T, Q, O, E>,
    i: int,
) -> bool {
    &&& upgrade.next <= i < upgrade.names.len()
    &&& answers[i].usable()
    &&& act.name() == upgrade.names[i]
    &&& act.plan() == answers[i].plan()
    &&& act matches Act::Update(_, _, environment) ==> environment
        == answers[i].environment->Ok_0->Some_0
    &&& counts_for(upgrade.knowing(answers[i].own_receipt()), act.plan().options)
}

/// Whether what is done is done so to one of the tools.
pub open spec fn is_of_some_tool<T, Q, O: Combine + Clone, E, F>(
    upgrade: UpgradeView<O, ()>,
    answers: Seq<Answer<T, Q, O, E, F>>,
    act: Act<T, Q, O, E>,
) -> bool {
    exists|i: int| is_of_tool(upgrade, answers, act, i)
}

/// Whether all that is done is done so to one of the tools.
pub open spec fn are_of_tools<T, Q, O: Combine + Clone, E, F>(
    upgrade: UpgradeView<O, ()>,
    answers: Seq<Answer<T, Q, O, E, F>>,
    acts: Seq<Act<T, Q, O, E>>,
) -> bool {
    forall|j: int| 0 <= j < acts.len() ==> is_of_some_tool(upgrade, answers, #[trigger] acts[j])
}

/// Whether the settings in the answers are those that count for each tool.
pub open spec fn settings_count<T, Q, O: Combine + Clone, E, F>(
    upgrade: UpgradeView<O, ()>,
    answers: Seq<Answer<T, Q, O, E, F>>,
) -> bool {
    forall|i: int|
        upgrade.next <= i < upgrade.names.len() && (#[trigger] answers[i]).usable() ==> counts_for(
            upgrade.knowing(answers[i].own_receipt()),
            answers[i].options,
        )
}

proof fn lemma_acts_are_of_tools<T, Q, O: Combine + Clone, E, F>(
    upgrade: UpgradeView<O, ()>,
    answers: Seq<Answer<T, Q, O, E, F>>,
    from: int,
    to: int,
)
    requires
        0 <= upgrade.next <= from,
        to <= upgrade.names.len(),
        settings_count(upgrade, answers),
    ensures
        are_of_tools(upgrade, answers, acts_between(upgrade.names, answers, from, to)),
    decreases to - from,
{
    if from < to {
        let acts = acts_between(upgrade.names, answers, from, to);
        let first = acts_of(upgrade.names[from], answers[from]);
        let rest = acts_between(upgrade.names, answers, from + 1, to);
        lemma_acts_are_of_tools(upgrade, answers, from + 1, to);
        assert forall|j: int| 0 <= j < acts.len() implies is_of_some_tool(
            upgrade,
            answers,
            #[trigger] acts[j],
        ) by {
            if j < first.len() {
                assert(answers[from].usable());
                assert(is_of_tool(upgrade, answers, acts[j], from));
            } else {
                assert(acts[j] == rest[j - first.len()]);
            }
        }
    }
}

/// All that is done in an upgrade goes by the settings that count for the tool it is done to: those
/// of the command line, before those of that tool's own receipt, before those of the user's
/// configuration. The settings of no other tool reach it.
pub proof fn own_settings_count<T, Q, O: Combine + Clone, E, F>(
    upgrade: UpgradeView<O, ()>,
    answers: Seq<Answer<T, Q, O, E, F>>,
)
    requires
        0 <= upgrade.next <= upgrade.names.len(),
        answers.len() == upgrade.names.len(),
        settings_count(upgrade, answers),
    ensures
        are_of_tools(upgrade, answers, run(take_up(upgrade), answers).acts),
{
    let stop = upgrade_has_a_stop(upgrade, answers);
    let end = if stop < upgrade.names.len() {
        stop + 1
    } else {
        stop
    };
    lemma_acts_behind(upgrade.names, answers, upgrade.next, stop);
    assert(run(take_up(upgrade), answers).acts == acts_between(
        upgrade.names,
        answers,
        upgrade.next,
        end,
    ));
    lemma_acts_are_of_tools(upgrade, answers, upgrade.next, end);
}

/// What is done to one more tool comes behind all that is done before it.
proof fn lemma_acts_behind<T, Q, O, E, F>(
    names: Seq<Seq<char>>,
    answers: Seq<Answer<T, Q, O, E, F>>,
    from: int,
    to: int,
)
    requires
        from <= to,
    ensures
        acts_between(names, answers, from, to + 1) == acts_between(names, answers, from, to)
            + acts_of(names[to], answers[to]),
    decreases to - from,
{
    let last = acts_of(names[to], answers[to]);
    let nothing = Seq::<Act<T, Q, O, E>>::empty();
    if from == to {
        assert(acts_between(names, answers, to + 1, to + 1) == nothing);
        assert(last + nothing == nothing + last);
    } else {
        lemma_acts_behind(names, answers, from + 1, to);
        let first = acts_of(names[from], answers[from]);
        let middle = acts_between(names, answers, from + 1, to);
        assert(first + (middle + last) == first + middle + last);
    }
}

} // verus!
