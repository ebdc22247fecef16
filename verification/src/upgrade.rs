//! The course of an upgrade of installed tools.
//!
//! An upgrade goes from step to step. Each step says what is to be done next; the answer, handed
//! to the [`Upgrade`] that the step carries, gives the step after it.

use vstd::prelude::*;

use owo_colors::OwoColorize;

use crate::error::Error;
use crate::name::PackageName;
use crate::order::{is_name_set, name_set, name_texts, sorted_names};

verus! {

/// How a command ends.
#[derive(Debug, Clone, Copy, PartialEq, Eq, Structural)]
pub enum ExitStatus {
    Success,
    Failure,
}

/// Settings of which some can go before others.
pub trait Combine: Sized {
    /// The settings of both, those of `self` before those of `other`.
    fn combine(self, other: Self) -> Self;
}

/// A setting of one value, where it is set.
impl<V> Combine for Option<V> {
    fn combine(self, other: Self) -> (r: Self)
        ensures
            r == (if self is Some {
                self
            } else {
                other
            }),
    {
        match self {
            Some(value) => Some(value),
            None => other,
        }
    }
}

/// The receipt of a tool, as an upgrade reads it.
#[derive(Debug)]
pub struct Receipt<T, Q, O> {
    /// The tool that the receipt describes.
    pub tool: T,
    /// What the tool is installed from.
    pub requirements: Q,
    /// The settings that the tool was installed with.
    pub options: O,
}

/// How a tool is to be upgraded.
#[derive(Debug)]
pub struct Plan<T, Q, O> {
    /// The tool that the receipt describes.
    pub tool: T,
    /// What the tool is installed from.
    pub requirements: Q,
    /// The settings that count for this tool.
    pub options: O,
}

/// A tool that was changed itself: its plan, and what its environment became.
#[derive(Debug)]
pub struct Changed<T, Q, O, E> {
    pub plan: Plan<T, Q, O>,
    pub environment: E,
}

/// An installation of the entry points and man pages of a tool.
#[derive(Debug)]
pub struct Installation<T, Q, O, E> {
    pub plan: Plan<T, Q, O>,
    pub environment: E,
    /// Whether files that are in the way are replaced.
    pub force: bool,
}

/// An upgrade that waits for an answer about a tool, with what is known of that tool.
#[derive(Debug)]
pub struct Upgrade<O, S> {
    names: Vec<PackageName>,
    next: usize,
    did_upgrade: bool,
    args: O,
    filesystem: O,
    known: S,
}

/// The content of an [`Upgrade`]: the tools, the place of the one in work, whether any package was
/// changed so far, the settings of the command line and of the user's configuration, and what is
/// known of the tool in work.
pub struct UpgradeView<O, S> {
    pub names: Seq<Seq<char>>,
    pub next: int,
    pub did_upgrade: bool,
    pub args: O,
    pub filesystem: O,
    pub known: S,
}

impl<O, S> View for Upgrade<O, S> {
    type V = UpgradeView<O, S>;

    closed spec fn view(&self) -> UpgradeView<O, S> {
        UpgradeView {
            names: name_texts(self.names@),
            next: self.next as int,
            did_upgrade: self.did_upgrade,
            args: self.args,
            filesystem: self.filesystem,
            known: self.known,
        }
    }
}

/// What is to be done next in an upgrade.
#[derive(Debug)]
pub enum UpgradeStep<T, Q, O, E, F> {
    /// Read the receipt of the tool.
    ReadReceipt(Upgrade<O, ()>),
    /// Look for the environment of the tool.
    FindEnvironment(Upgrade<O, Receipt<T, Q, O>>),
    /// Update the environment to the requirements, with the settings.
    UpdateEnvironment(Upgrade<O, Plan<T, Q, O>>, E),
    /// Remove the entry points and man pages that the receipt of the tool names.
    RemoveResources(Upgrade<O, Changed<T, Q, O, E>>),
    /// Install the entry points and man pages of the environment, with the settings.
    InstallResources(Upgrade<O, Installation<T, Q, O, E>>),
    /// Print the message, if there is one, and end.
    Exit(ExitStatus, Option<String>),
    /// End with the error.
    Fail(F),
}

/// The content of an [`UpgradeStep`].
pub enum StepView<T, Q, O, E, F> {
    ReadReceipt(UpgradeView<O, ()>),
    FindEnvironment(UpgradeView<O, Receipt<T, Q, O>>),
    UpdateEnvironment(UpgradeView<O, Plan<T, Q, O>>, E),
    RemoveResources(UpgradeView<O, Changed<T, Q, O, E>>),
    InstallResources(UpgradeView<O, Installation<T, Q, O, E>>),
    Exit(ExitStatus, Option<Seq<char>>),
    Fail(F),
}

impl<T, Q, O, E, F> View for UpgradeStep<T, Q, O, E, F> {
    type V = StepView<T, Q, O, E, F>;

    open spec fn view(&self) -> StepView<T, Q, O, E, F> {
        match self {
            UpgradeStep::ReadReceipt(upgrade) => StepView::ReadReceipt(upgrade@),
            UpgradeStep::FindEnvironment(upgrade) => StepView::FindEnvironment(upgrade@),
            UpgradeStep::UpdateEnvironment(upgrade, environment) => StepView::UpdateEnvironment(
                upgrade@,
                *environment,
            ),
            UpgradeStep::RemoveResources(upgrade) => StepView::RemoveResources(upgrade@),
            UpgradeStep::InstallResources(upgrade) => StepView::InstallResources(upgrade@),
            UpgradeStep::Exit(status, message) => StepView::Exit(
                *status,
                match message {
                    Some(text) => Some(text@),
                    None => None,
                },
            ),
            UpgradeStep::Fail(error) => StepView::Fail(*error),
        }
    }
}

/// A text in cyan, for a terminal.
pub open spec fn cyan_text(text: Seq<char>) -> Seq<char> {
    "\x1b[36m"@ + text + "\x1b[39m"@
}

/// A text in green, for a terminal.
pub open spec fn green_text(text: Seq<char>) -> Seq<char> {
    "\x1b[32m"@ + text + "\x1b[39m"@
}

/// `OwoColorize::cyan`, displayed: the text between the escape sequences that set the foreground
/// to cyan and back to the default.
#[verifier::external_body]
fn cyan(text: &str) -> (r: String)
    ensures
        r@ == cyan_text(text@),
{
    text.cyan().to_string()
}

/// `OwoColorize::green`, displayed: the text between the escape sequences that set the foreground
/// to green and back to the default.
#[verifier::external_body]
fn green(text: &str) -> (r: String)
    ensures
        r@ == green_text(text@),
{
    text.green().to_string()
}

/// The message for a tool that is not there.
pub open spec fn not_installed_text(name: Seq<char>) -> Seq<char> {
    "`"@ + cyan_text(name) + "` is not installed; run `"@ + green_text("uv tool install "@ + name)
        + "` to install"@
}

/// The message for a tool of which a part is unusable.
pub open spec fn reinstall_text(name: Seq<char>, part: Seq<char>) -> Seq<char> {
    "`"@ + cyan_text(name) + "` is missing a valid "@ + part + "; run `"@ + green_text(
        "uv tool install --force "@ + name,
    ) + "` to reinstall"@
}

fn not_installed(name: &str) -> (r: String)
    ensures
        r@ == not_installed_text(name@),
{
    let command: String = "uv tool install ".to_owned().concat(name);
    "`".to_owned().concat(cyan(name).as_str()).concat("` is not installed; run `").concat(
        green(command.as_str()).as_str(),
    ).concat("` to install")
}

fn reinstall(name: &str, part: &str) -> (r: String)
    ensures
        r@ == reinstall_text(name@, part@),
{
    let command: String = "uv tool install --force ".to_owned().concat(name);
    "`".to_owned().concat(cyan(name).as_str()).concat("` is missing a valid ").concat(part).concat(
        "; run `",
    ).concat(green(command.as_str()).as_str()).concat("` to reinstall")
}

impl<O, S> UpgradeView<O, S> {
    /// The tool in work.
    pub open spec fn name(self) -> Seq<char> {
        self.names[self.next]
    }

    /// Whether there is a tool in work.
    pub open spec fn pending(self) -> bool {
        0 <= self.next < self.names.len()
    }

    /// The same upgrade, with something else known of the tool in work.
    pub open spec fn knowing<R>(self, known: R) -> UpgradeView<O, R> {
        UpgradeView {
            names: self.names,
            next: self.next,
            did_upgrade: self.did_upgrade,
            args: self.args,
            filesystem: self.filesystem,
            known,
        }
    }

    /// The upgrade with the next tool in work, of which nothing is known.
    pub open spec fn advanced(self, did_upgrade: bool) -> UpgradeView<O, ()> {
        UpgradeView { next: self.next + 1, did_upgrade, ..self.knowing(()) }
    }
}

/// The step that takes up the next tool, or ends the upgrade when none is left.
pub open spec fn take_up<T, Q, O, E, F>(upgrade: UpgradeView<O, ()>) -> StepView<T, Q, O, E, F> {
    if upgrade.pending() {
        StepView::ReadReceipt(upgrade)
    } else if upgrade.did_upgrade {
        StepView::Exit(ExitStatus::Success, None)
    } else {
        StepView::Exit(ExitStatus::Success, Some("Nothing to upgrade"@))
    }
}

/// The step after the receipt was looked for. An error makes the receipt unusable.
pub open spec fn after_receipt<T, Q, O, E, F>(
    upgrade: UpgradeView<O, ()>,
    found: Result<Option<Receipt<T, Q, O>>, Error>,
) -> StepView<T, Q, O, E, F> {
    match found {
        Ok(Some(receipt)) => StepView::FindEnvironment(upgrade.knowing(receipt)),
        Ok(None) => StepView::Exit(ExitStatus::Failure, Some(not_installed_text(upgrade.name()))),
        Err(_) => StepView::Exit(
            ExitStatus::Failure,
            Some(reinstall_text(upgrade.name(), "receipt"@)),
        ),
    }
}

/// Whether `options` come of putting `args` before the settings of a receipt, and those before
/// `filesystem`.
pub open spec fn preferring<O: Combine>(args: O, receipt: O, filesystem: O, options: O) -> bool {
    exists|rest: O| #[trigger]
        call_ensures(O::combine, (receipt, filesystem), rest) && call_ensures(
            O::combine,
            (args, rest),
            options,
        )
}

/// Whether `options` are those that count for a tool: copies of the settings of the command line
/// and of the user's configuration, with those of the tool's own receipt between them.
pub open spec fn counts_for<T, Q, O: Combine + Clone>(
    upgrade: UpgradeView<O, Receipt<T, Q, O>>,
    options: O,
) -> bool {
    exists|args: O, filesystem: O|
        cloned(upgrade.args, args) && cloned(upgrade.filesystem, filesystem)
            && #[trigger] preferring(args, upgrade.known.options, filesystem, options)
}

/// A setting of one value is that of the command line where it is set there, else that of the
/// receipt where it is set there, else that of the user's configuration.
pub proof fn first_set_counts<V>(
    args: Option<V>,
    receipt: Option<V>,
    filesystem: Option<V>,
    options: Option<V>,
)
    requires
        preferring(args, receipt, filesystem, options),
    ensures
        options == (if args is Some {
            args
        } else if receipt is Some {
            receipt
        } else {
            filesystem
        }),
{
}

/// The plan for a tool, by its receipt and the settings that count for it.
pub open spec fn plan_of<T, Q, O>(receipt: Receipt<T, Q, O>, options: O) -> Plan<T, Q, O> {
    Plan { tool: receipt.tool, requirements: receipt.requirements, options }
}

/// The step after the environment was looked for. An error makes the environment unusable.
pub open spec fn after_environment<T, Q, O, E, F>(
    upgrade: UpgradeView<O, Receipt<T, Q, O>>,
    found: Result<Option<E>, Error>,
    options: O,
) -> StepView<T, Q, O, E, F> {
    match found {
        Ok(Some(environment)) => StepView::UpdateEnvironment(
            upgrade.knowing(plan_of(upgrade.known, options)),
            environment,
        ),
        Ok(None) => StepView::Exit(ExitStatus::Failure, Some(not_installed_text(upgrade.name()))),
        Err(_) => StepView::Exit(
            ExitStatus::Failure,
            Some(reinstall_text(upgrade.name(), "environment"@)),
        ),
    }
}

/// What an update came to, in texts: what the environment became and the packages that were
/// changed, or the error.
pub open spec fn update_view<E, F>(outcome: Result<(E, Vec<PackageName>), F>) -> Result<
    (E, Seq<Seq<char>>),
    F,
> {
    match outcome {
        Ok(done) => Ok((done.0, name_texts(done.1@))),
        Err(error) => Err(error),
    }
}

/// The step after the environment was updated. An error ends the upgrade. The resources are
/// renewed where the tool itself was changed.
pub open spec fn after_update<T, Q, O, E, F>(
    upgrade: UpgradeView<O, Plan<T, Q, O>>,
    outcome: Result<(E, Seq<Seq<char>>), F>,
) -> StepView<T, Q, O, E, F> {
    match outcome {
        Err(error) => StepView::Fail(error),
        Ok((environment, changelog)) => {
            let did_upgrade = upgrade.did_upgrade || changelog.len() > 0;
            if changelog.contains(upgrade.name()) {
                StepView::RemoveResources(
                    UpgradeView {
                        did_upgrade,
                        ..upgrade.knowing(Changed { plan: upgrade.known, environment })
                    },
                )
            } else {
                take_up(upgrade.advanced(did_upgrade))
            }
        },
    }
}

/// The step after the old resources were removed: the new ones are installed, over files that are
/// in the way.
pub open spec fn after_removal<T, Q, O, E, F>(
    upgrade: UpgradeView<O, Changed<T, Q, O, E>>,
) -> StepView<T, Q, O, E, F> {
    StepView::InstallResources(
        upgrade.knowing(
            Installation {
                plan: upgrade.known.plan,
                environment: upgrade.known.environment,
                force: true,
            },
        ),
    )
}

/// The step after the new resources were installed. An error ends the upgrade.
pub open spec fn after_installation<T, Q, O, E, F>(
    upgrade: UpgradeView<O, Installation<T, Q, O, E>>,
    outcome: Result<(), F>,
) -> StepView<T, Q, O, E, F> {
    match outcome {
        Err(error) => StepView::Fail(error),
        Ok(_) => take_up(upgrade.advanced(upgrade.did_upgrade)),
    }
}

fn take_up_next<T, Q, O, E, F>(
    names: Vec<PackageName>,
    next: usize,
    did_upgrade: bool,
    args: O,
    filesystem: O,
) -> (r: UpgradeStep<T, Q, O, E, F>)
    requires
        next <= names@.len(),
    ensures
        r@ == take_up::<T, Q, O, E, F>(
            UpgradeView {
                names: name_texts(names@),
                next: next as int,
                did_upgrade,
                args,
                filesystem,
                known: (),
            },
        ),
{
    if next < names.len() {
        UpgradeStep::ReadReceipt(
            Upgrade { names, next, did_upgrade, args, filesystem, known: () },
        )
    } else if did_upgrade {
        UpgradeStep::Exit(ExitStatus::Success, None)
    } else {
        UpgradeStep::Exit(ExitStatus::Success, Some("Nothing to upgrade".to_owned()))
    }
}

impl<O, S> Upgrade<O, S> {
    #[verifier::type_invariant]
    spec fn well_formed(self) -> bool {
        self.next < self.names@.len()
    }

    /// The tool in work.
    pub fn name(&self) -> (r: &PackageName)
        ensures
            self@.pending(),
            r@ == self@.name(),
    {
        proof {
            use_type_invariant(self);
        }
        &self.names[self.next]
    }

    /// What is known of the tool in work.
    pub fn known(&self) -> (r: &S)
        ensures
            *r == self@.known,
    {
        &self.known
    }
}

impl<O> Upgrade<O, ()> {
    /// Goes on once the receipt of the tool was looked for.
    pub fn receipt<T, Q, E, F>(self, found: Result<Option<Receipt<T, Q, O>>, Error>) -> (r:
        UpgradeStep<T, Q, O, E, F>)
        ensures
            self@.pending(),
            r@ == after_receipt::<T, Q, O, E, F>(self@, found),
    {
        proof {
            use_type_invariant(&self);
        }
        match found {
            Ok(Some(receipt)) => UpgradeStep::FindEnvironment(
                Upgrade {
                    names: self.names,
                    next: self.next,
                    did_upgrade: self.did_upgrade,
                    args: self.args,
                    filesystem: self.filesystem,
                    known: receipt,
                },
            ),
            Ok(None) => UpgradeStep::Exit(
                ExitStatus::Failure,
                Some(not_installed(self.name().as_str())),
            ),
            Err(_) => UpgradeStep::Exit(
                ExitStatus::Failure,
                Some(reinstall(self.name().as_str(), "receipt")),
            ),
        }
    }
}

impl<T, Q, O: Combine + Clone> Upgrade<O, Receipt<T, Q, O>> {
    /// Goes on once the environment of the tool was looked for. The settings for the update are
    /// those of the command line before those of the receipt, and both before those of the user's
    /// configuration.
    pub fn environment<E, F>(self, found: Result<Option<E>, Error>) -> (r: UpgradeStep<
        T,
        Q,
        O,
        E,
        F,
    >)
        ensures
            self@.pending(),
            exists|options: O|
                r@ == #[trigger] after_environment::<T, Q, O, E, F>(self@, found, options) && (found matches Ok(
                    Some(_),
                ) ==> counts_for(self@, options)),
    {
        proof {
            use_type_invariant(&self);
        }
        let ghost upgrade = self@;
        assert(found is Ok && found->Ok_0 is Some || after_environment::<T, Q, O, E, F>(
            upgrade,
            found,
            upgrade.args,
        ) is Exit);
        match found {
            Ok(Some(environment)) => {
                let args: O = self.args.clone();
                let filesystem: O = self.filesystem.clone();
                let ghost (first, last) = (args, filesystem);
                let receipt: Receipt<T, Q, O> = self.known;
                let rest: O = receipt.options.combine(filesystem);
                let ghost between = rest;
                let options: O = args.combine(rest);
                assert(call_ensures(O::combine, (upgrade.known.options, last), between));
                assert(preferring(first, upgrade.known.options, last, options));
                assert(after_environment::<T, Q, O, E, F>(upgrade, found, options) is UpdateEnvironment);
                let known: Plan<T, Q, O> = Plan {
                    tool: receipt.tool,
                    requirements: receipt.requirements,
                    options,
                };
                UpgradeStep::UpdateEnvironment(
                    Upgrade {
                        names: self.names,
                        next: self.next,
                        did_upgrade: self.did_upgrade,
                        args: self.args,
                        filesystem: self.filesystem,
                        known,
                    },
                    environment,
                )
            },
            Ok(None) => UpgradeStep::Exit(
                ExitStatus::Failure,
                Some(not_installed(self.name().as_str())),
            ),
            Err(_) => UpgradeStep::Exit(
                ExitStatus::Failure,
                Some(reinstall(self.name().as_str(), "environment")),
            ),
        }
    }
}

impl<T, Q, O> Upgrade<O, Plan<T, Q, O>> {
    /// Goes on once the environment of the tool was updated, with what it became and the packages
    /// that were changed, or with the error.
    pub fn updated<E, F>(self, outcome: Result<(E, Vec<PackageName>), F>) -> (r: UpgradeStep<
        T,
        Q,
        O,
        E,
        F,
    >)
        ensures
            self@.pending(),
            r@ == after_update(self@, update_view(outcome)),
    {
        proof {
            use_type_invariant(&self);
        }
        let (environment, changelog): (E, Vec<PackageName>) = match outcome {
            Ok(done) => done,
            Err(error) => {
                return UpgradeStep::Fail(error);
            },
        };
        let did_upgrade: bool = self.did_upgrade || changelog.len() > 0;
        let mut included: bool = false;
        let mut i: usize = 0;
        while i < changelog.len()
            invariant
                i <= changelog.len(),
                self@.pending(),
                included == name_texts(changelog@).take(i as int).contains(self@.name()),
            decreases changelog.len() - i,
        {
            proof {
                let longer = name_texts(changelog@).take(i + 1);
                let shorter = name_texts(changelog@).take(i as int);
                assert(longer == shorter.push(changelog@[i as int]@));
                if shorter.contains(self@.name()) {
                    let k = choose|k: int| 0 <= k < shorter.len() && shorter[k] == self@.name();
                    assert(longer[k] == self@.name());
                }
                assert(longer[i as int] == changelog@[i as int]@);
                if longer.contains(self@.name()) {
                    let k = choose|k: int| 0 <= k < longer.len() && longer[k] == self@.name();
                    if k < i {
                        assert(shorter[k] == self@.name());
                    }
                }
            }
            if changelog[i].same_as(self.name()) {
                included = true;
            }
            i = i + 1;
        }
        assert(name_texts(changelog@).take(changelog.len() as int) == name_texts(changelog@));
        if included {
            UpgradeStep::RemoveResources(
                Upgrade {
                    names: self.names,
                    next: self.next,
                    did_upgrade,
                    args: self.args,
                    filesystem: self.filesystem,
                    known: Changed { plan: self.known, environment },
                },
            )
        } else {
            assert(self.next < self.names.len());
            take_up_next(self.names, self.next + 1, did_upgrade, self.args, self.filesystem)
        }
    }
}

impl<T, Q, O, E> Upgrade<O, Changed<T, Q, O, E>> {
    /// Goes on once the old resources of the tool were removed.
    pub fn removed<F>(self) -> (r: UpgradeStep<T, Q, O, E, F>)
        ensures
            self@.pending(),
            r@ == after_removal::<T, Q, O, E, F>(self@),
    {
        proof {
            use_type_invariant(&self);
        }
        let changed: Changed<T, Q, O, E> = self.known;
        UpgradeStep::InstallResources(
            Upgrade {
                names: self.names,
                next: self.next,
                did_upgrade: self.did_upgrade,
                args: self.args,
                filesystem: self.filesystem,
                known: Installation {
                    plan: changed.plan,
                    environment: changed.environment,
                    force: true,
                },
            },
        )
    }
}

impl<T, Q, O, E> Upgrade<O, Installation<T, Q, O, E>> {
    /// Goes on once the new resources of the tool were installed, or with the error.
    pub fn installed<F>(self, outcome: Result<(), F>) -> (r: UpgradeStep<T, Q, O, E, F>)
        ensures
            self@.pending(),
            r@ == after_installation(self@, outcome),
    {
        proof {
            use_type_invariant(&self);
        }
        if let Err(error) = outcome {
            return UpgradeStep::Fail(error);
        }
        assert(self.next < self.names.len());
        take_up_next(self.names, self.next + 1, self.did_upgrade, self.args, self.filesystem)
    }
}

/// The names of the tools in a listing.
pub open spec fn listed_names<T>(listing: Seq<(PackageName, Result<T, Error>)>) -> Seq<Seq<char>> {
    Seq::new(listing.len(), |i: int| listing[i].0@)
}

/// The tools that an upgrade is about: those asked for, or, where none is, all that are installed.
/// Tools that cannot be listed count as none.
pub open spec fn upgrade_candidates<T>(
    requested: Seq<Seq<char>>,
    installed: Result<Vec<(PackageName, Result<T, Error>)>, Error>,
) -> Seq<Seq<char>> {
    if requested.len() > 0 {
        requested
    } else {
        match installed {
            Ok(listing) => listed_names(listing@),
            Err(_) => Seq::empty(),
        }
    }
}

/// The names of the tools to upgrade, in order and each once.
pub fn upgrade_names<T>(
    name: Vec<PackageName>,
    installed: Result<Vec<(PackageName, Result<T, Error>)>, Error>,
) -> (r: Vec<PackageName>)
    ensures
        is_name_set(name_texts(r@), upgrade_candidates(name_texts(name@), installed)),
        name_texts(r@) == name_set(upgrade_candidates(name_texts(name@), installed)),
{
    if name.len() > 0 {
        return sorted_names(&name);
    }
    let mut names: Vec<PackageName> = Vec::new();
    match &installed {
        Ok(listing) => {
            let mut i: usize = 0;
            while i < listing.len()
                invariant
                    i <= listing.len(),
                    name_texts(names@) == listed_names(listing@).take(i as int),
                decreases listing.len() - i,
            {
                let ghost known = name_texts(names@);
                names.push(listing[i].0.clone());
                assert(name_texts(names@) == known.push(listed_names(listing@)[i as int]));
                i = i + 1;
            }
            assert(name_texts(names@) == listed_names(listing@));
        },
        Err(_) => {
            assert(name_texts(names@) == Seq::<Seq<char>>::empty());
        },
    }
    sorted_names(&names)
}

/// Starts the upgrade of the given tools, or of all installed ones where none is given, in order
/// and each once, with the settings of the command line and of the user's configuration.
pub fn upgrade<L, T, Q, O, E, F>(
    name: Vec<PackageName>,
    installed: Result<Vec<(PackageName, Result<L, Error>)>, Error>,
    args: O,
    filesystem: O,
) -> (r: UpgradeStep<T, Q, O, E, F>)
    ensures
        is_name_set(
            name_set(upgrade_candidates(name_texts(name@), installed)),
            upgrade_candidates(name_texts(name@), installed),
        ),
        r@ == take_up::<T, Q, O, E, F>(
            UpgradeView {
                names: name_set(upgrade_candidates(name_texts(name@), installed)),
                next: 0,
                did_upgrade: false,
                args,
                filesystem,
                known: (),
            },
        ),
{
    let names: Vec<PackageName> = upgrade_names(name, installed);
    take_up_next(names, 0, false, args, filesystem)
}

} // verus!
