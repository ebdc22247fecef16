//! What each step of an upgrade answers, in terms of what it is handed.

use vstd::prelude::*;

use crate::error::Error;
use crate::name::PackageName;
use crate::order::name_texts;
use crate::text_laws::{in_order, is_among, lemma_among, lemma_in_order};
use crate::upgrade::{
    not_installed_text, reinstall_text, upgrade, upgrade_names, Changed, Combine, ExitStatus,
    Installation, Plan, Receipt, Upgrade, UpgradeStep, UpgradeView,
};

verus! {

/// Whether a listing holds a tool of the given name.
pub open spec fn is_installed<L>(
    name: Seq<char>,
    listing: Seq<(PackageName, Result<L, Error>)>,
) -> bool {
    exists|i: int| 0 <= i < listing.len() && (#[trigger] listing[i]).0@ == name
}

proof fn lemma_installed<L>(name: Seq<char>, listing: Seq<(PackageName, Result<L, Error>)>)
    ensures
        is_installed(name, listing) <==> crate::upgrade::listed_names(listing).contains(name),
{
    let names = crate::upgrade::listed_names(listing);
    if is_installed(name, listing) {
        let i = choose|i: int| 0 <= i < listing.len() && (#[trigger] listing[i]).0@ == name;
        assert(names[i] == name);
    }
    if names.contains(name) {
        let i = choose|i: int| 0 <= i < names.len() && names[i] == name;
        assert(listing[i].0@ == name);
    }
}

/// The tools to upgrade are exactly those that are named. Where none is named, they are exactly
/// those of the listing, whether or not their receipts are usable, and none where there is no
/// listing. Each comes once, and before all that follow it by their characters.
pub proof fn named_or_all_tools_are_upgraded<L>(
    name: Vec<PackageName>,
    installed: Result<Vec<(PackageName, Result<L, Error>)>, Error>,
    r: Vec<PackageName>,
)
    requires
        call_ensures(upgrade_names::<L>, (name, installed), r),
    ensures
        in_order(r@),
        name@.len() > 0 ==> forall|x: Seq<char>| #[trigger] is_among(x, r@) <==> is_among(x, name@),
        name@.len() == 0 ==> match installed {
            Ok(listing) => forall|x: Seq<char>| #[trigger]
                is_among(x, r@) <==> is_installed(x, listing@),
            Err(_) => r@.len() == 0,
        },
{
    lemma_in_order(r@);
    let texts = name_texts(r@);
    let all = crate::upgrade::upgrade_candidates(name_texts(name@), installed);
    if name@.len() > 0 {
        assert forall|x: Seq<char>| #[trigger] is_among(x, r@) <==> is_among(x, name@) by {
            lemma_among(x, r@);
            lemma_among(x, name@);
            assert(texts.contains(x) <==> all.contains(x));
        }
    } else {
        match installed {
            Ok(listing) => {
                assert forall|x: Seq<char>| #[trigger] is_among(x, r@) <==> is_installed(
                    x,
                    listing@,
                ) by {
                    lemma_among(x, r@);
                    lemma_installed(x, listing@);
                    assert(texts.contains(x) <==> all.contains(x));
                }
            },
            Err(_) => {
                if r@.len() > 0 {
                    assert(texts.contains(texts[0]));
                    assert(all.contains(texts[0]));
                }
            },
        }
    }
}

/// Whether a step is the end in success, with the given message.
pub open spec fn ends_well<T, Q, O, E, F>(
    step: UpgradeStep<T, Q, O, E, F>,
    message: Option<Seq<char>>,
) -> bool {
    step matches UpgradeStep::Exit(status, text) && status == ExitStatus::Success && match message {
        Some(expected) => text is Some && text->0@ == expected,
        None => text is None,
    }
}

/// Whether a step is the end in failure, with the given message.
pub open spec fn ends_badly<T, Q, O, E, F>(
    step: UpgradeStep<T, Q, O, E, F>,
    message: Seq<char>,
) -> bool {
    step matches UpgradeStep::Exit(status, text) && status == ExitStatus::Failure && text is Some
        && text->0@ == message
}

/// Whether two upgrades are about the same tools, at the same tool, with the same settings.
pub open spec fn goes_on<O, S, R>(from: UpgradeView<O, S>, to: UpgradeView<O, R>) -> bool {
    &&& to.names == from.names
    &&& to.next == from.next
    &&& to.args == from.args
    &&& to.filesystem == from.filesystem
}

/// Whether a step takes up the tool at a place, or is the end where there is none: in silence where
/// something was upgraded, and else with the message that there was nothing to upgrade.
pub open spec fn takes_up<T, Q, O, E, F>(
    step: UpgradeStep<T, Q, O, E, F>,
    names: Seq<Seq<char>>,
    next: int,
    did_upgrade: bool,
    args: O,
    filesystem: O,
) -> bool {
    if next < names.len() {
        step matches UpgradeStep::ReadReceipt(upgrade) && upgrade@.names == names && upgrade@.next
            == next && upgrade@.did_upgrade == did_upgrade && upgrade@.args == args
            && upgrade@.filesystem == filesystem
    } else {
        ends_well(
            step,
            if did_upgrade {
                None
            } else {
                Some("Nothing to upgrade"@)
            },
        )
    }
}

/// An upgrade starts with the first of the tools to upgrade, in order, with nothing upgraded so far
/// and with the settings it is handed. Where there are no tools, there is nothing to upgrade.
pub proof fn upgrade_starts_with_the_first_tool<L, T, Q, O, E, F>(
    name: Vec<PackageName>,
    installed: Result<Vec<(PackageName, Result<L, Error>)>, Error>,
    args: O,
    filesystem: O,
    names: Vec<PackageName>,
    r: UpgradeStep<T, Q, O, E, F>,
)
    requires
        call_ensures(upgrade_names::<L>, (name, installed), names),
        call_ensures(upgrade::<L, T, Q, O, E, F>, (name, installed, args, filesystem), r),
    ensures
        takes_up(r, name_texts(names@), 0, false, args, filesystem),
        names@.len() > 0 ==> r is ReadReceipt,
{
    assert(name_texts(names@).len() == names@.len());
}

/// The messages, put together from their parts.
proof fn lemma_texts(name: Seq<char>)
    ensures
        not_installed_text(name) == not_installed_message(name),
        reinstall_text(name, "receipt"@) == bad_receipt_message(name),
        reinstall_text(name, "environment"@) == bad_environment_message(name),
{
    reveal_strlit("`");
    reveal_strlit("\x1b[36m");
    reveal_strlit("\x1b[32m");
    reveal_strlit("\x1b[39m");
    reveal_strlit("` is not installed; run `");
    reveal_strlit("uv tool install ");
    reveal_strlit("` to install");
    reveal_strlit("` is missing a valid ");
    reveal_strlit("receipt");
    reveal_strlit("environment");
    reveal_strlit("; run `");
    reveal_strlit("uv tool install --force ");
    reveal_strlit("` to reinstall");
    reveal_strlit("`\x1b[36m");
    reveal_strlit("\x1b[39m` is not installed; run `\x1b[32muv tool install ");
    reveal_strlit("\x1b[39m` to install");
    reveal_strlit("\x1b[39m` is missing a valid receipt; run `\x1b[32muv tool install --force ");
    reveal_strlit("\x1b[39m` is missing a valid environment; run `\x1b[32muv tool install --force ");
    reveal_strlit("\x1b[39m` to reinstall");
    assert("`"@ + "\x1b[36m"@ == "`\x1b[36m"@);
    assert("\x1b[39m"@ + "` to install"@ == "\x1b[39m` to install"@);
    assert("\x1b[39m"@ + "` to reinstall"@ == "\x1b[39m` to reinstall"@);
    assert("\x1b[39m"@ + "` is not installed; run `"@ + "\x1b[32m"@ + "uv tool install "@
        == "\x1b[39m` is not installed; run `\x1b[32muv tool install "@);
    assert("\x1b[39m"@ + "` is missing a valid "@ + "receipt"@ + "; run `"@ + "\x1b[32m"@
        + "uv tool install --force "@
        == "\x1b[39m` is missing a valid receipt; run `\x1b[32muv tool install --force "@);
    assert("\x1b[39m"@ + "` is missing a valid "@ + "environment"@ + "; run `"@ + "\x1b[32m"@
        + "uv tool install --force "@
        == "\x1b[39m` is missing a valid environment; run `\x1b[32muv tool install --force "@);
    assert(not_installed_text(name) == "`"@ + "\x1b[36m"@ + name + ("\x1b[39m"@
        + "` is not installed; run `"@ + "\x1b[32m"@ + "uv tool install "@) + name + ("\x1b[39m"@
        + "` to install"@));
    assert(reinstall_text(name, "receipt"@) == "`"@ + "\x1b[36m"@ + name + ("\x1b[39m"@
        + "` is missing a valid "@ + "receipt"@ + "; run `"@ + "\x1b[32m"@
        + "uv tool install --force "@) + name + ("\x1b[39m"@ + "` to reinstall"@));
    assert(reinstall_text(name, "environment"@) == "`"@ + "\x1b[36m"@ + name + ("\x1b[39m"@
        + "` is missing a valid "@ + "environment"@ + "; run `"@ + "\x1b[32m"@
        + "uv tool install --force "@) + name + ("\x1b[39m"@ + "` to reinstall"@));
}

/// The message that a tool is not installed.
pub open spec fn not_installed_message(name: Seq<char>) -> Seq<char> {
    "`\x1b[36m"@ + name + "\x1b[39m` is not installed; run `\x1b[32muv tool install "@ + name
        + "\x1b[39m` to install"@
}

/// The message that a tool has no valid receipt.
pub open spec fn bad_receipt_message(name: Seq<char>) -> Seq<char> {
    "`\x1b[36m"@ + name
        + "\x1b[39m` is missing a valid receipt; run `\x1b[32muv tool install --force "@ + name
        + "\x1b[39m` to reinstall"@
}

/// The message that a tool has no valid environment.
pub open spec fn bad_environment_message(name: Seq<char>) -> Seq<char> {
    "`\x1b[36m"@ + name
        + "\x1b[39m` is missing a valid environment; run `\x1b[32muv tool install --force "@ + name
        + "\x1b[39m` to reinstall"@
}

/// The tool in work is the one at the place that the upgrade has come to, and what is known of it is
/// what was handed in.
pub proof fn tool_in_work_is_told<O, S>(upgrade: &Upgrade<O, S>, name: &PackageName, known: &S)
    requires
        call_ensures(Upgrade::<O, S>::name, (upgrade,), name),
        call_ensures(Upgrade::<O, S>::known, (upgrade,), known),
    ensures
        0 <= upgrade@.next < upgrade@.names.len(),
        name@ == upgrade@.names[upgrade@.next],
        *known == upgrade@.known,
{
}

/// A receipt that was found is kept, and the environment is looked for next. Without one, or with an
/// unusable one, the upgrade ends in failure with a message that names the tool in work.
pub proof fn receipt_leads_to_the_environment<T, Q, O, E, F>(
    upgrade: Upgrade<O, ()>,
    found: Result<Option<Receipt<T, Q, O>>, Error>,
    r: UpgradeStep<T, Q, O, E, F>,
)
    requires
        call_ensures(Upgrade::<O, ()>::receipt::<T, Q, E, F>, (upgrade, found), r),
    ensures
        match found {
            Ok(Some(receipt)) => r matches UpgradeStep::FindEnvironment(next) && goes_on(
                upgrade@,
                next@,
            ) && next@.did_upgrade == upgrade@.did_upgrade && next@.known == receipt,
            Ok(None) => ends_badly(
                r,
                not_installed_message(upgrade@.names[upgrade@.next]),
            ),
            Err(_) => ends_badly(r, bad_receipt_message(upgrade@.names[upgrade@.next])),
        },
{
    lemma_texts(upgrade@.names[upgrade@.next]);
}

/// Whether settings come of putting copies of those of the command line before those of a receipt,
/// and both before copies of those of the user's configuration.
pub open spec fn come_of<O: Combine + Clone>(
    options: O,
    args: O,
    receipt: O,
    filesystem: O,
) -> bool {
    exists|first: O, last: O, rest: O|
        {
            &&& cloned(args, first)
            &&& cloned(filesystem, last)
            &&& #[trigger] call_ensures(O::combine, (receipt, last), rest)
            &&& #[trigger] call_ensures(O::combine, (first, rest), options)
        }
}

/// An environment that was found is updated next, to the requirements of the tool's receipt, and
/// with the settings of the command line before those of that receipt, before those of the user's
/// configuration. Without one, or with an unusable one, the upgrade ends in failure with a message
/// that names the tool in work.
pub proof fn environment_leads_to_the_update<T, Q, O: Combine + Clone, E, F>(
    upgrade: Upgrade<O, Receipt<T, Q, O>>,
    found: Result<Option<E>, Error>,
    r: UpgradeStep<T, Q, O, E, F>,
)
    requires
        call_ensures(
            Upgrade::<O, Receipt<T, Q, O>>::environment::<E, F>,
            (upgrade, found),
            r,
        ),
    ensures
        match found {
            Ok(Some(environment)) => r matches UpgradeStep::UpdateEnvironment(next, given)
                && given == environment && goes_on(upgrade@, next@) && next@.did_upgrade
                == upgrade@.did_upgrade && next@.known.tool == upgrade@.known.tool
                && next@.known.requirements == upgrade@.known.requirements && come_of(
                next@.known.options,
                upgrade@.args,
                upgrade@.known.options,
                upgrade@.filesystem,
            ),
            Ok(None) => ends_badly(
                r,
                not_installed_message(upgrade@.names[upgrade@.next]),
            ),
            Err(_) => ends_badly(r, bad_environment_message(upgrade@.names[upgrade@.next])),
        },
{
    lemma_texts(upgrade@.names[upgrade@.next]);
    let options = choose|options: O|
        r@ == #[trigger] crate::upgrade::after_environment::<T, Q, O, E, F>(
            upgrade@,
            found,
            options,
        ) && (found matches Ok(Some(_)) ==> crate::upgrade::counts_for(upgrade@, options));
    if found matches Ok(Some(_)) {
        let receipt = upgrade@.known.options;
        let (first, last) = choose|first: O, last: O|
            cloned(upgrade@.args, first) && cloned(upgrade@.filesystem, last)
                && #[trigger] crate::upgrade::preferring(first, receipt, last, options);
        let rest = choose|rest: O| #[trigger]
            call_ensures(O::combine, (receipt, last), rest) && call_ensures(
                O::combine,
                (first, rest),
                options,
            );
        assert(come_of(options, upgrade@.args, receipt, upgrade@.filesystem));
    }
}

/// A failed update ends the upgrade with its error. Otherwise the upgrade counts as one exactly
/// where it was one before or any package was changed; the resources of the tool are removed next
/// exactly where its own package was changed, with the plan as it was and the environment as
/// updated, and else the next tool is taken up.
pub proof fn update_leads_to_the_resources<T, Q, O, E, F>(
    upgrade: Upgrade<O, Plan<T, Q, O>>,
    outcome: Result<(E, Vec<PackageName>), F>,
    r: UpgradeStep<T, Q, O, E, F>,
)
    requires
        call_ensures(Upgrade::<O, Plan<T, Q, O>>::updated::<E, F>, (upgrade, outcome), r),
    ensures
        match outcome {
            Err(error) => r == UpgradeStep::<T, Q, O, E, F>::Fail(error),
            Ok((environment, changelog)) => {
                let did_upgrade = upgrade@.did_upgrade || changelog@.len() > 0;
                if is_among(upgrade@.names[upgrade@.next], changelog@) {
                    r matches UpgradeStep::RemoveResources(next) && goes_on(upgrade@, next@)
                        && next@.did_upgrade == did_upgrade && next@.known.plan == upgrade@.known
                        && next@.known.environment == environment
                } else {
                    takes_up(
                        r,
                        upgrade@.names,
                        upgrade@.next + 1,
                        did_upgrade,
                        upgrade@.args,
                        upgrade@.filesystem,
                    )
                }
            },
        },
{
    if let Ok((environment, changelog)) = outcome {
        lemma_among(upgrade@.names[upgrade@.next], changelog@);
    }
}

/// Once the old resources are removed the new ones are installed, by the same plan, from the same
/// environment, and over files that are in the way.
pub proof fn removal_leads_to_the_installation<T, Q, O, E, F>(
    upgrade: Upgrade<O, Changed<T, Q, O, E>>,
    r: UpgradeStep<T, Q, O, E, F>,
)
    requires
        call_ensures(Upgrade::<O, Changed<T, Q, O, E>>::removed::<F>, (upgrade,), r),
    ensures
        r matches UpgradeStep::InstallResources(next) && goes_on(upgrade@, next@)
            && next@.did_upgrade == upgrade@.did_upgrade && next@.known.plan == upgrade@.known.plan
            && next@.known.environment == upgrade@.known.environment && next@.known.force,
{
}

/// A failed installation ends the upgrade with its error; otherwise the next tool is taken up.
pub proof fn installation_leads_to_the_next_tool<T, Q, O, E, F>(
    upgrade: Upgrade<O, Installation<T, Q, O, E>>,
    outcome: Result<(), F>,
    r: UpgradeStep<T, Q, O, E, F>,
)
    requires
        call_ensures(
            Upgrade::<O, Installation<T, Q, O, E>>::installed::<F>,
            (upgrade, outcome),
            r,
        ),
    ensures
        match outcome {
            Err(error) => r == UpgradeStep::<T, Q, O, E, F>::Fail(error),
            Ok(_) => takes_up(
                r,
                upgrade@.names,
                upgrade@.next + 1,
                upgrade@.did_upgrade,
                upgrade@.args,
                upgrade@.filesystem,
            ),
        },
{
}

} // verus!
