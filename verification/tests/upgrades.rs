use uv_tool::upgrade::{upgrade_names, Combine, ExitStatus, Receipt, UpgradeStep};
use uv_tool::{upgrade, Error, PackageName};

fn name(text: &str) -> PackageName {
    PackageName::from_str(text).unwrap()
}

fn names(list: &[&str]) -> Vec<PackageName> {
    list.iter().map(|text| name(text)).collect()
}

type Listing = Result<Vec<(PackageName, Result<(), Error>)>, Error>;

fn installed(list: &[&str]) -> Listing {
    Ok(list.iter().map(|text| (name(text), Ok(()))).collect())
}

/// Settings, from the ones that count most to the ones that count least.
#[derive(Clone, Debug, PartialEq)]
struct Options {
    index: Option<String>,
    order: Vec<String>,
}

impl Combine for Options {
    fn combine(mut self, other: Self) -> Self {
        self.order.extend(other.order);
        Options { index: self.index.combine(other.index), order: self.order }
    }
}

fn options(source: &str, index: Option<&str>) -> Options {
    Options { index: index.map(str::to_string), order: vec![source.to_string()] }
}

type Step = UpgradeStep<String, String, Options, String, String>;

fn start(list: &[&str], installed: Listing) -> Step {
    upgrade(names(list), installed, options("args", None), options("user", Some("user-index")))
}

struct Done {
    status: Option<ExitStatus>,
    message: Option<String>,
    error: Option<String>,
    log: Vec<String>,
}

/// Runs an upgrade. A tool called `gone` is not there, `torn` has a bad receipt, `void` has no
/// environment, `rotten` has a bad one; `fresh` needs no change, and `deps` only changes others.
/// The receipt of `ruff` sets an index. The update of `offline` fails, and so does the installation
/// of `locked`.
fn run(mut step: Step) -> Done {
    let mut log = Vec::new();
    loop {
        step = match step {
            UpgradeStep::ReadReceipt(upgrade) => {
                let tool = upgrade.name().as_str().to_string();
                let index = if tool == "ruff" { Some("ruff-index") } else { None };
                let found = match tool.as_str() {
                    "gone" => Ok(None),
                    "torn" => Err(Error::NoExecutableDirectory),
                    _ => Ok(Some(Receipt {
                        requirements: format!("{tool}>=1"),
                        options: options(&tool, index),
                        tool,
                    })),
                };
                upgrade.receipt(found)
            }
            UpgradeStep::FindEnvironment(upgrade) => {
                let found = match upgrade.name().as_str() {
                    "void" => Ok(None),
                    "rotten" => Err(Error::NoExecutableDirectory),
                    tool => Ok(Some(format!("env of {tool}"))),
                };
                upgrade.environment(found)
            }
            UpgradeStep::UpdateEnvironment(upgrade, environment) => {
                let tool = upgrade.name().as_str();
                let plan = upgrade.known();
                assert_eq!(environment, format!("env of {tool}"));
                assert_eq!(plan.tool, tool);
                assert_eq!(plan.requirements, format!("{tool}>=1"));
                assert_eq!(plan.options.order, vec!["args", tool, "user"]);
                let index = if tool == "ruff" { "ruff-index" } else { "user-index" };
                assert_eq!(plan.options.index.as_deref(), Some(index));
                log.push(format!("update {tool}"));
                let changelog = match tool {
                    "fresh" => Ok(names(&[])),
                    "deps" => Ok(names(&["numpy"])),
                    "offline" => Err("no network".to_string()),
                    changed => Ok(names(&["numpy", changed])),
                };
                upgrade.updated(changelog.map(|changelog| (format!("new {environment}"), changelog)))
            }
            UpgradeStep::RemoveResources(upgrade) => {
                let tool = upgrade.name().as_str();
                assert_eq!(upgrade.known().plan.tool, tool);
                assert_eq!(upgrade.known().environment, format!("new env of {tool}"));
                log.push(format!("remove {tool}"));
                upgrade.removed()
            }
            UpgradeStep::InstallResources(upgrade) => {
                let tool = upgrade.name().as_str();
                let installation = upgrade.known();
                assert_eq!(installation.environment, format!("new env of {tool}"));
                assert!(installation.force);
                assert_eq!(installation.plan.tool, tool);
                assert_eq!(installation.plan.requirements, format!("{tool}>=1"));
                assert_eq!(installation.plan.options.order, vec!["args", tool, "user"]);
                log.push(format!("install {tool}"));
                let outcome =
                    if tool == "locked" { Err("in use".to_string()) } else { Ok(()) };
                upgrade.installed(outcome)
            }
            UpgradeStep::Exit(status, message) => {
                return Done { status: Some(status), message, error: None, log }
            }
            UpgradeStep::Fail(error) => {
                return Done { status: None, message: None, error: Some(error), log }
            }
        };
    }
}

#[test]
fn tools_are_upgraded_in_order() {
    let done = run(start(&["ruff", "black", "ruff"], installed(&[])));
    assert_eq!(done.status, Some(ExitStatus::Success));
    assert_eq!(done.message, None);
    assert_eq!(done.log, vec![
            "update black",
            "remove black",
            "install black",
            "update ruff",
            "remove ruff",
            "install ruff"
        ]);
}

#[test]
fn without_names_all_installed_tools_are_upgraded() {
    let done = run(start(&[], installed(&["b", "a"])));
    assert_eq!(done.log, vec!["update a", "remove a", "install a", "update b", "remove b", "install b"]);
}

#[test]
fn names_go_before_installed_tools() {
    let chosen = upgrade_names(names(&["x"]), installed(&["b", "a"]));
    assert_eq!(chosen.len(), 1);
    assert_eq!(chosen[0].as_str(), "x");
}

#[test]
fn no_tools_are_nothing_to_upgrade() {
    let failed: Listing = Err(Error::NoExecutableDirectory);
    for step in [start(&[], installed(&[])), start(&[], failed)] {
        let done = run(step);
        assert_eq!(done.status, Some(ExitStatus::Success));
        assert_eq!(done.message.as_deref(), Some("Nothing to upgrade"));
        assert!(done.log.is_empty());
    }
}

#[test]
fn no_changes_are_nothing_to_upgrade() {
    let done = run(start(&["fresh"], installed(&[])));
    assert_eq!(done.status, Some(ExitStatus::Success));
    assert_eq!(done.message.as_deref(), Some("Nothing to upgrade"));
    assert_eq!(done.log, vec!["update fresh"]);
}

#[test]
fn changed_dependencies_alone_reinstall_nothing() {
    let done = run(start(&["deps", "fresh"], installed(&[])));
    assert_eq!(done.status, Some(ExitStatus::Success));
    assert_eq!(done.message, None);
    assert_eq!(done.log, vec!["update deps", "update fresh"]);
}

#[test]
fn a_missing_tool_ends_the_upgrade() {
    let done = run(start(&["zebra", "gone", "black"], installed(&[])));
    assert_eq!(done.status, Some(ExitStatus::Failure));
    assert_eq!(
        done.message.as_deref(),
        Some(
            "`\x1b[36mgone\x1b[39m` is not installed; run `\x1b[32muv tool install gone\x1b[39m` to install"
        )
    );
    assert_eq!(done.log, vec!["update black", "remove black", "install black"]);
}

#[test]
fn a_bad_receipt_ends_the_upgrade() {
    let done = run(start(&["torn"], installed(&[])));
    assert_eq!(done.status, Some(ExitStatus::Failure));
    assert_eq!(
        done.message.as_deref(),
        Some(
            "`\x1b[36mtorn\x1b[39m` is missing a valid receipt; run `\x1b[32muv tool install --force torn\x1b[39m` to reinstall"
        )
    );
}

#[test]
fn a_missing_environment_ends_the_upgrade() {
    let done = run(start(&["void"], installed(&[])));
    assert_eq!(done.status, Some(ExitStatus::Failure));
    assert_eq!(
        done.message.as_deref(),
        Some(
            "`\x1b[36mvoid\x1b[39m` is not installed; run `\x1b[32muv tool install void\x1b[39m` to install"
        )
    );
}

#[test]
fn a_bad_environment_ends_the_upgrade() {
    let done = run(start(&["rotten"], installed(&[])));
    assert_eq!(done.status, Some(ExitStatus::Failure));
    assert_eq!(
        done.message.as_deref(),
        Some(
            "`\x1b[36mrotten\x1b[39m` is missing a valid environment; run `\x1b[32muv tool install --force rotten\x1b[39m` to reinstall"
        )
    );
}

#[test]
fn the_first_source_that_sets_a_setting_counts() {
    let layered = |args: Option<u8>, receipt: Option<u8>, user: Option<u8>| {
        args.combine(receipt.combine(user))
    };
    assert_eq!(layered(Some(1), Some(2), Some(3)), Some(1));
    assert_eq!(layered(None, Some(2), Some(3)), Some(2));
    assert_eq!(layered(None, None, Some(3)), Some(3));
    assert_eq!(layered(None, None, None), None);
}

#[test]
fn settings_of_one_tool_do_not_reach_the_next() {
    let done = run(start(&["ruff", "sphinx", "black"], installed(&[])));
    assert_eq!(done.status, Some(ExitStatus::Success));
    assert_eq!(
        done.log,
        vec![
            "update black",
            "remove black",
            "install black",
            "update ruff",
            "remove ruff",
            "install ruff",
            "update sphinx",
            "remove sphinx",
            "install sphinx"
        ]
    );
}

#[test]
fn a_failed_update_ends_the_upgrade() {
    let done = run(start(&["zebra", "offline", "black"], installed(&[])));
    assert_eq!(done.error.as_deref(), Some("no network"));
    assert_eq!(done.status, None);
    assert_eq!(done.message, None);
    assert_eq!(done.log, vec!["update black", "remove black", "install black", "update offline"]);
}

#[test]
fn a_failed_installation_ends_the_upgrade() {
    let done = run(start(&["zebra", "locked", "fresh"], installed(&[])));
    assert_eq!(done.error.as_deref(), Some("in use"));
    assert_eq!(done.status, None);
    assert_eq!(done.log, vec!["update fresh", "update locked", "remove locked", "install locked"]);
}
