use std::collections::{HashMap, HashSet};

use uv_tool::error::{IoError, IoErrorKind};
use uv_tool::installed::{EnvironmentLookup, GitignoreWrite, ReceiptFile, ToolDirectory};
use uv_tool::path::file_name;
use uv_tool::site_packages::{InstalledDist, Scheme, SitePackages};
use uv_tool::{Error, InstalledTool, InstalledTools, PackageName};

fn name(text: &str) -> PackageName {
    PackageName::from_str(text).unwrap()
}

fn tools_at(root: &str) -> InstalledTools {
    InstalledTools::from_path(root.to_string())
}

fn io(kind: IoErrorKind) -> IoError {
    IoError { kind, message: format!("{kind:?}") }
}

fn directory<T>(name: &str, receipt: ReceiptFile<T>) -> ToolDirectory<T> {
    ToolDirectory { name: name.to_string(), receipt }
}

#[test]
fn the_root_is_kept() {
    assert_eq!(tools_at("/tools").root(), "/tools");
    assert_eq!(tools_at("/tools").clone().root(), "/tools");
}

#[test]
fn settings_are_preferred_in_order() {
    let given = Some("/mine".to_string());
    let data = || Ok(Some("/data/uv".to_string()));
    let of = |tools: Result<InstalledTools, Error>| tools.unwrap().root().to_string();
    assert_eq!(of(InstalledTools::from_settings(given.clone(), data())), "/mine");
    let failed = Err(io(IoErrorKind::Other));
    assert_eq!(of(InstalledTools::from_settings(given, failed)), "/mine");
    assert_eq!(of(InstalledTools::from_settings(None, data())), "/data/uv/tools");
    assert_eq!(of(InstalledTools::from_settings(None, Ok(None))), ".uv/tools");
    let failed = InstalledTools::from_settings(None, Err(io(IoErrorKind::Other)));
    assert!(matches!(failed, Err(Error::Io(_))));
}

#[test]
fn temporary_tools_lie_below_the_directory() {
    assert_eq!(InstalledTools::temp(Ok("/tmp/x".to_string())).unwrap().root(), "/tmp/x/tools");
    assert!(InstalledTools::temp(Err(io(IoErrorKind::NotFound))).is_err());
}

#[test]
fn paths_of_a_tool() {
    let tools = tools_at("/tools");
    assert_eq!(tools.tool_dir(&name("Black")), "/tools/black");
    assert_eq!(tools.receipt_path("black"), "/tools/black/uv-receipt.toml");
    assert_eq!(tools.lock_path(), "/tools/.lock");
    assert_eq!(tools_at("/tools/").tool_dir(&name("a")), "/tools/a");
}

#[test]
fn tools_are_listed_in_order() {
    let listed = tools_at("/tools")
        .tools(vec![
            directory("ruff", ReceiptFile::Parsed(1)),
            directory("My_Tool", ReceiptFile::Invalid("bad toml".to_string())),
            directory("Black", ReceiptFile::Unreadable(io(IoErrorKind::NotFound))),
        ])
        .unwrap();
    assert_eq!(listed.len(), 3);
    assert_eq!(listed[0].0.as_str(), "ruff");
    assert!(matches!(listed[0].1, Ok(1)));
    assert_eq!(listed[1].0.as_str(), "my-tool");
    match &listed[1].1 {
        Err(Error::ReceiptRead(path, error)) => {
            assert_eq!(path, "/tools/My_Tool/uv-receipt.toml");
            assert_eq!(error, "bad toml");
        }
        other => panic!("{other:?}"),
    }
    assert_eq!(listed[2].0.as_str(), "black");
    match &listed[2].1 {
        Err(Error::MissingToolReceipt(name, path)) => {
            assert_eq!(name, "black");
            assert_eq!(path, "/tools/Black/uv-receipt.toml");
        }
        other => panic!("{other:?}"),
    }
}

#[test]
fn a_strange_directory_makes_the_listing_fail() {
    let listed = tools_at("/tools").tools(vec![
        directory("ruff", ReceiptFile::Parsed(1)),
        directory(".cache", ReceiptFile::Unreadable(io(IoErrorKind::Other))),
    ]);
    match listed {
        Err(Error::ToolName(text)) => assert_eq!(text, ".cache"),
        other => panic!("{other:?}"),
    }
}

#[test]
fn an_unreadable_receipt_makes_the_listing_fail() {
    let listed = tools_at("/tools").tools(vec![
        directory("ruff", ReceiptFile::<u8>::Unreadable(io(IoErrorKind::AlreadyExists))),
        directory("-", ReceiptFile::Parsed(1)),
    ]);
    match listed {
        Err(Error::Io(error)) => assert_eq!(error.kind, IoErrorKind::AlreadyExists),
        other => panic!("{other:?}"),
    }
}

#[test]
fn an_empty_directory_lists_no_tools() {
    assert!(tools_at("/tools").tools(Vec::<ToolDirectory<u8>>::new()).unwrap().is_empty());
}

#[test]
fn a_tool_directory_is_listed_under_its_own_name() {
    let tools = tools_at("/tools");
    let black = name("black-formatter");
    let path = tools.tool_dir(&black);
    let listed =
        tools.tools(vec![directory(file_name(&path).unwrap(), ReceiptFile::Parsed(()))]).unwrap();
    assert!(listed[0].0.same_as(&black));
    assert_eq!(InstalledTool::new(path).unwrap().display(), "black-formatter");
}

#[test]
fn different_tools_have_different_directories() {
    let tools = tools_at("/tools");
    assert_ne!(tools.tool_dir(&name("a")), tools.tool_dir(&name("a-b")));
    assert_ne!(tools.receipt_path("a"), tools.receipt_path("a-b"));
    assert_ne!(tools.tool_dir(&name("")), tools.tool_dir(&name("a")));
}

#[test]
fn receipts_are_judged() {
    let tools = tools_at("/tools");
    let of = |receipt| tools.get_tool_receipt(&name("ruff"), receipt);
    assert!(matches!(of(ReceiptFile::Parsed(7)), Ok(Some(7))));
    assert!(matches!(of(ReceiptFile::Unreadable(io(IoErrorKind::NotFound))), Ok(None)));
    assert!(matches!(of(ReceiptFile::Unreadable(io(IoErrorKind::Other))), Err(Error::Io(_))));
    let error = of(ReceiptFile::Invalid("x".to_string())).unwrap_err();
    assert_eq!(error.message(), "Failed to read `uv-receipt.toml` at /tools/ruff/uv-receipt.toml");
}

#[test]
fn receipts_are_written_where_they_are_read() {
    let tools = tools_at("/tools");
    let write = tools.add_tool_receipt(&name("ruff"), Ok("[tool]\n".to_string())).unwrap();
    assert_eq!(write.path, tools.receipt_path("ruff"));
    assert_eq!(write.contents, "[tool]\n");
    let error = tools.add_tool_receipt(&name("ruff"), Err("unserializable".to_string()));
    match error {
        Err(Error::Serialization(text)) => assert_eq!(text, "unserializable"),
        other => panic!("{other:?}"),
    }
}

#[test]
fn a_written_receipt_reads_back() {
    let tools = tools_at("/tools");
    let mut files = HashMap::new();
    files.insert(tools.receipt_path("ruff"), "broken".to_string());
    files.insert(tools.receipt_path("black"), "7".to_string());
    let write = tools.add_tool_receipt(&name("ruff"), Ok(42.to_string())).unwrap();
    files.insert(write.path, write.contents);
    for (tool, expected) in [("ruff", Some(42)), ("black", Some(7)), ("absent", None)] {
        let receipt = match files.get(&tools.receipt_path(tool)) {
            Some(text) => match text.parse::<u8>() {
                Ok(value) => ReceiptFile::Parsed(value),
                Err(error) => ReceiptFile::Invalid(error.to_string()),
            },
            None => ReceiptFile::Unreadable(io(IoErrorKind::NotFound)),
        };
        assert_eq!(tools.get_tool_receipt(&name(tool), receipt).unwrap(), expected);
    }
}

#[test]
fn a_second_removal_fails() {
    let path = tools_at("/tools").tool_dir(&name("ruff"));
    let mut directories = HashSet::from([path.clone()]);
    let mut remove = || {
        let removed =
            if directories.remove(&path) { Ok(()) } else { Err(io(IoErrorKind::NotFound)) };
        InstalledTools::remove_environment(removed)
    };
    assert!(remove().is_ok());
    match remove() {
        Err(Error::Io(error)) => assert_eq!(error.kind, IoErrorKind::NotFound),
        other => panic!("{other:?}"),
    }
}

#[test]
fn a_second_init_changes_nothing() {
    let mut files = HashMap::new();
    for _ in 0..2 {
        let tools = tools_at("/tools");
        let file = tools.gitignore();
        let added = if files.contains_key(&file.path) {
            GitignoreWrite::NotCreated(io(IoErrorKind::AlreadyExists))
        } else {
            files.insert(file.path, file.contents);
            GitignoreWrite::Written
        };
        assert_eq!(tools.init(Ok(()), added).unwrap().root(), "/tools");
        assert_eq!(files, HashMap::from([("/tools/.gitignore".to_string(), "*".to_string())]));
    }
}

#[test]
fn environments_are_judged() {
    let of = InstalledTools::get_environment;
    assert!(matches!(of(EnvironmentLookup::Found('e')), Ok(Some('e'))));
    assert!(matches!(of(EnvironmentLookup::<char>::Missing("none".to_string())), Ok(None)));
    let gone = EnvironmentLookup::<char>::InterpreterNotFound("/usr/bin/python3".to_string());
    assert!(matches!(of(gone), Ok(None)));
    match of(EnvironmentLookup::<char>::Failed("broken".to_string())) {
        Err(Error::EnvironmentError(text)) => assert_eq!(text, "broken"),
        other => panic!("{other:?}"),
    }
}

#[test]
fn removing_no_environment_fails() {
    assert!(InstalledTools::remove_environment(Ok(())).is_ok());
    let failed = InstalledTools::remove_environment(Err(io(IoErrorKind::NotFound)));
    assert!(matches!(failed, Err(Error::Io(_))));
}

#[test]
fn environments_replace_existing_ones() {
    let tools = tools_at("/tools");
    for removed in [Ok(()), Err(io(IoErrorKind::NotFound))] {
        let request = tools.create_environment(&name("ruff"), removed).unwrap();
        assert_eq!(request.path, "/tools/ruff");
        assert_eq!(request.prompt, None);
        assert!(!request.system_site_packages && !request.allow_existing && !request.relocatable);
    }
    let failed = tools.create_environment(&name("ruff"), Err(io(IoErrorKind::Other)));
    assert!(matches!(failed, Err(Error::Io(_))));
}

fn packages(list: &[(&str, &str)]) -> SitePackages {
    SitePackages {
        packages: list
            .iter()
            .map(|(package, version)| InstalledDist {
                name: name(package),
                version: version.to_string(),
                path: "/p".to_string(),
            })
            .collect(),
        scheme: Scheme {
            purelib: "/v/lib".to_string(),
            scripts: "/v/bin".to_string(),
            data: "/v".to_string(),
        },
    }
}

#[test]
fn the_version_is_that_of_the_first_package() {
    let tools = tools_at("/tools");
    let read =
        EnvironmentLookup::Found(Ok(packages(&[("a", "1"), ("ruff", "0.6"), ("ruff", "0.7")])));
    assert_eq!(tools.version(&name("ruff"), &read).unwrap(), "0.6");
    let error = tools.version(&name("black"), &read).unwrap_err();
    assert_eq!(error.message(), "Failed find package `black` in tool environment");
}

#[test]
fn the_version_needs_a_readable_environment() {
    let tools = tools_at("/tools");
    for lookup in [
        EnvironmentLookup::Missing("no environment".to_string()),
        EnvironmentLookup::InterpreterNotFound("no environment".to_string()),
        EnvironmentLookup::Failed("no environment".to_string()),
    ] {
        match tools.version(&name("ruff"), &lookup) {
            Err(Error::EnvironmentError(text)) => assert_eq!(text, "no environment"),
            other => panic!("{other:?}"),
        }
    }
    let unreadable = EnvironmentLookup::Found(Err("denied".to_string()));
    let error = tools.version(&name("ruff"), &unreadable).unwrap_err();
    assert_eq!(
        error.message(),
        "Failed to read tool environment packages at `/tools/ruff`: denied"
    );
}

#[test]
fn the_tools_directory_is_ignored_by_version_control() {
    let file = tools_at("/tools").gitignore();
    assert_eq!(file.path, "/tools/.gitignore");
    assert_eq!(file.contents, "*");
}

#[test]
fn initializing_accepts_what_is_there() {
    let init = |created, gitignore| tools_at("/tools").init(created, gitignore);
    assert_eq!(init(Ok(()), GitignoreWrite::Written).unwrap().root(), "/tools");
    let exists = GitignoreWrite::NotCreated(io(IoErrorKind::AlreadyExists));
    assert_eq!(init(Ok(()), exists).unwrap().root(), "/tools");
    let denied = GitignoreWrite::NotCreated(io(IoErrorKind::Other));
    assert!(matches!(init(Ok(()), denied), Err(Error::Io(_))));
    let unwritten = GitignoreWrite::NotWritten(io(IoErrorKind::AlreadyExists));
    assert!(matches!(init(Ok(()), unwritten), Err(Error::Io(_))));
    let failed = init(Err(io(IoErrorKind::Other)), GitignoreWrite::Written);
    assert!(matches!(failed, Err(Error::Io(_))));
}

#[test]
fn tools_are_shown_by_their_name() {
    let shown = |path: &str| InstalledTool::new(path.to_string()).unwrap().display();
    assert_eq!(shown("/tools/ruff"), "ruff");
    assert_eq!(shown("/tools/ruff/"), "ruff");
    assert_eq!(shown("/"), "/");
    assert_eq!(shown("tools/.."), "tools/..");
    assert_eq!(InstalledTool::new("/tools/ruff".to_string()).unwrap().path(), "/tools/ruff");
}

#[test]
fn errors_have_their_messages() {
    let text = |s: &str| s.to_string();
    let cases = [
        (Error::Io(io(IoErrorKind::Other)), "Other"),
        (
            Error::ReceiptWrite(text("/p"), text("e")),
            "Failed to update `uv-receipt.toml` at /p",
        ),
        (Error::VirtualEnvError(text("venv")), "venv"),
        (Error::EntrypointRead(text("bad")), "Failed to read package entry points bad"),
        (
            Error::DistInfoMissing(text("d"), text("/e")),
            "Failed to find dist-info directory `d` in environment at /e",
        ),
        (
            Error::MissingToolReceipt(text("t"), text("/r")),
            "Failed to find a receipt for tool `t` at /r",
        ),
        (Error::Serialization(text("ser")), "ser"),
    ];
    for (error, expected) in cases {
        assert_eq!(error.message(), expected);
    }
}
