use uv_tool::error::{IoError, IoErrorKind};
use uv_tool::path::{join, normalize_absolute_path};
use uv_tool::resources::{
    executable_from_path, manpage_from_path, only_executables, record_resources, RecordEntry,
    RecordError,
};
use uv_tool::site_packages::{
    find_dist_info, find_flagged, record_path, InstalledDist, Scheme, SitePackages,
};
use uv_tool::{entrypoint_paths, find_resources, resource_paths, Error, PackageName, Resource};

fn name(text: &str) -> PackageName {
    PackageName::from_str(text).unwrap()
}

fn record(paths: &[&str]) -> Vec<RecordEntry> {
    paths.iter().map(|path| RecordEntry { path: path.to_string() }).collect()
}

fn scheme(purelib: &str, scripts: &str, data: &str) -> Scheme {
    Scheme { purelib: purelib.to_string(), scripts: scripts.to_string(), data: data.to_string() }
}

fn venv() -> Scheme {
    scheme("/venv/lib/python3.12/site-packages", "/venv/bin", "/venv")
}

fn dist(package: &str, version: &str, path: &str) -> InstalledDist {
    InstalledDist { name: name(package), version: version.to_string(), path: path.to_string() }
}

fn site() -> SitePackages {
    SitePackages {
        packages: vec![
            dist("other", "1.0", "/p/other.dist-info"),
            dist("tool", "1.0", "/p/tool-1.0.dist-info"),
            dist("tool", "2.0.0", "/p/tool-2.0.0.dist-info"),
        ],
        scheme: venv(),
    }
}

fn entry(name: &str, path: &str) -> (String, String) {
    (name.to_string(), path.to_string())
}

const FILES: [&str; 7] = [
    "../../../bin/tool",
    "tool/__init__.py",
    "../../../share/man/man1/tool.1",
    "../../../share/doc/tool",
    "../../../bin/tool-extra",
    "../../../share/man/1/tool.1",
    "tool-1.0.dist-info/RECORD",
];

fn expected() -> Vec<Resource<(String, String)>> {
    vec![
        Resource::Executable(entry("tool", "/venv/bin/tool")),
        Resource::Manpage(entry("man1/tool.1", "/venv/share/man/man1/tool.1")),
        Resource::Executable(entry("tool-extra", "/venv/bin/tool-extra")),
    ]
}

#[test]
fn executables_lie_below_the_scripts() {
    assert_eq!(executable_from_path("../../../bin/tool", "../../../bin"), Some("tool"));
    assert_eq!(executable_from_path("../../../bin/a/b", "../../../bin"), Some("a/b"));
    assert_eq!(executable_from_path("../../../binary/tool", "../../../bin"), None);
    assert_eq!(executable_from_path("tool/x.py", "../../../bin"), None);
}

#[test]
fn manpages_lie_in_a_section() {
    let below = |path| manpage_from_path(path, "../..");
    assert_eq!(below("../../share/man/man1/tool.1"), Some("share/man/man1/tool.1"));
    assert_eq!(below("../../share/man/man9/tool.9"), Some("share/man/man9/tool.9"));
    assert_eq!(below("../../share/man/man0/x"), Some("share/man/man0/x"));
    assert_eq!(below("../../share/man/manman3/x"), None);
    assert_eq!(below("../../share/man/5/x"), None);
    assert_eq!(below("../../share/man/man1/sub/x"), None);
    assert_eq!(manpage_from_path("../../../share/man/1/black.1", "../../.."), None);
    assert_eq!(manpage_from_path("../../../share/man/man1/sub/black.1", "../../.."), None);
    assert_eq!(below("../../share/man/man1"), None);
    assert_eq!(below("../../share/man/man12/x"), None);
    assert_eq!(below("../../share/man/manx/x"), None);
    assert_eq!(below("../../share/man/man/x"), None);
    assert_eq!(below("../../share/info/man1/x"), None);
    assert_eq!(below("../share/man/man1/x"), None);
}

#[test]
fn resources_are_found_in_order() {
    assert_eq!(record_resources(&record(&FILES), &venv()).unwrap(), expected());
}

#[test]
fn nothing_is_found_in_an_empty_record() {
    assert_eq!(record_resources(&record(&[]), &venv()).unwrap(), vec![]);
}

#[test]
fn two_records_behind_each_other_give_both_results() {
    let mut first = record_resources(&record(&FILES[..3]), &venv()).unwrap();
    first.extend(record_resources(&record(&FILES[3..]), &venv()).unwrap());
    assert_eq!(first, record_resources(&record(&FILES), &venv()).unwrap());
}

#[test]
fn resources_are_the_recorded_files() {
    let scheme = venv();
    for (path, expected) in
        [("../../../bin/tool", "/venv/bin/tool"), ("../../../share/man/man1/t", "/venv/share/man/man1/t")]
    {
        let found = record_resources(&record(&[path]), &scheme).unwrap();
        let found = match &found[0] {
            Resource::Executable(entry) | Resource::Manpage(entry) => entry.1.clone(),
        };
        assert_eq!(found, expected);
        assert_eq!(normalize_absolute_path(&join(&scheme.purelib, path)), Some(found));
    }
}

#[test]
fn names_are_what_stands_behind_the_last_slash() {
    let found = record_resources(
        &record(&["../../../bin/sub/tool", "../../../bin/", "../../../bin//deep//tool"]),
        &venv(),
    )
    .unwrap();
    assert_eq!(
        found,
        vec![
            Resource::Executable(entry("tool", "/venv/bin/sub/tool")),
            Resource::Executable(entry("", "/venv/bin/")),
            Resource::Executable(entry("tool", "/venv/bin/deep//tool")),
        ]
    );
}

#[test]
fn scripts_among_the_packages_are_all_executables() {
    let flat = scheme("/flat", "/flat", "/flat");
    let found = record_resources(&record(&["x.py", "share/man/man1/x.1"]), &flat).unwrap();
    assert_eq!(
        found,
        vec![
            Resource::Executable(entry("x.py", "/flat/x.py")),
            Resource::Executable(entry("x.1", "/flat/share/man/man1/x.1")),
        ]
    );
}

#[test]
fn directories_out_of_reach_are_an_error() {
    let bad_scripts = scheme("/a/lib", "bin", "/a");
    match record_resources(&record(&FILES), &bad_scripts) {
        Err(Error::Io(error)) => {
            assert_eq!(error.kind, IoErrorKind::Other);
            assert_eq!(error.message, "Could not find relative path for: bin");
        }
        other => panic!("{other:?}"),
    }
    let bad_data = scheme("/../lib", "/../lib/bin", "/b");
    match record_resources(&record(&FILES), &bad_data) {
        Err(error) => assert_eq!(error.message(), "Could not find relative path for: /b"),
        other => panic!("{other:?}"),
    }
}

#[test]
fn relative_directories_work_by_their_common_start() {
    // From `./x` to `a/b`: the `.` is passed over, and the rest is climbed out of.
    let relative = scheme("./x", "a/b", "a");
    let found = record_resources(&record(&["a/../b/run"]), &relative).unwrap();
    assert_eq!(found, vec![Resource::Executable(entry("run", "a/b/run"))]);
    let absolute_scripts = scheme("lib", "/abs/bin", "data");
    let found = record_resources(&record(&["/abs/bin/run"]), &absolute_scripts).unwrap();
    assert_eq!(found, vec![Resource::Executable(entry("run", "/abs/bin/run"))]);
}

#[test]
fn relative_paths_are_those_of_pathdiff() {
    let dirs = [
        "/foo/bar", "/foo/bar/baz", "/foo/bar/quux", "/baz", "/", "foo", "bar", "./foo", ".", "",
        "..", "../x", "/a/../b", "a/./b",
    ];
    for scripts in dirs {
        for purelib in dirs {
            let expected = pathdiff::diff_paths(scripts, purelib);
            let found = record_resources(&record(&[]), &scheme(purelib, scripts, scripts));
            assert_eq!(found.is_ok(), expected.is_some(), "{scripts} {purelib}");
            if let Some(expected) = expected {
                let path = join(expected.to_str().unwrap(), "run");
                let found =
                    record_resources(&record(&[&path]), &scheme(purelib, scripts, scripts)).unwrap();
                assert_eq!(found, vec![Resource::Executable(entry("run", &join(scripts, "run")))]);
            }
        }
    }
}

#[test]
fn dist_info_is_found_by_name_and_version() {
    let site = site();
    assert_eq!(find_dist_info(&site, &name("tool"), "1.0").unwrap(), "/p/tool-1.0.dist-info");
    assert_eq!(find_dist_info(&site, &name("tool"), "2.0.0").unwrap(), "/p/tool-2.0.0.dist-info");
    for (package, version) in [("tool", "3.0"), ("absent", "1.0"), ("tool", "no version")] {
        match find_dist_info(&site, &name(package), version) {
            Err(Error::MissingToolPackage(missing)) => assert_eq!(missing.as_str(), package),
            other => panic!("{other:?}"),
        }
    }
}

#[test]
fn versions_are_compared_by_their_meaning() {
    let site = site();
    assert_eq!(find_dist_info(&site, &name("tool"), "2").unwrap(), "/p/tool-2.0.0.dist-info");
    assert_eq!(find_dist_info(&site, &name("tool"), "v1.0.0").unwrap(), "/p/tool-1.0.dist-info");
}

#[test]
fn flags_decide_where_they_are_given() {
    let site = site();
    let found = find_flagged(&site, &name("tool"), &vec![true, true, true]);
    assert_eq!(found.unwrap(), "/p/tool-1.0.dist-info");
    let found = find_flagged(&site, &name("tool"), &vec![true, false, true]);
    assert_eq!(found.unwrap(), "/p/tool-2.0.0.dist-info");
    assert!(find_flagged(&site, &name("tool"), &vec![true, false, false]).is_err());
}

#[test]
fn the_record_lies_in_the_dist_info() {
    let path = record_path(&site(), &name("tool"), "1.0").unwrap();
    assert_eq!(path, "/p/tool-1.0.dist-info/RECORD");
    let error = record_path(&site(), &name("tool"), "9").unwrap_err();
    assert_eq!(error.message(), "Failed find package `tool` in tool environment");
}

#[test]
fn packages_are_found_by_name() {
    let site = site();
    let found: Vec<&str> =
        site.get_packages(&name("tool")).iter().map(|dist| dist.version.as_str()).collect();
    assert_eq!(found, vec!["1.0", "2.0.0"]);
    assert!(site.get_packages(&name("absent")).is_empty());
}

#[test]
fn resources_of_a_package() {
    let site = site();
    let found = find_resources(&site, &name("tool"), "1.0", Ok(record(&FILES))).unwrap();
    assert_eq!(found, expected());
    let found = resource_paths(&site, &name("tool"), "1.0", Ok(record(&FILES))).unwrap();
    assert_eq!(found, expected());
}

#[test]
fn entry_points_are_the_executables() {
    let found = entrypoint_paths(&site(), &name("tool"), "1.0", Ok(record(&FILES))).unwrap();
    assert_eq!(
        found,
        vec![entry("tool", "/venv/bin/tool"), entry("tool-extra", "/venv/bin/tool-extra")]
    );
    assert_eq!(found, only_executables(&expected()));
}

#[test]
fn a_missing_package_goes_before_an_unreadable_record() {
    let unreadable = || {
        Err(RecordError::Unreadable(IoError {
            kind: IoErrorKind::NotFound,
            message: "no RECORD".to_string(),
        }))
    };
    let error = find_resources(&site(), &name("absent"), "1.0", unreadable()).unwrap_err();
    assert!(matches!(error, Error::MissingToolPackage(_)));
    let error = find_resources(&site(), &name("tool"), "1.0", unreadable()).unwrap_err();
    assert_eq!(error.message(), "no RECORD");
    let error = entrypoint_paths(&site(), &name("tool"), "1.0", unreadable()).unwrap_err();
    assert!(matches!(error, Error::Io(_)));
}

#[test]
fn an_invalid_record_is_told() {
    let invalid = || Err(RecordError::Invalid("row 3".to_string()));
    let error = find_resources(&site(), &name("tool"), "1.0", invalid()).unwrap_err();
    assert!(matches!(error, Error::EntrypointRead(_)));
    assert_eq!(error.message(), "Failed to read package entry points row 3");
    let error = resource_paths(&site(), &name("tool"), "9", invalid()).unwrap_err();
    assert!(matches!(error, Error::MissingToolPackage(_)));
}

#[test]
fn resources_are_ordered_executables_first() {
    assert!(Resource::Executable("z") < Resource::Manpage("a"));
    assert!(Resource::Executable("a") < Resource::Executable("b"));
}
