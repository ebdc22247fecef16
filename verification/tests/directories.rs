use uv_tool::directories::{manpage_probes, DirectoryVariables};
use uv_tool::{find_executable_directory, find_manpage_directory, Error};

fn variables(
    bin: Option<&str>,
    xdg_bin: Option<&str>,
    xdg_data: Option<&str>,
    home: Option<&str>,
) -> DirectoryVariables {
    DirectoryVariables {
        uv_tool_bin_dir: bin.map(str::to_string),
        xdg_bin_home: xdg_bin.map(str::to_string),
        xdg_data_home: xdg_data.map(str::to_string),
        home_dir: home.map(str::to_string),
    }
}

fn executables(v: &DirectoryVariables) -> String {
    find_executable_directory(v).unwrap()
}

fn manpages(v: &DirectoryVariables, existing: &[&str]) -> String {
    let existing: Vec<String> = existing.iter().map(|path| path.to_string()).collect();
    find_manpage_directory(v, &existing).unwrap()
}

#[test]
fn executables_follow_the_order_of_settings() {
    let all = variables(Some("/uv"), Some("/xdg/bin"), Some("/xdg/data"), Some("/home/me"));
    assert_eq!(executables(&all), "/uv");
    let v = variables(None, Some("/xdg/bin"), Some("/xdg/data"), Some("/home/me"));
    assert_eq!(executables(&v), "/xdg/bin");
    let v = variables(None, None, Some("/xdg/data"), Some("/home/me"));
    assert_eq!(executables(&v), "/xdg/data/../bin");
    let v = variables(None, None, None, Some("/home/me"));
    assert_eq!(executables(&v), "/home/me/.local/bin");
}

#[test]
fn relative_settings_are_passed_over() {
    let v = variables(Some("uv"), Some(""), Some("./data"), Some("/home/me"));
    assert_eq!(executables(&v), "/home/me/.local/bin");
    assert_eq!(manpages(&v, &["/share", "/"]), "/home/me/.local/share/man");
    assert!(manpage_probes(&v).is_empty());
}

#[test]
fn no_setting_is_an_error() {
    let v = variables(Some("relative"), None, None, None);
    assert!(matches!(find_executable_directory(&v), Err(Error::NoExecutableDirectory)));
    let error = find_manpage_directory(&v, &vec![]).unwrap_err();
    assert_eq!(error.message(), "Failed to find a directory for executables");
}

#[test]
fn probes_are_the_share_directories() {
    let v = variables(Some("/opt/uv/bin"), Some("/home/me/.local/bin/"), None, None);
    assert_eq!(manpage_probes(&v), vec!["/opt/uv/share", "/home/me/.local/share"]);
    let v = variables(Some("/"), Some("/bin"), None, None);
    assert_eq!(manpage_probes(&v), vec!["/share"]);
}

#[test]
fn manpages_go_beside_the_executables_where_share_exists() {
    let v = variables(Some("/opt/uv/bin"), Some("/xdg/bin"), Some("/xdg/data"), Some("/home/me"));
    assert_eq!(manpages(&v, &["/opt/uv/share", "/xdg/share"]), "/opt/uv/share/man");
    assert_eq!(manpages(&v, &["/xdg/share"]), "/xdg/share/man");
    assert_eq!(manpages(&v, &[]), "/xdg/data/man");
    assert_eq!(manpages(&v, &["/opt/uv/share/man"]), "/xdg/data/man");
}

#[test]
fn manpages_fall_back_to_the_home_directory() {
    let v = variables(Some("/opt/uv/bin"), None, None, Some("/home/me"));
    assert_eq!(manpages(&v, &[]), "/home/me/.local/share/man");
}

#[test]
fn every_probe_that_exists_is_used() {
    let v = variables(Some("/a/b/bin"), None, None, None);
    let probes = manpage_probes(&v);
    assert_eq!(find_manpage_directory(&v, &probes).unwrap(), format!("{}/man", probes[0]));
}

#[test]
fn directories_are_absolute_where_the_home_directory_is() {
    for v in [
        variables(Some("/a/bin"), None, None, None),
        variables(Some("a"), Some("/b/../bin"), None, None),
        variables(None, Some("b"), Some("/c"), Some("/home/me")),
        variables(None, None, Some("c"), Some("/home/me")),
    ] {
        assert!(executables(&v).starts_with('/'));
        match find_manpage_directory(&v, &manpage_probes(&v)) {
            Ok(path) => assert!(path.starts_with('/')),
            Err(error) => panic!("{error:?}"),
        }
    }
}
