use uv_tool::wheel::{CachedDirectory, WheelFilename};
use uv_tool::BuiltWheelMetadata;

fn directory(path: &str, wheel: Option<(&str, bool)>) -> CachedDirectory {
    CachedDirectory {
        path: path.to_string(),
        filename: wheel
            .map(|(stem, compatible)| WheelFilename { stem: stem.to_string(), compatible }),
    }
}

const PATH: &str = "/cache/typing_extensions-4.8.0-py3-none-any.whl";
const STEM: &str = "typing_extensions-4.8.0-py3-none-any";

#[test]
fn a_wheel_is_read_from_its_directory() {
    let metadata = BuiltWheelMetadata::from_path(directory(PATH, Some((STEM, false)))).unwrap();
    assert_eq!(metadata.path, PATH);
    assert_eq!(metadata.target, format!("{PATH}/{STEM}"));
    assert_eq!(metadata.filename.stem, STEM);
    let copy = metadata.clone();
    assert_eq!((copy.path, copy.target), (metadata.path, metadata.target));
}

#[test]
fn other_directories_are_no_wheels() {
    assert!(BuiltWheelMetadata::from_path(directory("/cache/other", None)).is_none());
    assert!(BuiltWheelMetadata::from_path(directory("/", Some((STEM, true)))).is_none());
    assert!(BuiltWheelMetadata::from_path(directory("/cache/..", Some((STEM, true)))).is_none());
}

#[test]
fn the_name_of_a_wheel_is_the_last_component() {
    assert_eq!(BuiltWheelMetadata::wheel_text("/cache/x.whl"), Some("x.whl"));
    assert_eq!(BuiltWheelMetadata::wheel_text("/"), None);
}

#[test]
fn the_first_compatible_wheel_is_found() {
    let found = BuiltWheelMetadata::find_in_cache(vec![
        directory("/cache/junk", None),
        directory("/cache/a.whl", Some(("a", false))),
        directory("/", Some(("root", true))),
        directory("/cache/b.whl", Some(("b", true))),
        directory("/cache/c.whl", Some(("c", true))),
    ])
    .unwrap();
    assert_eq!(found.path, "/cache/b.whl");
    assert_eq!(found.target, "/cache/b.whl/b");
}

#[test]
fn no_compatible_wheel_is_no_result() {
    assert!(BuiltWheelMetadata::find_in_cache(vec![]).is_none());
    let only = directory("/cache/a.whl", Some(("a", false)));
    assert!(BuiltWheelMetadata::find_in_cache(vec![only]).is_none());
}
