use gloves::utils::{dir_exist, file_exist, path_absolute, FsPath};

#[test]
fn test_dir_exist() {
    let exist_dir = FsPath::from_text("./");

    assert_eq!(dir_exist(&exist_dir), true);

    let non_exist_dir = FsPath::from_text("./non_exist");

    assert_ne!(dir_exist(&non_exist_dir), true);
}

#[test]
fn test_file_exist() {
    let exist_file = FsPath::from_text("./src/lib.rs");

    assert_eq!(file_exist(&exist_file), true);

    let non_exist_file = FsPath::from_text("./non_exist_file.odgj");

    assert_ne!(file_exist(&non_exist_file), true);
}

#[test]
fn test_path_absolute() {
    let dir = FsPath::from_text("./");
    let abs = path_absolute(&dir);

    assert_eq!(abs.is_absolute(), true);
    assert_ne!(abs.is_relative(), true);
}

#[test]
fn absolute_path_kept_unchanged() {
    let p = FsPath::from_text("/tmp/project");
    let once = path_absolute(&p);
    assert_eq!(once.text(), "/tmp/project");
    let twice = path_absolute(&once);
    assert_eq!(twice.text(), "/tmp/project");
}

#[test]
fn join_adds_a_separator_only_when_needed() {
    assert_eq!(FsPath::from_text("mytoken").join("gloves.toml").text(), "mytoken/gloves.toml");
    assert_eq!(FsPath::from_text("mytoken/").join("gloves.toml").text(), "mytoken/gloves.toml");
    assert_eq!(FsPath::from_text("").join("gloves.toml").text(), "gloves.toml");
}

#[test]
fn file_name_takes_the_last_component() {
    assert_eq!(FsPath::from_text("/home/user/mytoken").file_name(), Some("mytoken".to_string()));
    assert_eq!(FsPath::from_text("./mytoken").file_name(), Some("mytoken".to_string()));
    assert_eq!(FsPath::from_text("mytoken///").file_name(), Some("mytoken".to_string()));
    assert_eq!(FsPath::from_text("/").file_name(), None);
    assert_eq!(FsPath::from_text(".").file_name(), None);
    assert_eq!(FsPath::from_text("a/..").file_name(), None);
}

#[test]
fn contains_text_finds_runs() {
    assert!(FsPath::from_text("./contracts/Foo.sol").contains_text(".sol"));
    assert!(!FsPath::from_text("./contracts/notes.txt").contains_text(".sol"));
    assert!(FsPath::from_text("x.solidity").contains_text(".sol"));
}
