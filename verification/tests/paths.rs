use anderson::path::{directory, file_name, has_prefix, join, parent, path_components, Component};
use std::path::Path;

fn samples() -> Vec<&'static str> {
    vec![
        "", "/", "//", ".", "..", "./", "../", "/.", "/..", "a", "a/", "a//", "/a", "/a/", "//a",
        "a/b", "a/./b", "a/../b", "./a", "./a/b", "a/.", "a/..", "/a/b/c.txt", "/a//b///c",
        "/./a", "/../a", ".a", "..a", "...", "a/...", "a/.b", "/a/b/.", "/a/b/./", "/a/b/..",
        "h\u{e9}/x", " ", "/ /", "././a", "a/././b/.",
    ]
}

fn spelled(component: &Component) -> String {
    match component {
        Component::RootDir => "RootDir".to_string(),
        Component::CurDir => "CurDir".to_string(),
        Component::ParentDir => "ParentDir".to_string(),
        Component::Normal(name) => format!("Normal({:?})", String::from_utf8_lossy(name)),
    }
}

#[test]
fn components_agree_with_std() {
    for path in samples() {
        let ours: Vec<String> = path_components(path.as_bytes()).iter().map(spelled).collect();
        let theirs: Vec<String> = Path::new(path)
            .components()
            .map(|c| format!("{c:?}"))
            .collect();
        assert_eq!(ours, theirs, "components of {path:?}");
    }
}

#[test]
fn parents_and_names_agree_with_std() {
    for path in samples() {
        let ours = parent(path.as_bytes()).map(|p| String::from_utf8_lossy(&p).into_owned());
        let theirs = Path::new(path).parent().map(|p| p.display().to_string());
        assert_eq!(ours, theirs, "parent of {path:?}");
        let ours = file_name(path.as_bytes()).map(|n| String::from_utf8_lossy(&n).into_owned());
        let theirs = Path::new(path)
            .file_name()
            .map(|n| n.to_string_lossy().into_owned());
        assert_eq!(ours, theirs, "file name of {path:?}");
    }
}

#[test]
fn joins_and_prefixes_agree_with_std() {
    for path in samples() {
        let ours = join(path.as_bytes(), b"leaf");
        let theirs = Path::new(path).join("leaf").display().to_string();
        assert_eq!(String::from_utf8_lossy(&ours), theirs, "join onto {path:?}");
        for prefix in samples() {
            let ours = has_prefix(
                &path_components(path.as_bytes()),
                &path_components(prefix.as_bytes()),
            );
            let theirs = Path::new(path).starts_with(Path::new(prefix));
            assert_eq!(ours, theirs, "{path:?} starts with {prefix:?}");
        }
    }
}

#[test]
fn directory_falls_back_to_the_current_one() {
    assert_eq!(directory(b"/a/b"), b"/a".to_vec());
    assert_eq!(directory(b"f"), b".".to_vec());
    assert_eq!(directory(b"/"), b".".to_vec());
    assert_eq!(directory(b""), b".".to_vec());
    assert_eq!(directory(b"/f"), b"/".to_vec());
}

#[test]
fn entry_has_the_components_of_its_directory_and_its_name() {
    for path in samples() {
        let mut expected: Vec<String> =
            path_components(path.as_bytes()).iter().map(spelled).collect();
        expected.push("Normal(\"leaf\")".to_string());
        let joined = join(path.as_bytes(), b"leaf");
        let ours: Vec<String> = path_components(&joined).iter().map(spelled).collect();
        assert_eq!(ours, expected, "entry of {path:?}");
    }
}
