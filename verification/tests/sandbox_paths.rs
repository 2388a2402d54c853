use shell_protocol::sandbox::{file_name, join_text, split_segments, DirPath, SandboxError};

fn dir(text: &str) -> DirPath {
    DirPath::from_absolute(text).unwrap()
}

fn down(root: &str, base: &str, rel: &str) -> Result<String, SandboxError> {
    DirPath::resolve_down(&dir(root), &dir(base), rel)
        .map(|d| String::from_utf8(d.to_bytes()).unwrap())
}

fn up(root: &str, base: &str) -> Result<String, SandboxError> {
    DirPath::resolve_up(&dir(root), &dir(base)).map(|d| String::from_utf8(d.to_bytes()).unwrap())
}

#[test]
fn absolute_paths_are_normalised() {
    assert_eq!(dir("/srv/root").to_bytes(), b"/srv/root".to_vec());
    assert_eq!(dir("/srv/root").depth(), 2);
    assert_eq!(dir("/").to_bytes(), b"/".to_vec());
    assert_eq!(dir("/").depth(), 0);
    assert_eq!(dir("//a/./b/").to_bytes(), b"/a/b".to_vec());
    assert_eq!(dir("/a/b/../c").to_bytes(), b"/a/c".to_vec());
    assert_eq!(DirPath::filesystem_root().to_bytes(), b"/".to_vec());
}

#[test]
fn paths_that_are_not_absolute_or_go_above_the_top_are_refused() {
    assert_eq!(DirPath::from_absolute("srv/root"), None);
    assert_eq!(DirPath::from_absolute(""), None);
    assert_eq!(DirPath::from_absolute("/.."), None);
    assert_eq!(DirPath::from_absolute("/a/../.."), None);
}

#[test]
fn descending_paths_resolve_below_the_base() {
    assert_eq!(down("/srv/root", "/srv/root", "a"), Ok("/srv/root/a".to_string()));
    assert_eq!(down("/srv/root", "/srv/root", "a/b/c"), Ok("/srv/root/a/b/c".to_string()));
    assert_eq!(down("/srv/root", "/srv/root/a", "b"), Ok("/srv/root/a/b".to_string()));
    assert_eq!(down("/", "/", "etc"), Ok("/etc".to_string()));
}

#[test]
fn empty_segments_and_dots_stay_in_place() {
    assert_eq!(down("/srv/root", "/srv/root", ""), Ok("/srv/root".to_string()));
    assert_eq!(down("/srv/root", "/srv/root", "."), Ok("/srv/root".to_string()));
    assert_eq!(down("/srv/root", "/srv/root", "a//b/./"), Ok("/srv/root/a/b".to_string()));
}

#[test]
fn dot_dot_inside_the_sandbox_goes_up() {
    assert_eq!(down("/srv/root", "/srv/root", "a/.."), Ok("/srv/root".to_string()));
    assert_eq!(down("/srv/root", "/srv/root", "a/../b"), Ok("/srv/root/b".to_string()));
    assert_eq!(down("/srv/root", "/srv/root/a/b", ".."), Ok("/srv/root/a".to_string()));
    assert_eq!(down("/srv/root", "/srv/root/a/b", "../.."), Ok("/srv/root".to_string()));
}

#[test]
fn escapes_are_refused() {
    assert_eq!(down("/srv/root", "/srv/root", ".."), Err(SandboxError::OutsideRoot));
    assert_eq!(down("/srv/root", "/srv/root", "../.."), Err(SandboxError::OutsideRoot));
    assert_eq!(down("/srv/root", "/srv/root", "a/../.."), Err(SandboxError::OutsideRoot));
    assert_eq!(down("/srv/root", "/srv/root", "../root"), Err(SandboxError::OutsideRoot));
    assert_eq!(down("/srv/root", "/srv/root", "../root/a"), Err(SandboxError::OutsideRoot));
    assert_eq!(down("/srv/root", "/srv/root/a", "../../x"), Err(SandboxError::OutsideRoot));
    assert_eq!(down("/srv/root", "/srv/root", "a/b/../../../etc"), Err(SandboxError::OutsideRoot));
    assert_eq!(down("/", "/", ".."), Err(SandboxError::OutsideRoot));
}

#[test]
fn absolute_paths_must_lie_inside_the_sandbox() {
    assert_eq!(down("/srv/root", "/srv/root/a", "/srv/root/b"), Ok("/srv/root/b".to_string()));
    assert_eq!(down("/srv/root", "/srv/root", "/srv/root"), Ok("/srv/root".to_string()));
    assert_eq!(down("/srv/root", "/srv/root", "/etc"), Err(SandboxError::OutsideRoot));
    assert_eq!(down("/srv/root", "/srv/root", "/srv"), Err(SandboxError::OutsideRoot));
    assert_eq!(down("/srv/root", "/srv/root", "/"), Err(SandboxError::OutsideRoot));
    assert_eq!(down("/srv/root", "/srv/root", "/srv/rootx"), Err(SandboxError::OutsideRoot));
    assert_eq!(down("/srv/root", "/srv/root", "/srv/root/../root"), Err(SandboxError::OutsideRoot));
}

#[test]
fn going_up_from_the_root_fails() {
    assert_eq!(up("/srv/root", "/srv/root"), Err(SandboxError::AboveRoot));
    assert_eq!(up("/", "/"), Err(SandboxError::NoParent));
}

#[test]
fn going_up_from_below_the_root_succeeds() {
    assert_eq!(up("/srv/root", "/srv/root/a"), Ok("/srv/root".to_string()));
    assert_eq!(up("/srv/root", "/srv/root/a/b"), Ok("/srv/root/a".to_string()));
    assert_eq!(up("/", "/a"), Ok("/".to_string()));
}

#[test]
fn going_up_from_outside_the_sandbox_fails() {
    assert_eq!(up("/srv/root", "/srv/other/a"), Err(SandboxError::AboveRoot));
    assert_eq!(up("/srv/root", "/"), Err(SandboxError::NoParent));
}

#[test]
fn containment_goes_by_whole_components() {
    assert!(dir("/srv/root/a").is_within(&dir("/srv/root")));
    assert!(dir("/srv/root").is_within(&dir("/srv/root")));
    assert!(dir("/srv/root").is_within(&dir("/")));
    assert!(!dir("/srv/rootx").is_within(&dir("/srv/root")));
    assert!(!dir("/srv").is_within(&dir("/srv/root")));
    assert!(dir("/a/b").same_as(&dir("/a/./b/")));
    assert!(!dir("/a/b").same_as(&dir("/a")));
    assert!(!dir("/a/b").same_as(&dir("/a/c")));
    assert_eq!(dir("/a/b").duplicate(), dir("/a/b"));
}

#[test]
fn raw_joins_check_nothing() {
    let root = dir("/srv/root");
    assert_eq!(root.join_raw("a.txt"), b"/srv/root/a.txt".to_vec());
    assert_eq!(root.join_raw("sub/a.txt"), b"/srv/root/sub/a.txt".to_vec());
    assert_eq!(root.join_raw("../x"), b"/srv/root/../x".to_vec());
    assert_eq!(root.join_raw("/etc/passwd"), b"/etc/passwd".to_vec());
    assert_eq!(root.join_raw(""), b"/srv/root/".to_vec());
    assert_eq!(dir("/").join_raw("a"), b"/a".to_vec());
    assert_eq!(join_text(b"/srv/root/", b"a"), b"/srv/root/a".to_vec());
    assert_eq!(join_text(b"", b"a"), b"a".to_vec());
    assert_eq!(join_text(b".", b"a"), b"./a".to_vec());
    assert_eq!(join_text(b"rel", b"a"), b"rel/a".to_vec());
}

#[test]
fn texts_split_at_every_slash() {
    assert_eq!(split_segments(b""), vec![b"".to_vec()]);
    assert_eq!(split_segments(b"a"), vec![b"a".to_vec()]);
    assert_eq!(split_segments(b"/"), vec![b"".to_vec(), b"".to_vec()]);
    assert_eq!(
        split_segments(b"a//b/"),
        vec![b"a".to_vec(), b"".to_vec(), b"b".to_vec(), b"".to_vec()]
    );
}

#[test]
fn file_names_are_the_last_real_component() {
    assert_eq!(file_name(b"/a/b.txt"), Some(b"b.txt".to_vec()));
    assert_eq!(file_name(b"b.txt"), Some(b"b.txt".to_vec()));
    assert_eq!(file_name(b"/a/b/"), Some(b"b".to_vec()));
    assert_eq!(file_name(b"/a/b/."), Some(b"b".to_vec()));
    assert_eq!(file_name(b"/a/b//./"), Some(b"b".to_vec()));
    assert_eq!(file_name(b"/a/.."), None);
    assert_eq!(file_name(b".."), None);
    assert_eq!(file_name(b"/"), None);
    assert_eq!(file_name(b""), None);
    assert_eq!(file_name(b"."), None);
    assert_eq!(file_name(b"/a/..."), Some(b"...".to_vec()));
}

#[test]
fn the_text_of_a_path_names_the_path() {
    for text in ["/", "/a", "/srv/root", "/a/b/c/d"] {
        let path = dir(text);
        let rendered = String::from_utf8(path.to_bytes()).unwrap();
        assert_eq!(rendered, text);
        assert_eq!(DirPath::from_absolute(&rendered), Some(path.clone()));
    }
}
