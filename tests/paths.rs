use birdcage::path::{absolute, ancestors, mirror_tree, normalize_path, path_components};

#[test]
fn normalize_drops_dots_and_resolves_parents() {
    assert_eq!(normalize_path(b"/a/./b/../c"), b"/a/c".to_vec());
    assert_eq!(normalize_path(b"/.."), b"/".to_vec());
    assert_eq!(normalize_path(b"a/../.."), b"".to_vec());
    assert_eq!(normalize_path(b"//a//b/"), b"/a/b".to_vec());
    assert_eq!(normalize_path(b"./x"), b"x".to_vec());
    assert_eq!(normalize_path(b""), b"".to_vec());
}

#[test]
fn absolute_keeps_double_slash_only() {
    assert_eq!(absolute(b"//a/b", b"/cwd"), b"//a/b".to_vec());
    assert_eq!(absolute(b"///a/b", b"/cwd"), b"/a/b".to_vec());
    assert_eq!(absolute(b"/a/../b", b"/cwd"), b"/a/../b".to_vec());
}

#[test]
fn absolute_prepends_working_directory() {
    assert_eq!(absolute(b"a/./b", b"/home/u"), b"/home/u/a/b".to_vec());
    assert_eq!(absolute(b"./a", b"/"), b"/a".to_vec());
    assert_eq!(absolute(b".", b"/home/u"), b"/home/u".to_vec());
}

#[test]
fn absolute_keeps_trailing_separator() {
    assert_eq!(absolute(b"a/", b"/w"), b"/w/a/".to_vec());
    assert_eq!(absolute(b"/a/b/", b"/w"), b"/a/b/".to_vec());
    assert_eq!(absolute(b"/", b"/w"), b"/".to_vec());
}

#[test]
fn components_skip_empty_and_dot() {
    let cs = path_components(b"/usr//./lib/../bin/");
    assert_eq!(cs, vec![b"usr".to_vec(), b"lib".to_vec(), b"..".to_vec(), b"bin".to_vec()]);
}

#[test]
fn ancestors_from_path_to_root() {
    let a = ancestors(b"/usr/local/bin");
    assert_eq!(
        a,
        vec![
            b"/usr/local/bin".to_vec(),
            b"/usr/local".to_vec(),
            b"/usr".to_vec(),
            b"/".to_vec(),
        ]
    );
}

#[test]
fn mirror_tree_replicates_each_level() {
    let steps = mirror_tree(b"/usr/bin", b"/tmp/root");
    assert_eq!(steps.len(), 2);
    assert_eq!(steps[0].source, b"/usr".to_vec());
    assert_eq!(steps[0].target, b"/tmp/root/usr".to_vec());
    assert_eq!(steps[1].source, b"/usr/bin".to_vec());
    assert_eq!(steps[1].target, b"/tmp/root/usr/bin".to_vec());
    assert!(mirror_tree(b"/", b"/tmp/root").is_empty());
}
