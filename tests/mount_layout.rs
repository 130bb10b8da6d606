use birdcage::flags::{MountAttrFlags, NOEXEC, NOSUID, RDONLY};
use birdcage::mount_plan::{plan_mounts, ResolvedMount};
use birdcage::order::path_less;

fn resolved(canonical: Option<&[u8]>, link: Option<&[u8]>, flags: u64) -> ResolvedMount {
    ResolvedMount {
        canonical: canonical.map(|c| c.to_vec()),
        link: link.map(|l| l.to_vec()),
        flags: MountAttrFlags::from_bits_retain(flags),
    }
}

#[test]
fn parents_are_mounted_first() {
    let plan = plan_mounts(&vec![
        resolved(Some(b"/usr/bin"), None, RDONLY | NOEXEC),
        resolved(Some(b"/zz"), None, RDONLY | NOEXEC),
        resolved(Some(b"/usr"), None, RDONLY),
        resolved(Some(b"/"), None, 0),
    ]);
    let paths: Vec<Vec<u8>> = plan.mounts.iter().map(|m| m.path.clone()).collect();
    assert_eq!(paths, vec![b"/".to_vec(), b"/usr".to_vec(), b"/zz".to_vec(), b"/usr/bin".to_vec()]);
    assert_eq!(plan.mounts[0].flags.bits(), NOSUID);
    assert_eq!(plan.mounts[1].flags.bits(), RDONLY | NOSUID);
    assert_eq!(plan.mounts[3].flags.bits(), RDONLY | NOEXEC | NOSUID);
}

#[test]
fn same_canonical_path_gets_all_grants() {
    let plan = plan_mounts(&vec![
        resolved(Some(b"/usr/bin"), Some(b"/bin"), RDONLY),
        resolved(Some(b"/usr/bin"), None, NOEXEC),
    ]);
    assert_eq!(plan.mounts.len(), 1);
    assert_eq!(plan.mounts[0].flags.bits(), NOSUID);
    assert_eq!(plan.symlinks.len(), 1);
    assert_eq!(plan.symlinks[0].link, b"/bin".to_vec());
    assert_eq!(plan.symlinks[0].target, b"/usr/bin".to_vec());
}

#[test]
fn unresolved_requests_are_dropped() {
    let plan = plan_mounts(&vec![resolved(None, Some(b"/gone"), RDONLY)]);
    assert!(plan.mounts.is_empty());
    assert!(plan.symlinks.is_empty());
}

#[test]
fn mount_order_compares_depth_then_bytes() {
    assert!(path_less(b"/z", b"/a/b"));
    assert!(path_less(b"/a", b"/b"));
    assert!(!path_less(b"/b", b"/a"));
    assert!(!path_less(b"/a", b"/a"));
    assert!(path_less(b"/a", b"/ab"));
}
