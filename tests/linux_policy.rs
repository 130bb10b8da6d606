use birdcage::error::Error;
use birdcage::exception::Exception;
use birdcage::flags::{MountAttrFlags, NOEXEC, NOSUID, RDONLY};
use birdcage::linux::{path_has_symlinks, resolve_request, LinuxSandbox, LockStep};
use birdcage::mount_plan::plan_mounts;

fn flags_of(sandbox: &LinuxSandbox) -> Vec<u64> {
    sandbox.resolve_mounts(&None).iter().map(|r| r.flags.bits()).collect()
}

#[test]
fn new_sandbox_denies_everything() {
    let sandbox = LinuxSandbox::new();
    assert!(!sandbox.allow_networking());
    assert!(!sandbox.full_env());
    assert!(sandbox.env_exceptions().is_empty());
    assert!(sandbox.resolve_mounts(&None).is_empty());
    assert_eq!(
        sandbox.lock_steps(),
        vec![
            LockStep::RestrictEnvironment,
            LockStep::IsolateNetwork,
            LockStep::BuildMountNamespace,
            LockStep::RestoreIds,
            LockStep::ApplySyscallFilter,
            LockStep::SetNoNewPrivs,
        ]
    );
}

#[test]
fn read_is_read_only_and_no_exec() {
    let mut sandbox = LinuxSandbox::new();
    sandbox.update_bind_mount("/".to_string(), false, false);
    assert_eq!(flags_of(&sandbox), vec![RDONLY | NOEXEC]);
}

#[test]
fn grants_lift_restrictions_monotonically() {
    let mut sandbox = LinuxSandbox::new();
    sandbox.update_bind_mount("/".to_string(), true, false);
    assert_eq!(flags_of(&sandbox), vec![NOEXEC]);
    sandbox.update_bind_mount("/".to_string(), false, false);
    assert_eq!(flags_of(&sandbox), vec![NOEXEC]);
    sandbox.update_bind_mount("/".to_string(), false, true);
    assert_eq!(flags_of(&sandbox), vec![0]);
}

#[test]
fn read_after_write_and_read_keeps_write() {
    let mut once = LinuxSandbox::new();
    once.add_exception(Exception::WriteAndRead("/".to_string())).unwrap();
    let mut twice = LinuxSandbox::new();
    twice.add_exception(Exception::WriteAndRead("/".to_string())).unwrap();
    twice.add_exception(Exception::Read("/".to_string())).unwrap();
    assert_eq!(flags_of(&once), flags_of(&twice));
    assert_eq!(flags_of(&twice), vec![NOEXEC]);
}

#[test]
fn repeated_exceptions_are_added_once() {
    let mut sandbox = LinuxSandbox::new();
    for _ in 0..3 {
        sandbox.add_exception(Exception::Read("/".to_string())).unwrap();
        sandbox.add_exception(Exception::Environment("PATH".to_string())).unwrap();
    }
    assert_eq!(flags_of(&sandbox).len(), 1);
    assert_eq!(sandbox.env_exceptions(), &vec!["PATH".to_string()]);
}

#[test]
fn missing_path_is_invalid_and_changes_nothing() {
    let mut sandbox = LinuxSandbox::new();
    let err = sandbox.add_exception(Exception::Read("/nonexistent".to_string())).err();
    assert_eq!(err, Some(Error::InvalidPath("/nonexistent".to_string())));
    assert!(sandbox.resolve_mounts(&None).is_empty());
    let plan = plan_mounts(&sandbox.resolve_mounts(&None));
    assert!(plan.mounts.is_empty());
    assert!(plan.symlinks.is_empty());
    assert_eq!(sandbox.lock_steps().len(), 6);
}

#[test]
fn apply_exception_refuses_when_path_missing() {
    let mut sandbox = LinuxSandbox::new();
    let r = sandbox.apply_exception(Exception::ExecuteAndRead("/opt/x".to_string()), false);
    assert_eq!(r, Err(Error::InvalidPath("/opt/x".to_string())));
    assert!(sandbox.resolve_mounts(&None).is_empty());
    let r = sandbox.apply_exception(Exception::Networking, false);
    assert_eq!(r, Ok(()));
    assert!(sandbox.allow_networking());
}

#[test]
fn environment_exception_keeps_only_that_name() {
    let mut sandbox = LinuxSandbox::new();
    sandbox.add_exception(Exception::Environment("PATH".to_string())).unwrap();
    assert_eq!(sandbox.env_exceptions(), &vec!["PATH".to_string()]);
    assert_eq!(sandbox.lock_steps()[0], LockStep::RestrictEnvironment);
}

#[test]
fn full_environment_and_networking_skip_their_steps() {
    let mut sandbox = LinuxSandbox::new();
    sandbox.add_exception(Exception::FullEnvironment).unwrap();
    sandbox.add_exception(Exception::Networking).unwrap();
    assert!(sandbox.full_env());
    assert!(sandbox.allow_networking());
    assert_eq!(
        sandbox.lock_steps(),
        vec![
            LockStep::BuildMountNamespace,
            LockStep::RestoreIds,
            LockStep::ApplySyscallFilter,
            LockStep::SetNoNewPrivs,
        ]
    );
}

#[test]
fn write_and_networking_plan() {
    let mut sandbox = LinuxSandbox::new();
    sandbox.add_exception(Exception::WriteAndRead("/".to_string())).unwrap();
    sandbox.add_exception(Exception::Networking).unwrap();
    assert!(!sandbox.lock_steps().contains(&LockStep::IsolateNetwork));
    let plan = plan_mounts(&sandbox.resolve_mounts(&None));
    assert_eq!(plan.mounts.len(), 1);
    assert_eq!(plan.mounts[0].path, b"/".to_vec());
    assert_eq!(plan.mounts[0].flags, MountAttrFlags::from_bits_retain(NOEXEC | NOSUID));
}

#[test]
fn resolved_root_is_canonical() {
    let mut sandbox = LinuxSandbox::new();
    sandbox.add_exception(Exception::Read("/tmp/.".to_string())).unwrap();
    let resolved = sandbox.resolve_mounts(&None);
    let expected = std::path::Path::new("/tmp").canonicalize().unwrap();
    assert_eq!(resolved[0].canonical, Some(expected.to_str().unwrap().as_bytes().to_vec()));
}

#[test]
fn root_has_no_symlinks() {
    assert!(!path_has_symlinks(&"/".to_string()));
    assert!(!path_has_symlinks(&"/nonexistent-birdcage-path".to_string()));
}

#[test]
fn resolve_request_records_links() {
    let flags = MountAttrFlags::from_bits_retain(RDONLY);
    let r = resolve_request(&"/bin".to_string(), flags, Some(b"/usr/bin".to_vec()), true, &None);
    assert_eq!(r.canonical, Some(b"/usr/bin".to_vec()));
    assert_eq!(r.link, Some(b"/bin".to_vec()));
    assert_eq!(r.flags, flags);

    let r = resolve_request(&"/bin".to_string(), flags, Some(b"/usr/bin".to_vec()), false, &None);
    assert_eq!(r.link, None);

    let r = resolve_request(&"lnk/./x".to_string(), flags, Some(b"/t/x".to_vec()), true, &Some(b"/home".to_vec()));
    assert_eq!(r.link, Some(b"/home/lnk/x".to_vec()));

    let r = resolve_request(&"lnk".to_string(), flags, Some(b"/t".to_vec()), true, &None);
    assert_eq!(r.canonical, None);
    assert_eq!(r.link, None);

    let r = resolve_request(&"/gone".to_string(), flags, None, true, &None);
    assert_eq!(r.canonical, None);
    assert_eq!(r.link, None);
}
