use birdcage::error::Error;
use birdcage::exception::Exception;
use birdcage::macos::{quote_path, MacSandbox, DEFAULT_RULE};

fn profile_text(sandbox: &MacSandbox) -> String {
    String::from_utf8(sandbox.profile().clone()).unwrap()
}

#[test]
fn profile_starts_with_default_rules() {
    let sandbox = MacSandbox::new();
    assert_eq!(profile_text(&sandbox), DEFAULT_RULE);
    assert!(DEFAULT_RULE.starts_with("(version 1)\n(import \"system.sb\")\n"));
    assert!(DEFAULT_RULE.ends_with("(system-network)\n"));
}

#[test]
fn quoting_escapes_and_strips() {
    assert_eq!(quote_path(b"/tt/in\\a\"x"), b"\"/tt/in\\\\a\\\"x\"".to_vec());
    assert_eq!(quote_path(b"/tmp/"), b"\"/tmp\"".to_vec());
    assert_eq!(quote_path(b"/"), b"\"/\"".to_vec());
    assert_eq!(quote_path(b"//"), b"\"/\"".to_vec());
}

#[test]
fn execute_and_read_adds_read_then_exec() {
    let mut sandbox = MacSandbox::new();
    let r = sandbox.append_exception(Exception::ExecuteAndRead("/bin".to_string()), Some(b"/bin".to_vec()));
    assert_eq!(r, Ok(()));
    let text = profile_text(&sandbox);
    let read = text.find("(allow file-read* (subpath \"/bin\"))\n").unwrap();
    let exec = text.find("(allow process-exec (subpath \"/bin\"))\n").unwrap();
    assert!(read < exec);
    assert_eq!(
        &text[DEFAULT_RULE.len()..],
        "(allow file-read* (subpath \"/bin\"))\n(allow process-exec (subpath \"/bin\"))\n"
    );
}

#[test]
fn write_and_read_adds_read_then_write() {
    let mut sandbox = MacSandbox::new();
    sandbox.append_exception(Exception::WriteAndRead("w".to_string()), Some(b"/tmp/w/".to_vec())).unwrap();
    assert_eq!(
        &profile_text(&sandbox)[DEFAULT_RULE.len()..],
        "(allow file-read* (subpath \"/tmp/w\"))\n(allow file-write* (subpath \"/tmp/w\"))\n"
    );
}

#[test]
fn networking_rule() {
    let mut sandbox = MacSandbox::new();
    sandbox.add_exception(Exception::Networking).unwrap();
    assert_eq!(&profile_text(&sandbox)[DEFAULT_RULE.len()..], "(allow network*)\n");
}

#[test]
fn unresolvable_path_leaves_profile_unchanged() {
    let mut sandbox = MacSandbox::new();
    let r = sandbox.append_exception(Exception::Read("/x".to_string()), None);
    assert_eq!(r, Err(Error::InvalidPath("/x".to_string())));
    assert_eq!(profile_text(&sandbox), DEFAULT_RULE);
    let err = sandbox.add_exception(Exception::Read("/nonexistent".to_string())).err();
    assert_eq!(err, Some(Error::InvalidPath("/nonexistent".to_string())));
    assert_eq!(profile_text(&sandbox), DEFAULT_RULE);
}

#[test]
fn environment_exceptions_do_not_touch_profile() {
    let mut sandbox = MacSandbox::new();
    sandbox.add_exception(Exception::Environment("HOME".to_string())).unwrap();
    sandbox.add_exception(Exception::FullEnvironment).unwrap();
    assert_eq!(sandbox.env_exceptions(), &vec!["HOME".to_string()]);
    assert!(sandbox.full_env());
    assert_eq!(profile_text(&sandbox), DEFAULT_RULE);
}

#[test]
fn canonical_root_rule() {
    let mut sandbox = MacSandbox::new();
    sandbox.add_exception(Exception::Read("/".to_string())).unwrap();
    assert_eq!(&profile_text(&sandbox)[DEFAULT_RULE.len()..], "(allow file-read* (subpath \"/\"))\n");
}

#[test]
fn preamble_is_exactly_the_fixed_lines() {
    let expected = "(version 1)\n(import \"system.sb\")\n(deny default)\n(allow mach*)\n(allow ipc*)\n\
(allow signal (target others))\n(allow process-fork)\n(allow sysctl*)\n(allow system*)\n\
(allow file-read-metadata)\n(system-network)\n";
    assert_eq!(profile_text(&MacSandbox::new()), expected);
}

#[test]
fn repeated_environment_names_are_kept_once() {
    let mut sandbox = MacSandbox::new();
    sandbox.add_exception(Exception::Environment("PATH".to_string())).unwrap();
    sandbox.add_exception(Exception::Environment("PATH".to_string())).unwrap();
    assert_eq!(sandbox.env_exceptions(), &vec!["PATH".to_string()]);
    assert!(!sandbox.full_env());
}

#[test]
fn read_after_write_adds_only_a_known_rule() {
    let mut sandbox = MacSandbox::new();
    sandbox.append_exception(Exception::WriteAndRead("/w".to_string()), Some(b"/w".to_vec())).unwrap();
    sandbox.append_exception(Exception::Read("/w".to_string()), Some(b"/w".to_vec())).unwrap();
    let text = profile_text(&sandbox);
    let lines: Vec<&str> = text[DEFAULT_RULE.len()..].lines().collect();
    assert_eq!(
        lines,
        vec![
            "(allow file-read* (subpath \"/w\"))",
            "(allow file-write* (subpath \"/w\"))",
            "(allow file-read* (subpath \"/w\"))",
        ]
    );
}
