use kernel_build::flags::{build_flags, Profile};

fn fixed_prefix() -> Vec<String> {
    [
        "-ffreestanding",
        "-fmodules-ts",
        "-nostdlib",
        "-fno-exceptions",
        "-fno-rtti",
        "-mabi=lp64d",
        "-mcmodel=medany",
        "-fno-use-cxa-atexit",
        "-std=c++20",
    ]
    .iter()
    .map(|f| f.to_string())
    .collect()
}

#[test]
fn flag_building_is_idempotent() {
    let rev = "abc123".to_string();
    let first = build_flags(Profile::Debug, Some(&rev));
    let second = build_flags(Profile::Debug, Some(&rev));
    assert_eq!(first, second);
    let third = build_flags(Profile::Release, None);
    let fourth = build_flags(Profile::Release, None);
    assert_eq!(third, fourth);
}

#[test]
fn release_without_revision_gets_fixed_prefix_only() {
    let flags = build_flags(Profile::Release, None);
    assert_eq!(flags, fixed_prefix());
    assert!(!flags.contains(&"-DDEBUG".to_string()));
    assert!(flags.iter().all(|f| !f.starts_with("-DG_HASH=")));
}

#[test]
fn debug_profile_appends_debug_define() {
    let flags = build_flags(Profile::Debug, None);
    let mut expected = fixed_prefix();
    expected.push("-DDEBUG".to_string());
    assert_eq!(flags, expected);
}

#[test]
fn revision_define_carries_revision_verbatim() {
    let rev = "deadbee".to_string();
    let flags = build_flags(Profile::Release, Some(&rev));
    let mut expected = fixed_prefix();
    expected.push("-DG_HASH=deadbee".to_string());
    assert_eq!(flags, expected);
}

#[test]
fn debug_then_revision_in_order() {
    let rev = "abc123".to_string();
    let flags = build_flags(Profile::Debug, Some(&rev));
    let mut expected = fixed_prefix();
    expected.push("-DDEBUG".to_string());
    expected.push("-DG_HASH=abc123".to_string());
    assert_eq!(flags, expected);
}
