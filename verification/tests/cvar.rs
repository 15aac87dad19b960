use qwasm2::cvar::{CVarFlags, CVarSystem};

fn value(cvars: &CVarSystem, h: qwasm2::cvar::CVarHandle) -> f32 {
    cvars.string(h).parse::<f32>().unwrap_or(0.0)
}

#[test]
fn get_creates_cvar() {
    let mut cvars = CVarSystem::new();
    let handle = cvars.get("test_var", "42", CVarFlags::empty());
    assert_eq!(cvars.string(handle), "42");
    assert_eq!(value(&cvars, handle), 42.0);
    assert_eq!(cvars.name(handle), "test_var");
    assert_eq!(cvars.default_value(handle), "42");
}

#[test]
fn get_existing_returns_same_handle() {
    let mut cvars = CVarSystem::new();
    let h1 = cvars.get("test", "1", CVarFlags::empty());
    let h2 = cvars.get("test", "2", CVarFlags::empty());
    assert_eq!(h1, h2);
    assert_eq!(cvars.string(h1), "1");
}

#[test]
fn get_existing_ors_flags() {
    let mut cvars = CVarSystem::new();
    cvars.get("test", "1", CVarFlags::ARCHIVE());
    cvars.get("test", "1", CVarFlags::USERINFO());
    let h = cvars.find("test").unwrap();
    let flags = cvars.flags(h);
    assert!(flags.contains(CVarFlags::ARCHIVE()));
    assert!(flags.contains(CVarFlags::USERINFO()));
}

#[test]
fn set_changes_value() {
    let mut cvars = CVarSystem::new();
    let handle = cvars.get("test_var", "1", CVarFlags::empty());
    cvars.set("test_var", "2");
    assert_eq!(value(&cvars, handle), 2.0);
    assert_eq!(cvars.string(handle), "2");
}

#[test]
fn noset_prevents_change() {
    let mut cvars = CVarSystem::new();
    let handle = cvars.get("locked", "1", CVarFlags::NOSET());
    cvars.set("locked", "2");
    assert_eq!(cvars.string(handle), "1");
}

#[test]
fn force_set_overrides_noset() {
    let mut cvars = CVarSystem::new();
    let handle = cvars.get("locked", "1", CVarFlags::NOSET());
    cvars.force_set("locked", "2");
    assert_eq!(cvars.string(handle), "2");
}

#[test]
fn latch_defers_change() {
    let mut cvars = CVarSystem::new();
    let handle = cvars.get("latched", "1", CVarFlags::LATCH());
    cvars.set("latched", "2");
    assert_eq!(cvars.string(handle), "1");
    cvars.apply_latched();
    assert_eq!(cvars.string(handle), "2");
}

#[test]
fn archive_flag_exports() {
    let mut cvars = CVarSystem::new();
    cvars.get("saved_var", "hello", CVarFlags::ARCHIVE());
    cvars.get("unsaved", "world", CVarFlags::empty());
    let output = cvars.write_archive();
    assert!(output.contains("set saved_var \"hello\""));
    assert!(!output.contains("unsaved"));
    assert_eq!(output, "set saved_var \"hello\"\n");
}

#[test]
fn userinfo_modified_flag() {
    let mut cvars = CVarSystem::new();
    cvars.get("name", "player", CVarFlags::USERINFO());
    assert!(!cvars.userinfo_modified());
    cvars.set("name", "newname");
    assert!(cvars.userinfo_modified());
    cvars.clear_userinfo_modified();
    assert!(!cvars.userinfo_modified());
}

#[test]
fn find_nonexistent_returns_none() {
    let cvars = CVarSystem::new();
    assert_eq!(cvars.find("nonexistent"), None);
}

#[test]
fn complete_partial_name() {
    let mut cvars = CVarSystem::new();
    cvars.get("gl_contrast", "1.0", CVarFlags::empty());
    cvars.get("gl_brightness", "1.0", CVarFlags::empty());
    cvars.get("sv_maxclients", "8", CVarFlags::empty());
    let result = cvars.complete("gl_");
    assert!(result.is_some());
    let name = result.unwrap();
    assert!(name.starts_with("gl_"));
    assert_eq!(name, "gl_brightness");
    assert_eq!(cvars.complete("zz"), None);
}

#[test]
fn value_parses_non_numeric_as_zero() {
    let mut cvars = CVarSystem::new();
    let handle = cvars.get("text", "hello", CVarFlags::empty());
    assert_eq!(value(&cvars, handle), 0.0);
}

#[test]
fn userinfo_string_format() {
    let mut cvars = CVarSystem::new();
    cvars.get("name", "player1", CVarFlags::USERINFO());
    cvars.get("skin", "male/grunt", CVarFlags::USERINFO());
    cvars.get("secret", "hidden", CVarFlags::empty());
    let info = cvars.userinfo_string();
    assert!(info.contains("name"));
    assert!(info.contains("player1"));
    assert!(info.contains("skin"));
    assert!(!info.contains("secret"));
    assert_eq!(info, "\\name\\player1\\skin\\male/grunt");
}

#[test]
fn serverinfo_and_unknown_handle() {
    let mut cvars = CVarSystem::new();
    cvars.get("hostname", "q2", CVarFlags::SERVERINFO() | CVarFlags::ARCHIVE());
    assert_eq!(cvars.serverinfo_string(), "\\hostname\\q2");
    let bogus = qwasm2::cvar::CVarHandle::from_raw(7);
    assert_eq!(cvars.string(bogus), "");
    assert_eq!(cvars.flags(bogus).bits(), 0);
}

#[test]
fn set_unknown_creates_with_value_as_default() {
    let mut cvars = CVarSystem::new();
    cvars.set("fresh", "5");
    let h = cvars.find("fresh").unwrap();
    assert_eq!(cvars.string(h), "5");
    assert_eq!(cvars.default_value(h), "5");
    assert_eq!(cvars.flags(h).bits(), 0);
    assert!(!cvars.userinfo_modified());
}
