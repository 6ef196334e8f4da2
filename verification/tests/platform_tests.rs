use migration_engine::platform::Macos;

#[test]
fn user_id_is_fetched_once_and_cached() {
    let mut os = Macos::new();
    assert_eq!(os.get_user_id(501), 501);
    // a later, different answer from the system is ignored: the cache wins
    assert_eq!(os.get_user_id(0), 501);
}

#[test]
fn sudo_path_lookup_is_cached_even_when_absent() {
    let mut os = Macos::new();
    assert_eq!(os.get_sudo_path(None), None);
    assert_eq!(os.get_sudo_path(Some("/usr/bin/sudo".to_string())), None);

    let mut os2 = Macos::new();
    assert_eq!(
        os2.get_sudo_path(Some("/usr/bin/sudo".to_string())),
        Some("/usr/bin/sudo".to_string())
    );
    assert_eq!(os2.get_sudo_path(None), Some("/usr/bin/sudo".to_string()));
}
