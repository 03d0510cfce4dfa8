use stcli_core::paths::{resolve_on_windows, resolve_with, PathError};

fn environment(entries: &[(&str, &str)]) -> Vec<(String, String)> {
    entries.iter().map(|(name, value)| (name.to_string(), value.to_string())).collect()
}

#[test]
fn stcli_home_overrides_platform_paths() {
    let paths = resolve_with(&environment(&[("STCLI_HOME", "/portable")])).unwrap();
    assert_eq!(paths.config, "/portable/config");
    assert_eq!(paths.data, "/portable/data");
    assert_eq!(paths.cache, "/portable/cache");
}

#[test]
fn xdg_paths_fall_back_to_home() {
    let paths = resolve_with(&environment(&[("HOME", "/home/alice")])).unwrap();
    assert_eq!(paths.config, "/home/alice/.config/stcli");
    assert_eq!(paths.data, "/home/alice/.local/share/stcli");
    assert_eq!(paths.cache, "/home/alice/.cache/stcli");
}

#[test]
fn xdg_variables_take_the_place_of_directories_below_home() {
    let paths = resolve_with(&environment(&[
        ("HOME", "/home/alice"),
        ("XDG_CONFIG_HOME", "/etc/alice"),
    ]))
    .unwrap();
    assert_eq!(paths.config, "/etc/alice/stcli");
    assert_eq!(paths.data, "/home/alice/.local/share/stcli");
    assert_eq!(paths.database(), "/home/alice/.local/share/stcli/stcli.sqlite3");
    assert_eq!(paths.plugins(), "/home/alice/.local/share/stcli/plugins");
}

#[test]
fn an_environment_without_home_has_no_paths() {
    assert!(matches!(resolve_with(&environment(&[])), Err(PathError::MissingHome)));
}

#[test]
fn windows_paths_stand_below_application_data() {
    let roaming = r"C:\Users\alice\AppData\Roaming";
    let local = r"C:\Users\alice\AppData\Local";
    let both = [("APPDATA", roaming), ("LOCALAPPDATA", local)];
    let paths = resolve_on_windows(&environment(&both)).unwrap();
    assert_eq!(paths.config, r"C:\Users\alice\AppData\Roaming\STcli");
    assert_eq!(paths.data, r"C:\Users\alice\AppData\Local\STcli\data");
    assert_eq!(paths.cache, r"C:\Users\alice\AppData\Local\STcli\cache");
    let paths = resolve_on_windows(&environment(&both[..1])).unwrap();
    assert_eq!(paths.data, r"C:\Users\alice\AppData\Roaming\STcli\data");
    let portable = resolve_on_windows(&environment(&[("STCLI_HOME", r"D:\")])).unwrap();
    assert_eq!(portable.config, r"D:\config");
    let drive = resolve_on_windows(&environment(&[("STCLI_HOME", "D:")])).unwrap();
    assert_eq!(drive.config, "D:config");
    assert!(matches!(
        resolve_on_windows(&environment(&[("HOME", "/home/alice")])),
        Err(PathError::MissingHome)
    ));
}
