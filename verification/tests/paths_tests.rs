use poke::launchagent::{default_bundle_id, render_plist};
use poke::paths::PokePaths;

#[test]
fn xdg_paths_fall_back_when_unset_or_empty() {
    let paths = PokePaths::from_env("/Users/alice", None, Some(""));
    assert_eq!(paths.config_file, "/Users/alice/.config/poke/config.toml");
    assert_eq!(paths.state_file, "/Users/alice/.local/state/poke/state.json");
    assert_eq!(paths.log_dir, "/Users/alice/.local/state/poke/log");
}

#[test]
fn relative_xdg_paths_are_ignored() {
    let paths = PokePaths::from_env("/Users/alice", Some("relative/config"), Some("relative/state"));
    assert_eq!(paths.config_dir, "/Users/alice/.config/poke");
    assert_eq!(paths.state_dir, "/Users/alice/.local/state/poke");
}

#[test]
fn default_bundle_id_uses_current_user() {
    assert_eq!(default_bundle_id(Some("alice")).unwrap(), "com.alice.poke");
}

#[test]
fn rendered_plist_uses_current_user_label() {
    let plist = render_plist("/usr/local/bin/poke", "/tmp/poke/log", Some("alice")).unwrap();
    assert!(plist.contains("<string>com.alice.poke</string>"));
    assert!(!plist.contains("com.example.poke"));
}
