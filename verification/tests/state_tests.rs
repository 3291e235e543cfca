use dirjump::clock::Timestamp;
use dirjump::navigation::NavigationError;
use dirjump::locations::{
    aliases_path_in, config_dir_in, expand_home, get_aliases_path, get_config_dir,
    get_state_path, state_path_in,
};
use dirjump::path::expand_home_in;
use dirjump::platform::Platform;
use dirjump::resolver::Environment;
use dirjump::state::AppState;

fn at(secs: i64) -> Timestamp {
    Timestamp { secs, nanos: 0 }
}

fn system_home() -> Option<String> {
    dirs::home_dir().and_then(|p| p.to_str().map(|s| s.to_string()))
}

#[test]
fn end_to_end_home_jump_counts_visits() {
    let mut state = AppState::new();
    assert!(state.history.is_empty());
    state.commit_at(Some("/somewhere"), "/home/u", at(1000));
    assert_eq!(state.history.len(), 1);
    assert_eq!(state.history.records()[0].path, "/home/u");
    assert_eq!(state.history.records()[0].visit_count, 1);
    assert_eq!(state.navigation.back_entries(), vec!["/somewhere".to_string()]);
    state.commit_at(Some("/home/u"), "/home/u", at(2000));
    assert_eq!(state.history.len(), 1);
    assert_eq!(state.history.records()[0].visit_count, 2);
    assert_eq!(state.history.records()[0].last_visited, at(2000));
    assert_eq!(
        state.navigation.back_entries(),
        vec!["/somewhere".to_string(), "/home/u".to_string()]
    );
}

#[test]
fn commit_drops_the_redo_branch() {
    let mut state = AppState::new();
    state.commit_at(Some("/a"), "/b", at(1));
    assert_eq!(state.navigation.undo(Some("/b")), Ok("/a".to_string()));
    assert_eq!(state.navigation.front_entries(), vec!["/b".to_string()]);
    state.commit_at(Some("/a"), "/c", at(2));
    assert!(state.navigation.front_entries().is_empty());
    assert_eq!(state.navigation.redo(Some("/c")), Err(NavigationError::EmptyStack));
}

#[test]
fn commit_without_a_current_directory_only_records() {
    let mut state = AppState::new();
    state.commit_at(None, "/b", at(1));
    assert!(state.navigation.back_entries().is_empty());
    assert_eq!(state.history.len(), 1);
}

#[test]
fn commit_reads_the_clock() {
    let mut state = AppState::new();
    state.commit(Some("/a"), "/b");
    assert!(state.history.records()[0].last_visited.secs > 1_600_000_000);
    assert_eq!(state.navigation.back_entries(), vec!["/a".to_string()]);
}

#[test]
fn clear_forgets_everything() {
    let mut state = AppState::new();
    state.commit_at(Some("/a"), "/b", at(1));
    state.commit_at(Some("/b"), "/c", at(2));
    let _ = state.navigation.undo(Some("/c"));
    state.clear();
    assert!(state.history.is_empty());
    assert!(state.navigation.back_entries().is_empty());
    assert!(state.navigation.front_entries().is_empty());
}

#[test]
fn state_files_live_under_the_home_directory() {
    assert_eq!(config_dir_in(Some("/home/u"), Platform::Unix), "/home/u/.config/j");
    assert_eq!(config_dir_in(None, Platform::Unix), "./.config/j");
    assert_eq!(state_path_in(Some("/home/u"), Platform::Unix), "/home/u/.config/j/state.json");
    assert_eq!(state_path_in(None, Platform::Unix), "./.config/j/state.json");
    assert_eq!(
        aliases_path_in(Some("C:\\Users\\me"), Platform::Windows),
        "C:\\Users\\me\\.config\\j\\aliases.json"
    );
    assert_eq!(aliases_path_in(Some("/home/u/"), Platform::Unix), "/home/u/.config/j/aliases.json");
}

#[test]
fn state_files_of_the_running_user() {
    let home = system_home();
    assert_eq!(get_config_dir(Platform::Unix), config_dir_in(home.as_deref(), Platform::Unix));
    assert_eq!(get_state_path(Platform::Unix), state_path_in(home.as_deref(), Platform::Unix));
    assert_eq!(get_aliases_path(Platform::Unix), aliases_path_in(home.as_deref(), Platform::Unix));
}

#[test]
fn expand_home_uses_the_home_of_the_running_user() {
    let home = system_home();
    assert_eq!(
        expand_home("~/x", Platform::Unix),
        home.as_deref().map(|h| expand_home_in("~/x", h, Platform::Unix))
    );
    assert_eq!(expand_home("x", Platform::Unix), None);
    assert_eq!(expand_home("", Platform::Unix), None);
}

#[test]
fn detect_fills_in_the_home_directory() {
    let env = Environment::detect(Platform::Unix, false, Some("/cwd".to_string()));
    assert_eq!(env.platform, Platform::Unix);
    assert!(!env.drives);
    assert_eq!(env.current_dir, Some("/cwd".to_string()));
    assert_eq!(env.home, system_home());
}
