use dirjump::navigation::{NavigationError, NavigationStack, MAX_UNDO};

fn strings(parts: &[&str]) -> Vec<String> {
    parts.iter().map(|s| s.to_string()).collect()
}

#[test]
fn undo_yields_the_latest_push_and_keeps_current_for_redo() {
    let mut nav = NavigationStack::new();
    nav.push_back("/a");
    nav.push_back("/b");
    assert_eq!(nav.undo(Some("/cur")), Ok("/b".to_string()));
    assert_eq!(nav.back_entries(), strings(&["/a"]));
    assert_eq!(nav.front_entries(), strings(&["/cur"]));
    assert_eq!(nav.undo(Some("/b")), Ok("/a".to_string()));
    assert_eq!(nav.back_entries(), strings(&[]));
    assert_eq!(nav.front_entries(), strings(&["/cur", "/b"]));
}

#[test]
fn going_to_a_then_b_then_undo_leads_back_to_a() {
    // Start in /start, jump to /a, jump to /b: each jump pushes the place left.
    let mut nav = NavigationStack::new();
    nav.push_back("/start");
    nav.push_back("/a");
    assert_eq!(nav.undo(Some("/b")), Ok("/a".to_string()));
    assert_eq!(nav.front_entries(), strings(&["/b"]));
    assert_eq!(nav.back_entries(), strings(&["/start"]));
}

#[test]
fn redo_after_undo_restores_the_undone_path() {
    let mut nav = NavigationStack::new();
    nav.push_back("/start");
    nav.push_back("/a");
    let target = nav.undo(Some("/b")).unwrap();
    assert_eq!(target, "/a");
    assert_eq!(nav.redo(Some(&target)), Ok("/b".to_string()));
    assert_eq!(nav.back_entries(), strings(&["/start", "/a"]));
    assert_eq!(nav.front_entries(), strings(&[]));
}

#[test]
fn push_after_undo_clears_the_forward_stack() {
    let mut nav = NavigationStack::new();
    nav.push_back("/a");
    nav.push_back("/b");
    assert!(nav.undo(Some("/c")).is_ok());
    nav.push_back("/d");
    assert_eq!(nav.front_entries(), strings(&[]));
    assert_eq!(nav.redo(Some("/e")), Err(NavigationError::EmptyStack));
    assert_eq!(nav.back_entries(), strings(&["/a", "/d"]));
}

#[test]
fn empty_stacks_have_nothing_to_undo_or_redo() {
    let mut nav = NavigationStack::new();
    assert_eq!(nav.undo(Some("/cur")), Err(NavigationError::EmptyStack));
    assert_eq!(nav.redo(Some("/cur")), Err(NavigationError::EmptyStack));
    assert_eq!(nav.back_entries(), strings(&[]));
    assert_eq!(nav.front_entries(), strings(&[]));
}

#[test]
fn undo_without_a_current_directory_pushes_nothing() {
    let mut nav = NavigationStack::new();
    nav.push_back("/a");
    assert_eq!(nav.undo(None), Ok("/a".to_string()));
    assert_eq!(nav.front_entries(), strings(&[]));
}

#[test]
fn back_stack_keeps_the_newest_fifty() {
    let mut nav = NavigationStack::new();
    for i in 0..51 {
        nav.push_back(&format!("/d{}", i));
    }
    let back = nav.back_entries();
    assert_eq!(back.len(), MAX_UNDO);
    assert_eq!(back[0], "/d1");
    assert_eq!(back[49], "/d50");
}

#[test]
fn forward_stack_keeps_the_newest_fifty() {
    let back: Vec<String> = (0..50).map(|i| format!("/b{}", i)).collect();
    let front: Vec<String> = (0..50).map(|i| format!("/f{}", i)).collect();
    let mut nav = NavigationStack::from_parts(&back, &front).unwrap();
    assert_eq!(nav.undo(Some("/cur")), Ok("/b49".to_string()));
    let front = nav.front_entries();
    assert_eq!(front.len(), 50);
    assert_eq!(front[0], "/f1");
    assert_eq!(front[49], "/cur");
    assert_eq!(nav.back_entries().len(), 49);
}

#[test]
fn from_parts_refuses_stacks_over_capacity() {
    let long: Vec<String> = (0..51).map(|i| format!("/d{}", i)).collect();
    assert!(NavigationStack::from_parts(&long, &Vec::new()).is_none());
    assert!(NavigationStack::from_parts(&Vec::new(), &long).is_none());
    let nav = NavigationStack::from_parts(&strings(&["/a", "/b"]), &strings(&["/c"])).unwrap();
    assert_eq!(nav.back_entries(), strings(&["/a", "/b"]));
    assert_eq!(nav.front_entries(), strings(&["/c"]));
}

#[test]
fn clear_empties_both_stacks() {
    let mut nav = NavigationStack::from_parts(&strings(&["/a"]), &strings(&["/c"])).unwrap();
    nav.clear();
    assert_eq!(nav.back_entries(), strings(&[]));
    assert_eq!(nav.front_entries(), strings(&[]));
}
