use dirjump::alias::AliasTable;
use dirjump::clock::Timestamp;
use dirjump::history::HistoryLedger;
use dirjump::matching::{admits, is_on_drive, meets_constraints, pick, Pass};
use dirjump::platform::Platform;
use dirjump::resolver::{
    plan, plan_index, search_history, try_local_path, Environment, Outcome, Reason, Resolution,
    Step,
};

fn unix(current_dir: Option<&str>) -> Environment {
    Environment {
        platform: Platform::Unix,
        drives: false,
        home: Some("/home/u".to_string()),
        current_dir: current_dir.map(|s| s.to_string()),
    }
}

fn windows(current_dir: Option<&str>) -> Environment {
    Environment {
        platform: Platform::Windows,
        drives: true,
        home: Some("C:\\Users\\me".to_string()),
        current_dir: current_dir.map(|s| s.to_string()),
    }
}

fn history(paths: &[&str]) -> HistoryLedger {
    let mut ledger = HistoryLedger::new();
    for (i, path) in paths.iter().enumerate() {
        ledger.record_visit_at(path, Timestamp { secs: 86400 * (i as i64 + 1), nanos: 0 });
    }
    ledger
}

fn strings(parts: &[&str]) -> Vec<String> {
    parts.iter().map(|s| s.to_string()).collect()
}

/// Runs a resolution against a filesystem in which exactly `dirs` are
/// directories and in which the canonical form of a path is the path with
/// every `/./` taken out.
fn run(mut resolution: Resolution, dirs: &[&str]) -> Outcome {
    loop {
        match resolution.step() {
            Step::Done(outcome) => return outcome,
            Step::Probe { path, canonical } => {
                if canonical {
                    let real = path.replace("/./", "/");
                    if dirs.contains(&real.as_str()) {
                        return resolution.accept(Some(&real));
                    }
                } else if dirs.contains(&path.as_str()) {
                    return resolution.accept(None);
                }
                resolution.reject();
            }
        }
    }
}

fn resolved(path: &str) -> Outcome {
    Outcome::Resolved(path.to_string())
}

fn not_found(target: &str) -> Outcome {
    Outcome::NotFound(Reason::DirectoryNotFound { target: target.to_string() })
}

#[test]
fn exact_match_outranks_more_recent_substring_match() {
    let ledger = history(&["/x/proj/src", "/y/src", "/z/src-old", "/w/mysrc"]);
    let aliases = AliasTable::new();
    let env = unix(Some("/home/u"));
    let all = ["/x/proj/src", "/y/src", "/z/src-old", "/w/mysrc"];
    let r = plan("src", &env, &ledger, &aliases);
    assert_eq!(
        r.candidates(),
        &strings(&[
            "/home/u/src",
            "/y/src",
            "/x/proj/src",
            "/w/mysrc",
            "/z/src-old",
            "/y/src",
            "/x/proj/src",
        ])
    );
    assert_eq!(run(r, &all), resolved("/y/src"));
}

#[test]
fn older_exact_match_is_taken_when_the_newer_is_gone() {
    let ledger = history(&["/x/proj/src", "/y/src", "/z/src-old"]);
    let aliases = AliasTable::new();
    let env = unix(Some("/home/u"));
    let r = plan("src", &env, &ledger, &aliases);
    assert_eq!(run(r, &["/x/proj/src", "/z/src-old"]), resolved("/x/proj/src"));
}

#[test]
fn substring_match_is_taken_when_no_exact_match_exists() {
    let ledger = history(&["/x/proj/src", "/z/src-old", "/w/mysrc"]);
    let aliases = AliasTable::new();
    let env = unix(Some("/home/u"));
    let r = plan("src", &env, &ledger, &aliases);
    assert_eq!(run(r, &["/z/src-old", "/w/mysrc"]), resolved("/w/mysrc"));
}

#[test]
fn constraint_tokens_filter_the_candidates() {
    let ledger = history(&["/x/proj/src", "/y/src", "/x/myproject/src"]);
    let aliases = AliasTable::new();
    let env = unix(None);
    let r = plan("proj/src", &env, &ledger, &aliases);
    assert_eq!(
        r.candidates(),
        &strings(&["/x/myproject/src", "/x/proj/src", "/x/myproject/src", "/x/proj/src"])
    );
    assert_eq!(run(r, &["/x/proj/src", "/y/src"]), resolved("/x/proj/src"));
}

#[test]
fn matching_ignores_case() {
    let ledger = history(&["/Y/Src", "/x/Projects"]);
    let aliases = AliasTable::new();
    let env = unix(None);
    assert_eq!(run(plan("SRC", &env, &ledger, &aliases), &["/Y/Src"]), resolved("/Y/Src"));
    assert_eq!(
        run(plan("proj", &env, &ledger, &aliases), &["/x/Projects"]),
        resolved("/x/Projects")
    );
}

#[test]
fn literal_subpath_comes_before_history() {
    let ledger = history(&["/elsewhere/bar", "/other/foobar"]);
    let aliases = AliasTable::new();
    let env = unix(Some("/home/u"));
    let r = plan("foo/bar", &env, &ledger, &aliases);
    assert_eq!(
        run(r, &["/home/u/foo/bar", "/elsewhere/bar", "/other/foobar"]),
        resolved("/home/u/foo/bar")
    );
    let r = plan("bar", &env, &ledger, &aliases);
    assert_eq!(
        run(r, &["/home/u/bar", "/elsewhere/bar", "/other/foobar"]),
        resolved("/home/u/bar")
    );
}

#[test]
fn exhaustion_reports_the_keyword() {
    let ledger = history(&["/y/src"]);
    let aliases = AliasTable::new();
    let env = unix(Some("/home/u"));
    assert_eq!(run(plan("src", &env, &ledger, &aliases), &[]), not_found("src"));
    assert_eq!(run(plan("nothing", &env, &ledger, &aliases), &["/y/src"]), not_found("nothing"));
    assert_eq!(run(plan("", &env, &ledger, &aliases), &["/y/src"]), not_found(""));
    assert_eq!(plan("", &env, &ledger, &aliases).candidates(), &strings(&[]));
}

#[test]
fn alias_strategy() {
    let ledger = history(&["/y/work"]);
    let mut aliases = AliasTable::new();
    aliases.set("work", "/a/b");
    let env = unix(Some("/home/u"));
    let r = plan("!work", &env, &ledger, &aliases);
    assert_eq!(r.candidates(), &strings(&["/a/b"]));
    assert_eq!(run(r, &["/a/b", "/y/work"]), resolved("/a/b"));
    assert_eq!(
        run(plan("!work", &env, &ledger, &aliases), &["/y/work"]),
        Outcome::NotFound(Reason::DirectoryMissing { path: "/a/b".to_string() })
    );
    assert_eq!(
        run(plan("!Work", &env, &ledger, &aliases), &["/a/b", "/y/work"]),
        Outcome::NotFound(Reason::AliasNotFound { name: "Work".to_string() })
    );
    assert_eq!(
        run(plan("!", &env, &ledger, &aliases), &["/a/b"]),
        Outcome::NotFound(Reason::AliasNotFound { name: "".to_string() })
    );
}

#[test]
fn home_strategy() {
    let ledger = history(&[]);
    let aliases = AliasTable::new();
    let env = unix(Some("/cwd"));
    assert_eq!(run(plan("~", &env, &ledger, &aliases), &["/home/u"]), resolved("/home/u"));
    assert_eq!(
        run(plan("~/docs", &env, &ledger, &aliases), &["/home/u/docs"]),
        resolved("/home/u/docs")
    );
    assert_eq!(run(plan("~/docs", &env, &ledger, &aliases), &[]), not_found("/home/u/docs"));
    let homeless = Environment { home: None, ..unix(Some("/cwd")) };
    assert_eq!(
        run(plan("~/docs", &homeless, &ledger, &aliases), &["/home/u/docs"]),
        Outcome::NotFound(Reason::HomeUnknown)
    );
}

#[test]
fn absolute_strategy_on_unix() {
    let ledger = history(&["/var/etc"]);
    let aliases = AliasTable::new();
    let env = unix(Some("/cwd"));
    assert_eq!(run(plan("/etc", &env, &ledger, &aliases), &["/etc"]), resolved("/etc"));
    assert_eq!(run(plan("/etc", &env, &ledger, &aliases), &["/var/etc"]), not_found("/etc"));
    assert_eq!(run(plan("/a\\b", &env, &ledger, &aliases), &["/a/b"]), resolved("/a/b"));
}

#[test]
fn absolute_strategy_on_windows() {
    let ledger = history(&[]);
    let aliases = AliasTable::new();
    let env = windows(Some("D:\\work\\x"));
    assert_eq!(run(plan("C:/x", &env, &ledger, &aliases), &["C:\\x"]), resolved("C:\\x"));
    assert_eq!(run(plan("\\", &env, &ledger, &aliases), &["D:\\"]), resolved("D:\\"));
    assert_eq!(run(plan("/", &env, &ledger, &aliases), &["D:\\"]), resolved("D:\\"));
    assert_eq!(run(plan("\\", &windows(None), &ledger, &aliases), &["C:\\"]), resolved("C:\\"));
    assert_eq!(
        run(plan("\\", &windows(Some("D:")), &ledger, &aliases), &["C:\\"]),
        resolved("C:\\")
    );
    assert_eq!(run(plan("\\x", &env, &ledger, &aliases), &[]), not_found("\\x"));
}

#[test]
fn drive_keywords_reach_the_drive_search_under_windows_conventions() {
    let ledger = history(&["D:\\proj\\src", "C:\\src", "d:\\other", "d:\\x\\mysrc\\y"]);
    let aliases = AliasTable::new();
    let env = windows(Some("C:\\w"));
    let r = plan("d:src", &env, &ledger, &aliases);
    assert_eq!(r.candidates(), &strings(&["d:\\x\\mysrc\\y", "D:\\proj\\src"]));
    assert_eq!(run(r, &["D:\\proj\\src", "C:\\src", "d:src"]), resolved("D:\\proj\\src"));
    assert_eq!(
        run(plan("d:nothing", &env, &ledger, &aliases), &["D:\\proj\\src", "d:nothing"]),
        Outcome::NotFound(Reason::NotOnDrive { drive: 'D', term: "nothing".to_string() })
    );
    assert_eq!(
        run(plan("d:PROJ/src", &env, &ledger, &aliases), &["D:\\proj\\src"]),
        resolved("D:\\proj\\src")
    );
}

#[test]
fn bare_drive_resolves_to_its_root_under_windows_conventions() {
    let ledger = history(&["D:\\proj\\src"]);
    let aliases = AliasTable::new();
    let env = windows(Some("C:\\w"));
    let r = plan("d:", &env, &ledger, &aliases);
    assert_eq!(r.candidates(), &strings(&["D:\\"]));
    assert_eq!(run(r, &["D:\\", "D:\\proj\\src"]), resolved("D:\\"));
    assert_eq!(
        run(plan("e:", &env, &ledger, &aliases), &["D:\\"]),
        Outcome::NotFound(Reason::DriveUnavailable { drive: 'E' })
    );
}

#[test]
fn drive_letter_colon_separator_is_an_absolute_path() {
    let ledger = history(&["D:\\proj\\src"]);
    let aliases = AliasTable::new();
    let env = windows(Some("C:\\w"));
    let r = plan("d:/src", &env, &ledger, &aliases);
    assert_eq!(r.candidates(), &strings(&["d:\\src"]));
    assert_eq!(run(r, &["D:\\proj\\src"]), not_found("d:\\src"));
    assert_eq!(run(plan("d:\\", &env, &ledger, &aliases), &["d:\\"]), resolved("d:\\"));
}

#[test]
fn windows_conventions_without_drives_take_a_drive_keyword_as_plain() {
    let ledger = history(&["C:\\x\\d:src"]);
    let aliases = AliasTable::new();
    let env = Environment { drives: false, ..windows(Some("C:\\w")) };
    let r = plan("d:src", &env, &ledger, &aliases);
    assert_eq!(
        r.candidates(),
        &strings(&["C:\\w\\d:src", "C:\\x\\d:src", "C:\\x\\d:src"])
    );
    assert_eq!(run(r, &[]), not_found("d:src"));
}

#[test]
fn local_path_depends_on_keyword_and_surroundings_alone() {
    assert_eq!(
        try_local_path("foo/bar", &unix(Some("/home/u"))),
        Some("/home/u/foo/bar".to_string())
    );
    assert_eq!(
        try_local_path("foo\\bar", &windows(Some("C:\\w"))),
        Some("C:\\w\\foo\\bar".to_string())
    );
    assert_eq!(try_local_path("foo/bar", &unix(None)), None);
    assert_eq!(try_local_path("//", &unix(Some("/home/u"))), None);
    assert_eq!(try_local_path("", &unix(Some("/home/u"))), None);
    // The same literal candidate heads the resolution whatever the state holds.
    let env = unix(Some("/home/u"));
    let with = plan("foo/bar", &env, &history(&["/srv/foo/rebar"]), &AliasTable::new());
    let without = plan("foo/bar", &env, &history(&[]), &AliasTable::new());
    assert_eq!(with.candidates()[0], "/home/u/foo/bar");
    assert_eq!(without.candidates(), &strings(&["/home/u/foo/bar"]));
    assert_eq!(run(with, &["/home/u/foo/bar", "/srv/foo/rebar"]), resolved("/home/u/foo/bar"));
    assert_eq!(run(without, &["/home/u/foo/bar", "/srv/foo/rebar"]), resolved("/home/u/foo/bar"));
}

#[test]
fn search_history_lists_exact_matches_before_substring_matches() {
    let ledger = history(&["/x/proj/src", "/y/src", "/z/src-old", "/w/mysrc"]);
    assert_eq!(
        search_history(&ledger, "src"),
        strings(&["/y/src", "/x/proj/src", "/w/mysrc", "/z/src-old", "/y/src", "/x/proj/src"])
    );
    assert_eq!(
        search_history(&ledger, "PROJ/Src"),
        strings(&["/x/proj/src", "/x/proj/src"])
    );
    assert_eq!(search_history(&ledger, "nothing"), strings(&[]));
    assert_eq!(search_history(&ledger, "/"), strings(&[]));
}

#[test]
fn relative_strategy_resolves_to_the_canonical_path() {
    let ledger = history(&["/elsewhere/sub"]);
    let aliases = AliasTable::new();
    let env = unix(Some("/home/u"));
    let r = plan("./sub", &env, &ledger, &aliases);
    assert_eq!(
        r.step(),
        Step::Probe { path: "/home/u/./sub".to_string(), canonical: true }
    );
    assert_eq!(run(r, &["/home/u/sub"]), resolved("/home/u/sub"));
    let r = plan("../x", &env, &ledger, &aliases);
    assert_eq!(r.candidates(), &strings(&["/home/u/../x"]));
    assert_eq!(run(r, &["/elsewhere/sub"]), not_found("../x"));
    let r = plan(".\\sub", &env, &ledger, &aliases);
    assert_eq!(r.candidates(), &strings(&["/home/u/./sub"]));
    assert_eq!(run(plan("./sub", &unix(None), &ledger, &aliases), &["/home/u/sub"]), not_found("./sub"));
}

#[test]
fn relative_strategy_drops_the_verbatim_prefix_on_windows() {
    let ledger = history(&[]);
    let aliases = AliasTable::new();
    let env = windows(Some("C:\\w"));
    let r = plan("./sub", &env, &ledger, &aliases);
    assert_eq!(
        r.step(),
        Step::Probe { path: "C:\\w\\.\\sub".to_string(), canonical: true }
    );
    assert_eq!(r.accept(Some("\\\\?\\C:\\w\\sub")), resolved("C:\\w\\sub"));
}

#[test]
fn drive_strategy_under_unix_conventions_with_drives() {
    let ledger = history(&["D:\\proj\\src", "C:\\src", "d:\\other", "d:\\x\\mysrc\\y"]);
    let aliases = AliasTable::new();
    let env = Environment { drives: true, ..unix(Some("/cwd")) };
    let r = plan("d:src", &env, &ledger, &aliases);
    assert_eq!(r.candidates(), &strings(&["d:\\x\\mysrc\\y", "D:\\proj\\src"]));
    assert_eq!(run(r, &["D:\\proj\\src", "C:\\src"]), resolved("D:\\proj\\src"));
    assert_eq!(
        run(plan("d:\\\\a/b", &env, &ledger, &aliases), &["C:\\src"]),
        Outcome::NotFound(Reason::NotOnDrive { drive: 'D', term: "a/b".to_string() })
    );
    assert_eq!(
        run(plan("C:SRC", &env, &ledger, &aliases), &["C:\\src"]),
        resolved("C:\\src")
    );
}

#[test]
fn drive_root_strategy() {
    let ledger = history(&[]);
    let aliases = AliasTable::new();
    let env = Environment { drives: true, ..unix(Some("/cwd")) };
    assert_eq!(run(plan("d:", &env, &ledger, &aliases), &["D:/"]), resolved("D:/"));
    assert_eq!(
        run(plan("d:", &env, &ledger, &aliases), &[]),
        Outcome::NotFound(Reason::DriveUnavailable { drive: 'D' })
    );
}

#[test]
fn without_drives_a_drive_keyword_is_an_ordinary_keyword() {
    let ledger = history(&["/x/d:src"]);
    let aliases = AliasTable::new();
    let env = unix(Some("/cwd"));
    let r = plan("d:src", &env, &ledger, &aliases);
    assert_eq!(r.candidates(), &strings(&["/cwd/d:src", "/x/d:src", "/x/d:src"]));
}

#[test]
fn index_jump_counts_from_the_newest() {
    let ledger = history(&["/a", "/b", "/c"]);
    let dirs = ["/a", "/b", "/c"];
    assert_eq!(run(plan_index(1, &ledger, Platform::Unix), &dirs), resolved("/c"));
    assert_eq!(run(plan_index(3, &ledger, Platform::Unix), &dirs), resolved("/a"));
    assert_eq!(
        run(plan_index(4, &ledger, Platform::Unix), &dirs),
        Outcome::NotFound(Reason::NoSuchEntry { index: 4, size: 3 })
    );
    assert_eq!(run(plan_index(2, &ledger, Platform::Unix), &["/a"]), not_found("/b"));
}

#[test]
fn stepping_past_the_end_stays_at_the_failure() {
    let ledger = history(&["/y/src"]);
    let aliases = AliasTable::new();
    let mut r = plan("src", &unix(None), &ledger, &aliases);
    r.reject();
    r.reject();
    assert_eq!(r.step(), Step::Done(not_found("src")));
    r.reject();
    assert_eq!(r.step(), Step::Done(not_found("src")));
    assert_eq!(r.accept(None), not_found("src"));
}

#[test]
fn pass_filters() {
    let tokens = strings(&["proj", "src"]);
    assert!(admits(Pass::Exact, &tokens, "/x/Proj/SRC"));
    assert!(admits(Pass::Exact, &tokens, "/x/myproj/src/"));
    assert!(!admits(Pass::Exact, &tokens, "/x/proj/src2"));
    assert!(admits(Pass::Partial, &tokens, "/x/proj/src2"));
    assert!(!admits(Pass::Partial, &tokens, "/x/other/src2"));
    assert!(!admits(Pass::Exact, &tokens, "/"));
    assert!(!admits(Pass::Exact, &strings(&[]), "/x/src"));
    assert!(admits(Pass::Drive('D'), &tokens, "d:\\proj\\x\\src\\y"));
    assert!(!admits(Pass::Drive('C'), &tokens, "d:\\proj\\x\\src\\y"));
    assert!(admits(Pass::Drive('D'), &strings(&[]), "D:"));
    assert!(is_on_drive("d:\\x", 'D'));
    assert!(!is_on_drive("d", 'D'));
    assert!(!is_on_drive("dx\\", 'D'));
    assert!(meets_constraints("/A/Bcd", &strings(&["bc", "a", "zz"]), 2));
    assert!(!meets_constraints("/A/Bcd", &strings(&["bc", "a", "zz"]), 3));
    assert!(!meets_constraints("/A/Bcd", &strings(&["a/b"]), 1));
}

#[test]
fn pick_lists_the_most_recent_first() {
    let ledger = history(&["/1/src", "/2/other", "/3/src"]);
    let tokens = strings(&["src"]);
    assert_eq!(pick(ledger.records(), Pass::Exact, &tokens), strings(&["/3/src", "/1/src"]));
    assert_eq!(pick(ledger.records(), Pass::Exact, &strings(&["none"])), strings(&[]));
}
