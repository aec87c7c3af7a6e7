use std_logger::{get_log_targets, get_max_level, Config, Level, LevelFilter, Targets, PANIC_TARGET, REQUEST_TARGET};

#[test]
fn targets_should_log() {
    let targets = &[
        Targets::All,
        Targets::Only(vec!["crate1".to_owned()]),
        Targets::Only(vec!["crate1::mod1".to_owned()]),
        Targets::Only(vec!["crate1".to_owned(), "crate2".to_owned()]),
    ];

    let tests = vec![
        ("", vec![true, false, false, false]),
        ("crate1", vec![true, true, false, true]),
        ("crate1::mod1", vec![true, true, true, true]),
        ("crate2", vec![true, false, false, true]),
        ("crate2::mod2", vec![true, false, false, true]),
        // Requests should always be logged.
        (REQUEST_TARGET, vec![true, true, true, true]),
        // Panics should always be logged.
        (PANIC_TARGET, vec![true, true, true, true]),
    ];

    for (test_target, wanted) in tests {
        for (target, want) in targets.iter().zip(wanted) {
            assert_eq!(
                target.should_log(test_target),
                want,
                "targets to log: {target:?}, logging target: {test_target}",
            )
        }
    }
}

#[test]
fn max_level_from_environment_values() {
    assert_eq!(get_max_level(None, None, false, false), LevelFilter::Info);
    assert_eq!(get_max_level(None, None, false, true), LevelFilter::Debug);
    assert_eq!(get_max_level(None, None, true, true), LevelFilter::Trace);
    assert_eq!(
        get_max_level(Some("warn"), None, true, false),
        LevelFilter::Warn
    );
    assert_eq!(
        get_max_level(Some("WARN"), None, false, false),
        LevelFilter::Warn
    );
    assert_eq!(
        get_max_level(Some("bogus"), Some("ErRoR"), false, false),
        LevelFilter::Error
    );
    assert_eq!(
        get_max_level(Some("off"), Some("trace"), true, true),
        LevelFilter::Off
    );
    assert_eq!(
        get_max_level(Some("bogus"), Some("bogus"), false, false),
        LevelFilter::Info
    );
}

#[test]
fn log_targets_from_environment_value() {
    match get_log_targets(None) {
        Targets::All => {}
        other => panic!("expected all targets, got {other:?}"),
    }
    match get_log_targets(Some("")) {
        Targets::All => {}
        other => panic!("expected all targets, got {other:?}"),
    }
    match get_log_targets(Some("crate1")) {
        Targets::Only(list) => assert_eq!(list, vec!["crate1".to_owned()]),
        other => panic!("expected one target, got {other:?}"),
    }
    match get_log_targets(Some("crate1::mod1,crate2")) {
        Targets::Only(list) => {
            assert_eq!(list, vec!["crate1::mod1".to_owned(), "crate2".to_owned()])
        }
        other => panic!("expected two targets, got {other:?}"),
    }
    match get_log_targets(Some("a,,b")) {
        Targets::Only(list) => {
            assert_eq!(list, vec!["a".to_owned(), "".to_owned(), "b".to_owned()])
        }
        other => panic!("expected three targets, got {other:?}"),
    }
}

#[test]
fn filter_allows_levels() {
    assert!(LevelFilter::Trace.allows(Level::Trace));
    assert!(LevelFilter::Info.allows(Level::Info));
    assert!(LevelFilter::Info.allows(Level::Error));
    assert!(!LevelFilter::Info.allows(Level::Debug));
    assert!(!LevelFilter::Off.allows(Level::Error));
    assert!(LevelFilter::Error.allows(Level::Error));
    assert!(!LevelFilter::Error.allows(Level::Warn));
}

#[test]
fn config_builders() {
    let config = Config::logfmt();
    let (filter, add_loc, targets, _kvs) = config.into_parts();
    assert_eq!(filter, LevelFilter::Info);
    assert!(!add_loc);
    assert!(matches!(targets, Targets::All));

    let config = Config::json().with_call_location(true);
    let (filter, add_loc, _targets, _kvs) = config.into_parts();
    assert_eq!(filter, LevelFilter::Info);
    assert!(add_loc);

    // Without an explicit choice the call location follows debug logging.
    let config = Config::gcloud().with_max_level(LevelFilter::Debug);
    let (filter, add_loc, _targets, _kvs) = config.into_parts();
    assert_eq!(filter, LevelFilter::Debug);
    assert!(add_loc);

    let config = Config::logfmt()
        .with_max_level(LevelFilter::Trace)
        .with_call_location(false)
        .with_log_targets(Targets::Only(vec!["crate1".to_owned()]))
        .with_kvs(("app", "test"));
    let (filter, add_loc, targets, kvs) = config.into_parts();
    assert_eq!(filter, LevelFilter::Trace);
    assert!(!add_loc);
    assert!(matches!(targets, Targets::Only(_)));
    assert_eq!(kvs, ("app", "test"));
}
