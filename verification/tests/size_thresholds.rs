use srcbot::remote_gc::{
    checked_size_threshold, gc_command, next_gc_action, parse_size_threshold, read_size,
    size_threshold_if_fits, used_bytes, DfProblem, GcAction, GcEvent, Size, TEBI,
};

#[test]
fn test_parse_size_threshold_gigabytes() {
    assert_eq!(
        parse_size_threshold("50G"),
        Some(50 * 1024 * 1024 * 1024)
    );
    assert_eq!(
        parse_size_threshold("50GB"),
        Some(50 * 1024 * 1024 * 1024)
    );
    assert_eq!(
        parse_size_threshold("100g"),
        Some(100 * 1024 * 1024 * 1024)
    );
    assert_eq!(
        parse_size_threshold("100gb"),
        Some(100 * 1024 * 1024 * 1024)
    );
}

#[test]
fn test_parse_size_threshold_terabytes() {
    assert_eq!(
        parse_size_threshold("1T"),
        Some(1 * 1024 * 1024 * 1024 * 1024)
    );
    assert_eq!(
        parse_size_threshold("2TB"),
        Some(2 * 1024 * 1024 * 1024 * 1024)
    );
}

#[test]
fn test_parse_size_threshold_megabytes() {
    assert_eq!(
        parse_size_threshold("500M"),
        Some(500 * 1024 * 1024)
    );
    assert_eq!(
        parse_size_threshold("500MB"),
        Some(500 * 1024 * 1024)
    );
}

#[test]
fn test_parse_size_threshold_invalid() {
    assert_eq!(parse_size_threshold("50"), None);
    assert_eq!(parse_size_threshold("abc"), None);
    assert_eq!(parse_size_threshold("50K"), None); // KB not supported
    assert_eq!(parse_size_threshold(""), None);
}

#[test]
fn test_parse_size_threshold_with_whitespace() {
    assert_eq!(
        parse_size_threshold("  50G  "),
        Some(50 * 1024 * 1024 * 1024)
    );
}

#[test]
fn sizes_that_do_not_fit_are_told() {
    assert_eq!(checked_size_threshold("99999999999T"), Size::TooLarge);
    assert_eq!(checked_size_threshold("16777215T"), Size::Bytes(16777215 * TEBI));
    assert_eq!(checked_size_threshold("16777216T"), Size::TooLarge);
    assert_eq!(checked_size_threshold("1 G"), Size::Malformed);
    assert_eq!(checked_size_threshold("-1G"), Size::Malformed);
    assert_eq!(checked_size_threshold("+2m"), Size::Bytes(2 * 1024 * 1024));
    assert_eq!(size_threshold_if_fits("99999999999T"), None);
    assert_eq!(size_threshold_if_fits("50gb"), Some(Some(50 * 1024 * 1024 * 1024)));
    assert_eq!(size_threshold_if_fits("x"), Some(None));
    assert_eq!(read_size("3TB"), read_size("3T"));
    assert_eq!(read_size("3tb"), Size::Malformed);
}

#[test]
fn disk_usage_is_read() {
    let output = "Filesystem     1B-blocks         Used    Available Use% Mounted on\n/dev/sda1      107374182400  53687091200  53687091200  50% /nix/store\n";
    assert_eq!(used_bytes(output).unwrap(), 53687091200);
    assert!(matches!(used_bytes("one line"), Err(DfProblem::NoLine)));
    assert!(matches!(used_bytes("head\na b"), Err(DfProblem::ShortLine(line)) if line == "a b"));
    assert!(matches!(used_bytes("head\na b c"), Err(DfProblem::NotANumber(word)) if word == "c"));
}

#[test]
fn garbage_is_collected_above_the_threshold() {
    assert!(matches!(next_gc_action(GcEvent::Configured(None)), GcAction::Nothing));
    assert!(matches!(
        next_gc_action(GcEvent::Configured(Some("50".to_string()))),
        GcAction::BadThreshold
    ));
    assert!(matches!(
        next_gc_action(GcEvent::Configured(Some("99999999999T".to_string()))),
        GcAction::ThresholdTooLarge
    ));
    assert!(matches!(
        next_gc_action(GcEvent::Configured(Some("1m".to_string()))),
        GcAction::Measure { threshold: 1048576 }
    ));
    let measured = |used: &str| GcEvent::Measured {
        threshold: 100,
        output: format!("head\n/dev 1 {} 3", used),
    };
    assert!(matches!(next_gc_action(measured("101")), GcAction::Collect { used: 101 }));
    assert!(matches!(next_gc_action(measured("100")), GcAction::Enough { used: 100 }));
    assert!(matches!(next_gc_action(measured("x")), GcAction::BadUsage(DfProblem::NotANumber(_))));
    assert_eq!(gc_command(None), "nix-collect-garbage");
    assert_eq!(gc_command(Some(3)), "nix-collect-garbage --delete-older-than 3d");
}
