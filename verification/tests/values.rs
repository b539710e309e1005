use srcbot::types::{RemoteBuilderConfig, INTERMEDIATE_ATTRS};

#[test]
fn test_intermediate_attrs_src_is_first() {
    // CRITICAL: src must be first because other intermediate attrs
    // (goModules, cargoDeps, etc.) may depend on src being available
    assert_eq!(
        INTERMEDIATE_ATTRS[0], "src",
        "src must be the first intermediate attr for dependency ordering"
    );
}

#[test]
fn test_intermediate_attrs_has_expected_count() {
    // Ensure we don't accidentally remove attrs
    assert!(
        INTERMEDIATE_ATTRS.len() >= 15,
        "Expected at least 15 intermediate attrs, found {}",
        INTERMEDIATE_ATTRS.len()
    );
}

#[test]
fn test_intermediate_attrs_contains_major_languages() {
    let expected = vec![
        "src",       // universal
        "goModules", // Go
        "cargoDeps", // Rust
        "npmDeps",   // Node.js
        "nugetDeps", // .NET
    ];
    for attr in expected {
        assert!(
            INTERMEDIATE_ATTRS.contains(&attr),
            "INTERMEDIATE_ATTRS should contain {}",
            attr
        );
    }
}

#[test]
fn test_remote_builder_config_to_builders_arg() {
    let config = RemoteBuilderConfig {
        ssh_target: "root@150.136.78.22".to_string(),
        system: "aarch64-linux".to_string(),
        max_jobs: 4,
        gc_threshold: Some("50G".to_string()),
        gc_keep_days: Some(1),
    };
    let builders_arg = config.to_builders_arg();
    assert_eq!(
        builders_arg,
        "ssh://root@150.136.78.22 aarch64-linux - 4 1 big-parallel"
    );
}
