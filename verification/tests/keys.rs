use configured::envkeys::{env_entries, env_key_strip, kebab_str, lower_str, split_key, KeyCase};
use configured::resolver::{overlay_names, OverlayMode};
use configured::text::{split_names, trim_str};
use configured::{CONFIG_DIR, CONFIG_ENV_PREFIX, CONFIG_OVERLAYS};

#[test]
fn test_split_preserves_single_underscore() {
    // The double underscore separates segments; the single underscore in
    // `B_C` stays inside its segment.
    let rest = env_key_strip("PREFIX__A__B_C", "PREFIX").unwrap();
    assert_eq!(rest.as_str(), "A__B_C");
    let segs = split_key(rest.as_str());
    assert_eq!(segs, vec!["A".to_string(), "B_C".to_string()]);
    let lowered: Vec<String> = segs.iter().map(|s| lower_str(s.as_str())).collect();
    assert_eq!(lowered, vec!["a".to_string(), "b_c".to_string()]);
}

#[test]
fn test_kebab_translation() {
    let lowered = lower_str("CORGE_GRAULT");
    assert_eq!(lowered.as_str(), "corge_grault");
    let kebab = kebab_str(lowered.as_str());
    assert_eq!(kebab.as_str(), "corge-grault");
}

#[test]
fn test_env_entries_collects_prefixed_variables() {
    let vars = vec![
        (
            "APP__QUX__CORGE_GRAULT".to_string(),
            "corge-grault-env".to_string(),
        ),
        ("HOME".to_string(), "/root".to_string()),
        ("APPLES".to_string(), "ignored".to_string()),
    ];
    let entries = env_entries("APP", &vars, KeyCase::Kebab);
    assert_eq!(entries.len(), 1);
    assert_eq!(
        entries[0].path,
        vec!["qux".to_string(), "corge-grault".to_string()]
    );
    assert_eq!(entries[0].value.as_str(), "corge-grault-env");
}

#[test]
fn test_env_key_strip_rejects_other_names() {
    assert!(env_key_strip("APP_K", "APP").is_none());
    assert!(env_key_strip("APP", "APP").is_none());
    assert!(env_key_strip("OTHER__K", "APP").is_none());
    assert!(env_key_strip("APPX__K", "APP").is_none());
    let rest = env_key_strip("APP__K", "APP").unwrap();
    assert_eq!(rest.as_str(), "K");
}

#[test]
fn test_split_key_edges() {
    assert_eq!(split_key("A"), vec!["A".to_string()]);
    assert_eq!(split_key("A__B"), vec!["A".to_string(), "B".to_string()]);
    assert_eq!(
        split_key("__B"),
        vec!["".to_string(), "B".to_string()]
    );
    assert_eq!(
        split_key("A__"),
        vec!["A".to_string(), "".to_string()]
    );
    assert_eq!(split_key("A___B"), vec!["A".to_string(), "_B".to_string()]);
}

#[test]
fn test_trim_and_split_names() {
    assert_eq!(trim_str("  feat \t").as_str(), "feat");
    assert_eq!(trim_str("feat").as_str(), "feat");
    assert_eq!(trim_str("   ").as_str(), "");
    assert_eq!(
        split_names("feat, dev"),
        vec!["feat".to_string(), "dev".to_string()]
    );
    assert_eq!(
        split_names(" a , b ,c"),
        vec!["a".to_string(), "b".to_string(), "c".to_string()]
    );
    assert_eq!(split_names(""), vec!["".to_string()]);
}

#[test]
fn test_variable_names() {
    assert_eq!(CONFIG_DIR, "CONFIG_DIR");
    assert_eq!(CONFIG_OVERLAYS, "CONFIG_OVERLAYS");
    assert_eq!(CONFIG_ENV_PREFIX, "CONFIG_ENV_PREFIX");
}

#[test]
fn test_raw_case_keeps_underscores() {
    let vars = vec![("PREFIX__A__B_C".to_string(), "v".to_string())];
    let entries = env_entries("PREFIX", &vars, KeyCase::Raw);
    assert_eq!(entries.len(), 1);
    assert_eq!(entries[0].path, vec!["a".to_string(), "b_c".to_string()]);
    assert_eq!(entries[0].value.as_str(), "v");
}

#[test]
fn test_single_overlay_mode_takes_selector_whole() {
    let selector = String::from("prod");
    assert_eq!(
        overlay_names(Some(&selector), OverlayMode::Single),
        vec!["prod".to_string()]
    );
    assert!(overlay_names(None, OverlayMode::Single).is_empty());
}
