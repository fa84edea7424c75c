use configured::merge::lookup;
use configured::paths::Entry;
use configured::envkeys::KeyCase;
use configured::resolver::{overlay_names, resolve_config, OverlayMode};
use configured::Error;

fn entry(path: &[&str], value: &str) -> Entry {
    Entry {
        path: path.iter().map(|s| s.to_string()).collect(),
        value: value.to_string(),
    }
}

fn path_of(path: &[&str]) -> Vec<String> {
    path.iter().map(|s| s.to_string()).collect()
}

fn value_at(entries: &Vec<Entry>, path: &[&str]) -> Option<String> {
    lookup(entries, &path_of(path)).cloned()
}

#[test]
fn test_load() {
    // Default file: foo.bar = "bar", foo.baz = "baz".
    let default = vec![entry(&["foo", "bar"], "bar"), entry(&["foo", "baz"], "baz")];
    // Overlay "feat": qux.quux = "quux-feat"; overlay "dev": foo.baz = "baz-dev".
    let feat = vec![entry(&["qux", "quux"], "quux-feat")];
    let dev = vec![entry(&["foo", "baz"], "baz-dev")];
    let selector = String::from("feat, dev");
    let names = overlay_names(Some(&selector), OverlayMode::List);
    assert_eq!(names, vec!["feat".to_string(), "dev".to_string()]);
    let overlays = vec![Some(feat), Some(dev)];
    let env = vec![
        (
            "APP__QUX__CORGE_GRAULT".to_string(),
            "corge-grault-env".to_string(),
        ),
        ("HOME".to_string(), "/root".to_string()),
    ];
    let config = resolve_config(Some(&default), &overlays, &env, "APP", KeyCase::Kebab).unwrap();
    assert_eq!(value_at(&config, &["foo", "bar"]).unwrap().as_str(), "bar");
    assert_eq!(
        value_at(&config, &["foo", "baz"]).unwrap().as_str(),
        "baz-dev"
    );
    assert_eq!(
        value_at(&config, &["qux", "quux"]).unwrap().as_str(),
        "quux-feat"
    );
    assert_eq!(
        value_at(&config, &["qux", "corge-grault"]).unwrap().as_str(),
        "corge-grault-env"
    );
}

#[test]
fn test_default_only_path_keeps_default_value() {
    let default = vec![entry(&["foo", "bar"], "bar")];
    let overlays = vec![];
    let env = vec![];
    let config = resolve_config(Some(&default), &overlays, &env, "APP", KeyCase::Kebab).unwrap();
    assert_eq!(value_at(&config, &["foo", "bar"]).unwrap().as_str(), "bar");
}

#[test]
fn test_later_overlay_beats_earlier_beats_default() {
    let default = vec![entry(&["k"], "default")];
    let first = vec![entry(&["k"], "first")];
    let second = vec![entry(&["k"], "second")];
    let overlays = vec![Some(first), Some(second)];
    let env = vec![];
    let config = resolve_config(Some(&default), &overlays, &env, "APP", KeyCase::Kebab).unwrap();
    assert_eq!(value_at(&config, &["k"]).unwrap().as_str(), "second");
}

#[test]
fn test_environment_wins_over_files() {
    let default = vec![entry(&["k"], "default")];
    let overlay = vec![entry(&["k"], "overlay")];
    let overlays = vec![Some(overlay)];
    let env = vec![("APP__K".to_string(), "env".to_string())];
    let config = resolve_config(Some(&default), &overlays, &env, "APP", KeyCase::Kebab).unwrap();
    assert_eq!(value_at(&config, &["k"]).unwrap().as_str(), "env");
}

#[test]
fn test_missing_default_is_load_error() {
    let overlays = vec![];
    let env = vec![];
    let r = resolve_config(None, &overlays, &env, "APP", KeyCase::Kebab);
    assert!(matches!(r, Err(Error::Load(_))));
}

#[test]
fn test_named_missing_overlay_is_load_error() {
    let default = vec![entry(&["k"], "default")];
    let overlays = vec![None];
    let env = vec![];
    let r = resolve_config(Some(&default), &overlays, &env, "APP", KeyCase::Kebab);
    assert!(matches!(r, Err(Error::Load(_))));
}

#[test]
fn test_unset_selector_resolves_default_only() {
    let names = overlay_names(None, OverlayMode::List);
    assert!(names.is_empty());
    let default = vec![entry(&["foo", "bar"], "bar")];
    let overlays = vec![];
    let env = vec![];
    let config = resolve_config(Some(&default), &overlays, &env, "APP", KeyCase::Kebab).unwrap();
    assert_eq!(value_at(&config, &["foo", "bar"]).unwrap().as_str(), "bar");
}

#[test]
fn test_scalar_replaces_mapping() {
    // The overlay writes a scalar at `a`; the default mapping below `a` is
    // replaced wholesale, not merged.
    let default = vec![entry(&["a", "b"], "1"), entry(&["a", "c"], "2")];
    let overlay = vec![entry(&["a"], "scalar")];
    let overlays = vec![Some(overlay)];
    let env = vec![];
    let config = resolve_config(Some(&default), &overlays, &env, "APP", KeyCase::Kebab).unwrap();
    assert_eq!(value_at(&config, &["a"]).unwrap().as_str(), "scalar");
    assert!(value_at(&config, &["a", "b"]).is_none());
    assert!(value_at(&config, &["a", "c"]).is_none());
}

#[test]
fn test_mapping_replaces_scalar() {
    // The overlay writes a mapping below `a`; the default scalar at `a` is
    // replaced, there is no partial merge of heterogeneous shapes.
    let default = vec![entry(&["a"], "scalar"), entry(&["z"], "kept")];
    let overlay = vec![entry(&["a", "b"], "1")];
    let overlays = vec![Some(overlay)];
    let env = vec![];
    let config = resolve_config(Some(&default), &overlays, &env, "APP", KeyCase::Kebab).unwrap();
    assert!(value_at(&config, &["a"]).is_none());
    assert_eq!(value_at(&config, &["a", "b"]).unwrap().as_str(), "1");
    assert_eq!(value_at(&config, &["z"]).unwrap().as_str(), "kept");
}

#[test]
fn test_additive_union_of_paths() {
    let default = vec![entry(&["foo", "bar"], "bar")];
    let overlay = vec![entry(&["qux", "quux"], "quux")];
    let overlays = vec![Some(overlay)];
    let env = vec![];
    let config = resolve_config(Some(&default), &overlays, &env, "APP", KeyCase::Kebab).unwrap();
    assert_eq!(value_at(&config, &["foo", "bar"]).unwrap().as_str(), "bar");
    assert_eq!(value_at(&config, &["qux", "quux"]).unwrap().as_str(), "quux");
}

#[test]
fn test_lookup_last_entry_wins_within_source() {
    let source = vec![entry(&["k"], "older"), entry(&["k"], "newer")];
    assert_eq!(value_at(&source, &["k"]).unwrap().as_str(), "newer");
    assert!(value_at(&source, &["absent"]).is_none());
}

#[test]
fn test_error_messages() {
    let load = Error::Load("missing file".to_string());
    assert_eq!(load.message().as_str(), "missing file");
    let de = Error::Deserialize("missing field".to_string());
    assert_eq!(de.message().as_str(), "missing field");
}

struct Flag {
    k: String,
}

impl configured::resolver::FromResolved for Flag {
    fn from_entries(entries: &Vec<Entry>) -> Result<Self, Error> {
        match lookup(entries, &path_of(&["k"])) {
            Some(v) => Ok(Flag { k: v.clone() }),
            None => Err(Error::Deserialize("missing field k".to_string())),
        }
    }
}

#[test]
fn test_load_resolved_populates_target() {
    let default = vec![entry(&["k"], "default")];
    let overlays = vec![];
    let env = vec![("APP__K".to_string(), "env".to_string())];
    let flag: Flag =
        configured::resolver::load_resolved(Some(&default), &overlays, &env, "APP", KeyCase::Kebab).unwrap();
    assert_eq!(flag.k.as_str(), "env");
}

#[test]
fn test_load_resolved_missing_default() {
    let overlays = vec![];
    let env = vec![];
    let r: Result<Flag, Error> =
        configured::resolver::load_resolved(None, &overlays, &env, "APP", KeyCase::Kebab);
    assert!(matches!(r, Err(Error::Load(_))));
}

#[test]
fn test_load_resolved_missing_field() {
    let default = vec![entry(&["other"], "x")];
    let overlays = vec![];
    let env = vec![];
    let r: Result<Flag, Error> =
        configured::resolver::load_resolved(Some(&default), &overlays, &env, "APP", KeyCase::Kebab);
    assert!(matches!(r, Err(Error::Deserialize(_))));
}
