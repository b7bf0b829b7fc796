use solder::preset::{NodeMatcher, Preset, PortTypeFilter, PresetConnection};

#[test]
fn new_preset_is_empty() {
    let preset = Preset::new("Live");
    assert_eq!(preset.name, "Live");
    assert_eq!(preset.version, 1);
    assert!(preset.connections.is_empty());
    assert!(preset.node_renames.is_empty());
    assert!(preset.pinned_connections.is_empty());
}

#[test]
fn matcher_builders_set_their_fields() {
    let m = NodeMatcher::new("Mic").with_app_name("Recorder").with_object_path("alsa:pcm:0");
    assert_eq!(m.name, "Mic");
    assert_eq!(m.app_name, Some("Recorder".to_string()));
    assert_eq!(m.object_path, Some("alsa:pcm:0".to_string()));
    assert!(!m.use_regex);
    let plain = NodeMatcher::new("Mic");
    assert_eq!(plain.app_name, None);
    assert_eq!(plain.object_path, None);
}

#[test]
fn literal_name_must_be_equal() {
    let m = NodeMatcher::new("Mic");
    assert!(m.matches("Mic", None, None));
    assert!(!m.matches("Mic 2", None, None));
    assert!(!m.matches("mic", None, None));
}

#[test]
fn matcher_without_app_accepts_any_app() {
    let m = NodeMatcher::new("Mic");
    assert!(m.matches("Mic", Some("Recorder"), None));
    assert!(m.matches("Mic", None, Some("alsa:pcm:0")));
}

#[test]
fn matcher_with_app_wants_that_app() {
    let m = NodeMatcher::new("Mic").with_app_name("Recorder");
    assert!(m.matches("Mic", Some("Recorder"), None));
    assert!(!m.matches("Mic", Some("Player"), None));
    assert!(!m.matches("Mic", None, None));
    assert!(!m.matches("Other", Some("Recorder"), None));
}

#[test]
fn path_decides_alone_where_both_have_one() {
    let m = NodeMatcher::new("Mic").with_app_name("Recorder").with_object_path("alsa:pcm:0");
    assert!(m.matches("Renamed", Some("Player"), Some("alsa:pcm:0")));
    assert!(!m.matches("Mic", Some("Recorder"), Some("alsa:pcm:1")));
    // the node has no path: name and app decide
    assert!(m.matches("Mic", Some("Recorder"), None));
    assert!(!m.matches("Renamed", Some("Recorder"), None));
}

#[test]
fn pattern_matches_names() {
    let mut m = NodeMatcher::new("^Mic( [0-9]+)?$");
    m.use_regex = true;
    assert!(m.matches("Mic", None, None));
    assert!(m.matches("Mic 12", None, None));
    assert!(!m.matches("Mic x", None, None));
    assert!(!m.matches("^Mic( [0-9]+)?$", None, None));
    let mut anywhere = NodeMatcher::new("uitar");
    anywhere.use_regex = true;
    assert!(anywhere.matches("Guitar Rig", None, None));
}

#[test]
fn pattern_matches_paths() {
    let mut m = NodeMatcher::new("ignored").with_object_path("^alsa:pcm:[0-9]$");
    m.use_regex = true;
    assert!(m.matches("anything", None, Some("alsa:pcm:3")));
    assert!(!m.matches("ignored", None, Some("alsa:pcm:30")));
}

#[test]
fn pattern_with_app_wants_that_app() {
    let mut m = NodeMatcher::new("Mic.*").with_app_name("Recorder");
    m.use_regex = true;
    assert!(m.matches("Mic 1", Some("Recorder"), None));
    assert!(!m.matches("Mic 1", Some("Player"), None));
}

#[test]
fn invalid_pattern_matches_nothing() {
    let mut m = NodeMatcher::new("Mic(");
    m.use_regex = true;
    assert!(!m.matches("Mic(", None, None));
    assert!(!m.matches("Mic", None, None));
    let mut by_path = NodeMatcher::new("Mic").with_object_path("alsa[");
    by_path.use_regex = true;
    assert!(!by_path.matches("Mic", None, Some("alsa[")));
    // without a path on the node the name decides, and "Mic" is a valid pattern
    assert!(by_path.matches("Mic", None, None));
}

#[test]
fn decide_follows_the_search_outcomes() {
    let mut m = NodeMatcher::new("n").with_app_name("a").with_object_path("p");
    m.use_regex = true;
    assert!(m.decide("x", None, Some("y"), Some(true), None));
    assert!(!m.decide("x", None, Some("y"), Some(false), Some(true)));
    assert!(!m.decide("x", None, Some("y"), None, Some(true)));
    assert!(m.decide("x", Some("a"), None, None, Some(true)));
    assert!(!m.decide("x", Some("b"), None, None, Some(true)));
    assert!(!m.decide("x", Some("a"), None, Some(true), Some(false)));
    assert!(!m.decide("x", Some("a"), None, Some(true), None));
    m.use_regex = false;
    assert!(m.decide("x", None, Some("p"), Some(false), Some(false)));
    assert!(m.decide("n", Some("a"), None, None, None));
}

#[test]
fn connections_compare_by_value() {
    let a = PresetConnection {
        output_node: NodeMatcher::new("Mic"),
        output_port: "out".to_string(),
        input_node: NodeMatcher::new("Speakers"),
        input_port: "in".to_string(),
        pinned: false,
    };
    let mut b = a.clone();
    assert_eq!(a, b);
    b.pinned = true;
    assert_ne!(a, b);
    assert_eq!(PortTypeFilter::default(), PortTypeFilter::All);
}
