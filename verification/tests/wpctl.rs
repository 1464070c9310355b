use audio_system_tray::wpctl::{parse_sinks, strip_tree_glyphs};

const SAMPLE_OUTPUT: &str = r#"PipeWire 'pipewire-0' [1.6.5, user@host, cookie:12345]
 └─ Clients:
        32. WirePlumber

Audio
 ├─ Devices:
 │      50. GP104 High Definition Audio Controller [alsa]
 │
 ├─ Sinks:
 │      56. Ryzen HD Audio Controller Analog Stereo [vol: 0.39]
 │      65. Easy Effects Sink                   [vol: 1.00]
 │  *  107. JBL Tour One M3                     [vol: 0.29]
 │     228. GP104 High Definition Audio Controller Digital Stereo (HDMI) [vol: 0.30]
 │
 ├─ Sources:
 │      57. Ryzen HD Audio Controller Analog Stereo [vol: 1.00]
 │      66. Easy Effects Source                 [vol: 1.00]
 │
"#;

#[test]
fn parses_four_sinks() {
    let sinks = parse_sinks(SAMPLE_OUTPUT);
    assert_eq!(sinks.len(), 4);
}

#[test]
fn detects_default_sink() {
    let sinks = parse_sinks(SAMPLE_OUTPUT);
    let default_sinks: Vec<_> = sinks.iter().filter(|s| s.is_default).collect();
    assert_eq!(default_sinks.len(), 1);
    assert_eq!(default_sinks[0].id, 107);
    assert_eq!(default_sinks[0].name, "JBL Tour One M3");
}

#[test]
fn parses_ids_as_numbers() {
    let ids: Vec<u32> = parse_sinks(SAMPLE_OUTPUT).iter().map(|s| s.id).collect();
    assert_eq!(ids, vec![56, 65, 107, 228]);
}

#[test]
fn names_are_trimmed_and_non_empty() {
    for s in parse_sinks(SAMPLE_OUTPUT) {
        assert!(!s.name.is_empty());
        assert_eq!(s.name.trim(), s.name);
    }
}

#[test]
fn largest_id_is_accepted() {
    let sinks = parse_sinks(" ├─ Sinks:\n │  4294967295. Max\n");
    assert_eq!(sinks.len(), 1);
    assert_eq!(sinks[0].id, u32::MAX);
}

#[test]
fn strip_tree_glyphs_removes_only_glyphs() {
    let line: Vec<char> = " ├─ Sinks: │ a─b ┤└".chars().collect();
    let once = strip_tree_glyphs(&line);
    assert_eq!(once.iter().collect::<String>(), "  Sinks:  ab ");
    assert_eq!(strip_tree_glyphs(&once), once);
}
