use audio_system_tray::backend::{
    detect_backend, parse_pactl_sinks, parse_wpctl_sinks, AudioSink, BackendKind, DefaultSinkStep,
    Detection, PactlBackend, PactlQuery, WpctlBackend,
};

const SAMPLE_WPCTL_OUTPUT: &str = r#"PipeWire 'pipewire-0' [1.6.5, user@host, cookie:12345]
 └─ Clients:
        32. WirePlumber
 
Audio
 ├─ Devices:
  │      50. GP104 High Definition Audio Controller [alsa]
  │
  ├─ Sinks:
  │      56. Ryzen HD Audio Controller Analog Stereo [vol: 0.39]
  │      65. Easy Effects Sink                   [vol: 1.00]
  │  *  107. JBL Tour One M3                     [vol: 0.29]
  │     228. GP104 High Definition Audio Controller Digital Stereo (HDMI) [vol: 0.30]
  │
  ├─ Sources:
  │      57. Ryzen HD Audio Controller Analog Stereo [vol: 1.00]
  │      66. Easy Effects Source                 [vol: 1.00]
  │
"#;

const SAMPLE_PACTL_OUTPUT: &str = r#"Sink #0
	State: SUSPENDED
	Name: alsa_output.pci-0000_00_1f.3.analog-stereo
	Description: Built-in Audio Analog Stereo
	Driver: module-alsa-card.c
	Sample Specification: s16le 2ch 44100Hz
	Channel Map: front-left,front-right
	Owner Module: 6
	Mute: no
	Volume: front-left: 65536 / 100% / 0.00 dB,   front-right: 65536 / 100% / 0.00 dB
	        balance 0.00
	Base Volume: 65536 / 100% / 0.00 dB
	Monitor Source: alsa_output.pci-0000_00_1f.3.analog-stereo.monitor
	Latency: 0 usec, configured 0 usec
	Flags: HARDWARE HW_MUTE_CTRL HW_VOLUME_CTRL DECIBEL_VOLUME LATENCY SET_FORMATS 
	Properties:
		alsa.resolution_bits = "16"
		device.api = "alsa"
	Active Port: analog-output-speaker
	Formats:
		pcm

Sink #1
	State: RUNNING
	Name: bluez_output.00_11_22_33_44_55.a2dp-sink
	Description: JBL Tour One M3
	Driver: module-bluez5-device.c
	Volume: front-left: 32768 /  50% / -18.00 dB,   front-right: 32768 /  50% / -18.00 dB
"#;

fn sink(id: &str, name: &str, is_default: bool) -> AudioSink {
    AudioSink { id: id.to_string(), name: name.to_string(), is_default }
}

#[test]
fn parses_wpctl_sinks_correctly() {
    let sinks = parse_wpctl_sinks(SAMPLE_WPCTL_OUTPUT);
    assert_eq!(sinks.len(), 4);
    assert_eq!(sinks[2].id, "107");
    assert_eq!(sinks[2].name, "JBL Tour One M3");
    assert_eq!(sinks[2].is_default, true);
}

#[test]
fn parses_pactl_sinks_correctly() {
    let sinks = parse_pactl_sinks(SAMPLE_PACTL_OUTPUT, Some("bluez_output.00_11_22_33_44_55.a2dp-sink"));
    assert_eq!(sinks.len(), 2);

    assert_eq!(sinks[0].id, "alsa_output.pci-0000_00_1f.3.analog-stereo");
    assert_eq!(sinks[0].name, "Built-in Audio Analog Stereo");
    assert_eq!(sinks[0].is_default, false);

    assert_eq!(sinks[1].id, "bluez_output.00_11_22_33_44_55.a2dp-sink");
    assert_eq!(sinks[1].name, "JBL Tour One M3");
    assert_eq!(sinks[1].is_default, true);
}

#[test]
fn wpctl_sample_gives_every_sink_in_order() {
    let sinks = parse_wpctl_sinks(SAMPLE_WPCTL_OUTPUT);
    assert_eq!(
        sinks,
        vec![
            sink("56", "Ryzen HD Audio Controller Analog Stereo", false),
            sink("65", "Easy Effects Sink", false),
            sink("107", "JBL Tour One M3", true),
            sink("228", "GP104 High Definition Audio Controller Digital Stereo (HDMI)", false),
        ]
    );
}

#[test]
fn wpctl_readings_agree_on_sample() {
    let text_ids = parse_wpctl_sinks(SAMPLE_WPCTL_OUTPUT);
    let numeric = audio_system_tray::wpctl::parse_sinks(SAMPLE_WPCTL_OUTPUT);
    assert_eq!(text_ids.len(), numeric.len());
    for (a, b) in text_ids.iter().zip(numeric.iter()) {
        assert_eq!(a.name, b.name);
        assert_eq!(a.is_default, b.is_default);
        assert_eq!(a.id.parse::<u32>().unwrap(), b.id);
    }
}

#[test]
fn wpctl_keeps_id_text_as_written() {
    let out = " ├─ Sinks:\n │  +007. Plus Sink [vol: 1.00]\n";
    let sinks = parse_wpctl_sinks(out);
    assert_eq!(sinks, vec![sink("+007", "Plus Sink", false)]);
    let numeric = audio_system_tray::wpctl::parse_sinks(out);
    assert_eq!(numeric[0].id, 7);
}

#[test]
fn wpctl_skips_malformed_lines() {
    let out = " ├─ Sinks:\n │      no dot here\n │      abc. Not a number\n │      4294967296. Too large\n │      -1. Negative\n │      12.   [vol: 0.50]\n │      13.\n │      + . Sign only\n │      14. Kept\n";
    assert_eq!(parse_wpctl_sinks(out), vec![sink("14", "Kept", false)]);
}

#[test]
fn wpctl_without_sinks_section_gives_nothing() {
    let out = "Audio\n ├─ Devices:\n │      50. Device\n ├─ Sources:\n │      57. Mic\n";
    assert!(parse_wpctl_sinks(out).is_empty());
    assert!(parse_wpctl_sinks("").is_empty());
}

#[test]
fn wpctl_section_ends_at_next_header() {
    let out = " ├─ Sinks:\n │  1. One\n ├─ Filters:\n │  2. Two\n";
    assert_eq!(parse_wpctl_sinks(out), vec![sink("1", "One", false)]);
}

#[test]
fn wpctl_line_ending_in_colon_without_branch_is_a_sink_line() {
    let out = " ├─ Sinks:\n │  1. Name:\n │  2. Two\n";
    assert_eq!(parse_wpctl_sinks(out), vec![sink("1", "Name:", false), sink("2", "Two", false)]);
}

#[test]
fn wpctl_strips_only_last_volume_annotation_and_handles_crlf() {
    let out = " ├─ Sinks:\r\n │  * 5. A [vol: x] B [vol: 0.10]\r\n";
    assert_eq!(parse_wpctl_sinks(out), vec![sink("5", "A [vol: x] B", true)]);
}

#[test]
fn wpctl_glyphs_inside_a_name_are_removed() {
    let out = " ├─ Sinks:\n │  9. Left─Right\n";
    assert_eq!(parse_wpctl_sinks(out), vec![sink("9", "LeftRight", false)]);
}

#[test]
fn wpctl_second_sinks_header_reopens_section() {
    let out = " ├─ Sinks:\n │  1. One\n ├─ Sinks:\n │  2. Two\n";
    assert_eq!(parse_wpctl_sinks(out), vec![sink("1", "One", false), sink("2", "Two", false)]);
}

#[test]
fn pactl_without_default_marks_nothing() {
    let sinks = parse_pactl_sinks(SAMPLE_PACTL_OUTPUT, None);
    assert_eq!(sinks.len(), 2);
    assert!(sinks.iter().all(|s| !s.is_default));
}

#[test]
fn pactl_name_falls_back_to_symbolic_name() {
    let out = "Sink #3\n\tName: sink.a\nSink #4\n\tName: sink.b\n\tDescription: B\n";
    let sinks = parse_pactl_sinks(out, Some("sink.a"));
    assert_eq!(sinks, vec![sink("sink.a", "sink.a", true), sink("sink.b", "B", false)]);
}

#[test]
fn pactl_block_without_name_is_dropped_and_keeps_description() {
    let out = "Sink #0\n\tDescription: Ghost\nSink #1\n\tName: real.sink\n";
    let sinks = parse_pactl_sinks(out, None);
    assert_eq!(sinks, vec![sink("real.sink", "Ghost", false)]);
}

#[test]
fn pactl_empty_output_gives_nothing() {
    assert!(parse_pactl_sinks("", Some("x")).is_empty());
}

#[test]
fn pactl_default_from_query() {
    assert_eq!(PactlBackend::default_sink_from_query("  alsa.out \n"), Some("alsa.out".to_string()));
    assert_eq!(PactlBackend::default_sink_from_query(" \n\t"), None);
}

#[test]
fn pactl_default_from_info() {
    let info = "Server String: x\nDefault Sink:   \nDefault Sink: bluez.sink \nDefault Sink: other\n";
    assert_eq!(PactlBackend::default_sink_from_info(info), Some("bluez.sink".to_string()));
    assert_eq!(PactlBackend::default_sink_from_info("  Default Sink: indented\n"), None);
    assert_eq!(PactlBackend::default_sink_from_info(""), None);
}

#[test]
fn backend_names() {
    assert_eq!(WpctlBackend.name(), "wpctl");
    assert_eq!(PactlBackend.name(), "pactl");
}

#[test]
fn detection_tries_wpctl_then_pactl() {
    assert_eq!(detect_backend(None), Detection::Probe(BackendKind::Wpctl));
    assert_eq!(detect_backend(Some((BackendKind::Wpctl, true))), Detection::Found(BackendKind::Wpctl));
    assert_eq!(detect_backend(Some((BackendKind::Wpctl, false))), Detection::Probe(BackendKind::Pactl));
    assert_eq!(detect_backend(Some((BackendKind::Pactl, true))), Detection::Found(BackendKind::Pactl));
    assert_eq!(detect_backend(Some((BackendKind::Pactl, false))), Detection::Unavailable);
}

fn step_text(step: DefaultSinkStep) -> String {
    match step {
        DefaultSinkStep::Run(q) => format!("run {q:?}"),
        DefaultSinkStep::Found(n) => format!("found {n}"),
        DefaultSinkStep::NotFound => "not found".to_string(),
    }
}

#[test]
fn default_sink_search_prefers_query_then_info() {
    let step = |last| step_text(PactlBackend::default_sink_step(last));
    assert_eq!(step(None), "run GetDefaultSink");
    assert_eq!(step(Some((PactlQuery::GetDefaultSink, Some(" a.sink\n")))), "found a.sink");
    assert_eq!(step(Some((PactlQuery::GetDefaultSink, Some("  \n")))), "run Info");
    assert_eq!(step(Some((PactlQuery::GetDefaultSink, None))), "run Info");
    assert_eq!(step(Some((PactlQuery::Info, Some("Default Sink: b.sink\n")))), "found b.sink");
    assert_eq!(step(Some((PactlQuery::Info, Some("Server: x\n")))), "not found");
    assert_eq!(step(Some((PactlQuery::Info, None))), "not found");
}
