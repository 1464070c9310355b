use audio_system_tray::tray::{MenuAction, MenuEntry, TrayState};
use audio_system_tray::wpctl::AudioSink;

fn sink(id: u32, name: &str, is_default: bool) -> AudioSink {
    AudioSink { id, name: name.to_string(), is_default }
}

fn sample() -> TrayState {
    TrayState::new(vec![sink(56, "Ryzen", false), sink(107, "JBL", true), sink(228, "HDMI", false)])
}

#[test]
fn title_names_default_sink() {
    assert_eq!(sample().title(), "🔊 JBL");
    assert_eq!(TrayState::new(vec![sink(1, "A", false)]).title(), "🔊 Audio Output");
    assert_eq!(TrayState::new(vec![sink(1, "A", true), sink(2, "B", true)]).title(), "🔊 A");
}

#[test]
fn id_and_icon() {
    let t = sample();
    assert_eq!(t.id(), "audio-system-tray");
    assert_eq!(t.icon_name(), "audio-volume-high");
}

fn label(e: &MenuEntry) -> String {
    match e {
        MenuEntry::Label(l) => format!("label:{l}"),
        MenuEntry::Separator => "sep".to_string(),
        MenuEntry::Item { label, icon, action } => format!("item:{label}|{icon}|{action:?}"),
    }
}

#[test]
fn menu_lists_sinks_with_indicator() {
    let m: Vec<String> = sample().menu().iter().map(label).collect();
    assert_eq!(
        m,
        vec![
            "label:Audio Output".to_string(),
            "sep".to_string(),
            "item:  Ryzen||SelectSink(56)".to_string(),
            "item:● JBL||SelectSink(107)".to_string(),
            "item:  HDMI||SelectSink(228)".to_string(),
            "sep".to_string(),
            "item:↺  Refresh||Refresh".to_string(),
            "item:Quit|application-exit|Quit".to_string(),
        ]
    );
}

#[test]
fn menu_without_sinks_says_so() {
    let m: Vec<String> = TrayState::new(vec![]).menu().iter().map(label).collect();
    assert_eq!(m.len(), 6);
    assert_eq!(m[2], "label:(no audio sinks found)");
}

#[test]
fn mark_default_moves_the_default() {
    let mut t = sample();
    t.mark_default(228);
    let flags: Vec<bool> = t.sinks.iter().map(|s| s.is_default).collect();
    assert_eq!(flags, vec![false, false, true]);
    assert_eq!(t.title(), "🔊 HDMI");
    t.mark_default(228);
    let again: Vec<bool> = t.sinks.iter().map(|s| s.is_default).collect();
    assert_eq!(again, flags);
    assert_eq!(t.sinks[2].name, "HDMI");
}

#[test]
fn mark_unknown_id_clears_default() {
    let mut t = sample();
    t.mark_default(999);
    assert!(t.sinks.iter().all(|s| !s.is_default));
    assert_eq!(t.title(), "🔊 Audio Output");
}

#[test]
fn refresh_replaces_sinks() {
    let mut t = sample();
    t.refresh(vec![sink(5, "New", true)]);
    assert_eq!(t.sinks.len(), 1);
    assert_eq!(t.title(), "🔊 New");
    assert_eq!(MenuAction::Refresh, MenuAction::Refresh);
}

#[test]
fn failed_set_default_changes_nothing() {
    let mut t = sample();
    assert!(!t.after_set_default(228, false));
    assert_eq!(t.title(), "🔊 JBL");
    assert!(t.after_set_default(228, true));
    assert_eq!(t.title(), "🔊 HDMI");
}

#[test]
fn failed_refresh_keeps_sinks() {
    let mut t = sample();
    assert!(!t.after_refresh(None));
    assert_eq!(t.sinks.len(), 3);
    assert!(t.after_refresh(Some(vec![sink(9, "Only", false)])));
    assert_eq!(t.sinks.len(), 1);
    assert_eq!(t.title(), "🔊 Audio Output");
}
