use heard_it::devices::contains_pulse;
use heard_it::devices::fallback_candidates;
use heard_it::devices::preferred_backend;
use heard_it::devices::resolve_device;
use heard_it::devices::DeviceChoice;

#[test]
fn pulse_detection_ignores_case() {
    assert!(contains_pulse("PulseAudio"));
    assert!(contains_pulse("pulse"));
    assert!(contains_pulse("PULSEAUDIO"));
    assert!(contains_pulse("a PuLsE server"));
    assert!(!contains_pulse("Alsa"));
    assert!(!contains_pulse("Jack"));
    assert!(!contains_pulse("puls"));
    assert!(!contains_pulse(""));
}

#[test]
fn preferred_backend_picks_first_pulse_host() {
    let names = vec!["Alsa".to_string(), "PulseAudio".to_string(), "pulse2".to_string()];
    assert_eq!(preferred_backend(&names), Some(1));
    let none = vec!["Alsa".to_string(), "CoreAudio".to_string()];
    assert_eq!(preferred_backend(&none), None);
    assert_eq!(preferred_backend(&Vec::new()), None);
}

#[test]
fn blank_request_means_system_default() {
    let names = vec!["mic one".to_string()];
    assert!(matches!(resolve_device(&"".to_string(), &names), DeviceChoice::SystemDefault));
    assert!(matches!(resolve_device(&"   ".to_string(), &names), DeviceChoice::SystemDefault));
    assert!(matches!(resolve_device(&"\t\n".to_string(), &names), DeviceChoice::SystemDefault));
}

#[test]
fn named_request_resolves_to_first_match() {
    let names = vec!["a".to_string(), "mic".to_string(), "mic".to_string()];
    match resolve_device(&"mic".to_string(), &names) {
        DeviceChoice::ByIndex(i) => assert_eq!(i, 1),
        DeviceChoice::SystemDefault => panic!("should match"),
    }
}

#[test]
fn unknown_request_falls_back_to_default() {
    let names = vec!["a".to_string(), "b".to_string()];
    assert!(matches!(resolve_device(&"c".to_string(), &names), DeviceChoice::SystemDefault));
}

#[test]
fn fallback_skips_the_failed_device_by_name() {
    let names = vec!["a".to_string(), "b".to_string(), "a".to_string(), "c".to_string()];
    assert_eq!(fallback_candidates(&names, &"a".to_string()), vec![1, 3]);
    assert_eq!(fallback_candidates(&names, &"zzz".to_string()), vec![0, 1, 2, 3]);
    assert_eq!(fallback_candidates(&Vec::new(), &"a".to_string()), Vec::<usize>::new());
}
