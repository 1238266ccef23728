//! Configuration handling and the text the tray and notifier show.

use cosmic_pinger::config::{normalize_target, normalize_targets, AppConfig};
use cosmic_pinger::label::{append_dec, append_pad2, dec_string};
use cosmic_pinger::status::EffectiveStatus;
use cosmic_pinger::ui::{
    clock_text, icon_color, icon_pixels, last_check_label, menu_line, notification_content,
    title_text, tooltip_text, UrgencyLevel,
};

#[test]
fn default_config_targets() {
    let cfg = AppConfig::default();
    assert_eq!(cfg.targets, vec!["google.com".to_string(), "1.1.1.1".to_string()]);
}

#[test]
fn normalize_trims_and_rejects_empty() {
    assert_eq!(normalize_target("  example.com  "), Some("example.com".to_string()));
    assert_eq!(normalize_target("example.com"), Some("example.com".to_string()));
    assert_eq!(normalize_target("   "), None);
    assert_eq!(normalize_target(""), None);
    assert_eq!(normalize_target("\ta\n"), Some("a".to_string()));
}

#[test]
fn normalize_list_drops_empty_entries() {
    let raw = vec![" a ".to_string(), "".to_string(), "  ".to_string(), "b".to_string()];
    let cleaned = normalize_targets(&raw);
    assert_eq!(cleaned, vec!["a".to_string(), "b".to_string()]);
}

#[test]
fn editor_add_and_remove() {
    let mut cfg = AppConfig { targets: Vec::new() };
    assert!(cfg.add_target(" x.org "));
    assert!(!cfg.add_target("   "));
    assert!(cfg.add_target("y.org"));
    assert_eq!(cfg.targets, vec!["x.org".to_string(), "y.org".to_string()]);
    assert!(cfg.remove_target(0));
    assert_eq!(cfg.targets, vec!["y.org".to_string()]);
    assert!(!cfg.remove_target(5));
    assert_eq!(cfg.targets, vec!["y.org".to_string()]);
}

#[test]
fn decimal_rendering() {
    assert_eq!(dec_string(0), "0");
    assert_eq!(dec_string(7), "7");
    assert_eq!(dec_string(255), "255");
    assert_eq!(dec_string(12345), "12345");
    assert_eq!(dec_string(1000), "1000");
    let mut s = "n=".to_string();
    append_dec(&mut s, 42);
    assert_eq!(s, "n=42");
    let mut p = String::new();
    append_pad2(&mut p, 7);
    assert_eq!(p, "07");
}

#[test]
fn clock_text_pads_fields() {
    assert_eq!(clock_text(9, 5, 0), "09:05:00");
    assert_eq!(clock_text(23, 59, 59), "23:59:59");
}

#[test]
fn notification_shapes() {
    let up = notification_content(&"x.org".to_string(), true);
    assert_eq!(up.summary, "Cosmic Pinger");
    assert_eq!(up.body, "x.org is back online.");
    assert_eq!(up.icon, "network-transmit-receive");
    assert_eq!(up.urgency, UrgencyLevel::Normal);
    assert_eq!(up.timeout_ms, 5000);
    let down = notification_content(&"x.org".to_string(), false);
    assert_eq!(down.body, "x.org is OFFLINE!");
    assert_eq!(down.icon, "network-error");
    assert_eq!(down.urgency, UrgencyLevel::Critical);
}

#[test]
fn icon_colors() {
    assert_eq!(icon_color(true, true), (255, 255, 0));
    assert_eq!(icon_color(true, false), (255, 255, 0));
    assert_eq!(icon_color(false, true), (0, 255, 0));
    assert_eq!(icon_color(false, false), (255, 0, 0));
}

#[test]
fn icon_pixel_buffer() {
    let data = icon_pixels(10, 20, 30);
    assert_eq!(data.len(), 32 * 32 * 4);
    for px in data.chunks(4) {
        assert_eq!(px, [255, 10, 20, 30]);
    }
}

#[test]
fn title_variants() {
    assert_eq!(title_text(false, true, 0), "Cosmic Pinger ...");
    assert_eq!(title_text(true, true, 3), "Cosmic Pinger OK (3m)");
    assert_eq!(title_text(true, false, 12), "Cosmic Pinger WARN (12m)");
}

#[test]
fn tooltip_variants() {
    assert_eq!(tooltip_text(true, true, 0), "Starting...");
    assert_eq!(tooltip_text(false, true, 4), "Online - 4 sites monitored");
    assert_eq!(tooltip_text(false, false, 4), "OFFLINE DETECTED");
}

#[test]
fn last_check_variants() {
    assert_eq!(last_check_label(false, 0, 0), "Waiting for first check...");
    assert_eq!(last_check_label(true, 0, 42), "Last check: 42 sec ago");
    assert_eq!(last_check_label(true, 2, 5), "Last check: 2 min 5 sec ago");
}

#[test]
fn menu_lines() {
    let up = EffectiveStatus {
        target: "google.com".to_string(),
        effective_reachable: true,
        display_label: "23.4 ms".to_string(),
    };
    assert_eq!(menu_line(&up), "UP google.com (23.4 ms)");
    let down = EffectiveStatus {
        target: "x.org".to_string(),
        effective_reachable: false,
        display_label: "HTTP 503".to_string(),
    };
    assert_eq!(menu_line(&down), "DOWN x.org (HTTP 503)");
}
