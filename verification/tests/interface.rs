use gpt_hp_bar::geometry::Rect;
use gpt_hp_bar::settings::{lang_changed, sanitize_settings, Settings};
use gpt_hp_bar::taskbar::{
    is_band_widget, is_system_child_class, is_tray_child_occupant, uia_element_accepted,
    uia_occupancy,
};
use gpt_hp_bar::tray::{level_color, settings_title, tray_labels, tray_pixels, TrayLevel};

#[test]
fn default_settings() {
    let s = Settings::default();
    assert_eq!(s.skin, "card");
    assert_eq!((s.font_scale, s.opacity, s.poll_secs), (100, 96, 60));
    assert_eq!(s.accent, "auto");
    assert!(s.show_week && s.show_credits && s.show_countdown && s.show_email);
    assert!(!s.autostart && s.mini_enabled);
    assert_eq!(s.mini_pos, "right");
    assert_eq!(s.lang, "zh");
}

#[test]
fn sanitize_clamps_and_resets_unknown_names() {
    let mut s = Settings::default();
    s.font_scale = 10;
    s.opacity = 200;
    s.poll_secs = 5;
    s.skin = "nope".into();
    s.accent = "violet".into();
    s.mini_pos = "top".into();
    s.lang = "fr".into();
    s.show_email = false;
    let r = sanitize_settings(s);
    assert_eq!((r.font_scale, r.opacity, r.poll_secs), (80, 100, 30));
    assert_eq!(r.skin, "card");
    assert_eq!(r.accent, "violet");
    assert_eq!(r.mini_pos, "right");
    assert_eq!(r.lang, "zh");
    assert!(!r.show_email);

    let mut s = Settings::default();
    s.font_scale = 151;
    s.opacity = 39;
    s.poll_secs = 601;
    s.skin = "pixel".into();
    s.accent = "purple".into();
    s.mini_pos = "left".into();
    s.lang = "en".into();
    let r = sanitize_settings(s);
    assert_eq!((r.font_scale, r.opacity, r.poll_secs), (150, 40, 600));
    assert_eq!((r.skin.as_str(), r.accent.as_str(), r.mini_pos.as_str(), r.lang.as_str()), ("pixel", "auto", "left", "en"));
}

#[test]
fn sanitize_is_idempotent() {
    let mut s = Settings::default();
    s.font_scale = 999;
    s.accent = "x".into();
    let once = sanitize_settings(s);
    let (fs, acc) = (once.font_scale, once.accent.clone());
    let twice = sanitize_settings(once);
    assert_eq!((twice.font_scale, twice.accent), (fs, acc));
}

#[test]
fn language_change_is_detected() {
    let a = Settings::default();
    let mut b = Settings::default();
    assert!(!lang_changed(&a, &b));
    b.lang = "en".into();
    assert!(lang_changed(&a, &b));
}

#[test]
fn tray_texts_follow_language() {
    assert_eq!(tray_labels("en"), ["Show / Hide overlay", "Settings…", "Refresh now", "Quit"]);
    assert_eq!(tray_labels("zh"), ["显示 / 隐藏悬浮窗", "设置…", "立即刷新", "退出"]);
    assert_eq!(tray_labels("de")[3], "退出");
    assert_eq!(settings_title("en"), "GPT-HP-BAR Settings");
    assert_eq!(settings_title("zh"), "GPT-HP-BAR 设置");
}

fn pixel(px: &[u8], x: usize, y: usize) -> [u8; 4] {
    let i = (y * 32 + x) * 4;
    [px[i], px[i + 1], px[i + 2], px[i + 3]]
}

#[test]
fn tray_image_draws_bar_on_dark_square() {
    let color = level_color(TrayLevel::High);
    assert_eq!(color, (110, 231, 183));
    let px = tray_pixels(color, 5 + 11);
    assert_eq!(px.len(), 32 * 32 * 4);
    assert_eq!(pixel(&px, 0, 0), [0, 0, 0, 0]);
    assert_eq!(pixel(&px, 4, 4), [16, 20, 28, 240]);
    assert_eq!(pixel(&px, 28, 28), [16, 20, 28, 240]);
    assert_eq!(pixel(&px, 29, 16), [0, 0, 0, 0]);
    assert_eq!(pixel(&px, 5, 13), [110, 231, 183, 255]);
    assert_eq!(pixel(&px, 15, 18), [110, 231, 183, 255]);
    assert_eq!(pixel(&px, 16, 13), [62, 70, 88, 255]);
    assert_eq!(pixel(&px, 26, 18), [62, 70, 88, 255]);
    assert_eq!(pixel(&px, 16, 19), [16, 20, 28, 240]);
    assert_eq!(level_color(TrayLevel::Unknown), (90, 98, 115));
    assert_eq!(level_color(TrayLevel::Medium), (253, 230, 138));
    assert_eq!(level_color(TrayLevel::Low), (252, 165, 165));
}

fn rect(l: i32, t: i32, r: i32, b: i32) -> Rect {
    Rect { left: l, top: t, right: r, bottom: b }
}

#[test]
fn taskbar_filters() {
    let band = rect(0, 1392, 2560, 1440);
    assert!(is_band_widget(&rect(2055, 1392, 2272, 1440), &band, true));
    assert!(!is_band_widget(&rect(2055, 1392, 2272, 1440), &band, false));
    assert!(!is_band_widget(&rect(0, 0, 2560, 1440), &band, true));
    assert!(!is_band_widget(&rect(10, 1400, 15, 1430), &band, true));
    assert!(is_band_widget(&rect(-2, 1390, 2562, 1442), &band, true));

    assert!(is_system_child_class("traynotifywnd"));
    assert!(is_system_child_class("Windows.UI.Input.InputSite.WindowClass"));
    assert!(!is_system_child_class("#32770"));
    assert!(is_tray_child_occupant("#32770", &rect(2055, 1392, 2272, 1440)));
    assert!(!is_tray_child_occupant("Start", &rect(0, 1392, 48, 1440)));
    assert!(!is_tray_child_occupant("#32770", &rect(0, 1392, 5, 1440)));

    assert!(uia_element_accepted(&rect(1015, 1392, 1545, 1440), &band));
    assert!(!uia_element_accepted(&rect(0, 1392, 2400, 1440), &band));
    assert!(!uia_element_accepted(&rect(0, 1300, 100, 1440), &band));
}

#[test]
fn uia_hosts_dropped_only_when_content_found() {
    let elems = vec![
        ("Taskbar.TaskListButtonAutomationPeer".to_string(), rect(1015, 1392, 1060, 1440)),
        ("Windows.UI.Input.InputSite.WindowClass".to_string(), rect(0, 1392, 2000, 1440)),
        ("SomethingElse".to_string(), rect(100, 1392, 150, 1440)),
    ];
    assert_eq!(uia_occupancy(&elems), vec![rect(1015, 1392, 1060, 1440), rect(100, 1392, 150, 1440)]);
    let hosts_only = vec![
        ("Windows.UI.Input.InputSite.WindowClass".to_string(), rect(0, 1392, 2000, 1440)),
        ("SomethingElse".to_string(), rect(100, 1392, 150, 1440)),
    ];
    assert_eq!(uia_occupancy(&hosts_only), vec![rect(0, 1392, 2000, 1440), rect(100, 1392, 150, 1440)]);
}
