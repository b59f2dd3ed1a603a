//! Tray texts and the tray icon image.
use vstd::prelude::*;
use crate::text::str_eq;

verus! {

/// Tray menu texts: [show/hide, settings, refresh now, quit], English for
/// `en`, Chinese otherwise.
pub fn tray_labels(lang: &str) -> (r: [&'static str; 4])
    ensures
        lang@ == "en"@ ==> r[0]@ == "Show / Hide overlay"@ && r[1]@ == "Settings…"@ && r[2]@
            == "Refresh now"@ && r[3]@ == "Quit"@,
        lang@ != "en"@ ==> r[0]@ == "显示 / 隐藏悬浮窗"@ && r[1]@ == "设置…"@ && r[2]@ == "立即刷新"@
            && r[3]@ == "退出"@,
{
    if str_eq(lang, "en") {
        ["Show / Hide overlay", "Settings…", "Refresh now", "Quit"]
    } else {
        ["显示 / 隐藏悬浮窗", "设置…", "立即刷新", "退出"]
    }
}

/// Title of the settings window, English for `en`, Chinese otherwise.
pub fn settings_title(lang: &str) -> (r: &'static str)
    ensures
        lang@ == "en"@ ==> r@ == "GPT-HP-BAR Settings"@,
        lang@ != "en"@ ==> r@ == "GPT-HP-BAR 设置"@,
{
    if str_eq(lang, "en") {
        "GPT-HP-BAR Settings"
    } else {
        "GPT-HP-BAR 设置"
    }
}

/// Quota level shown by the tray icon.
#[derive(Clone, Copy, Debug, PartialEq, Eq)]
pub enum TrayLevel {
    /// No data.
    Unknown,
    /// More than half left.
    High,
    /// More than a fifth left.
    Medium,
    /// A fifth or less left.
    Low,
}

/// Bar color of a level: grey, green, yellow, red.
pub open spec fn level_color_spec(level: TrayLevel) -> (u8, u8, u8) {
    match level {
        TrayLevel::Unknown => (90, 98, 115),
        TrayLevel::High => (110, 231, 183),
        TrayLevel::Medium => (253, 230, 138),
        TrayLevel::Low => (252, 165, 165),
    }
}

/// Bar color of a level.
pub fn level_color(level: TrayLevel) -> (r: (u8, u8, u8))
    ensures
        r == level_color_spec(level),
{
    match level {
        TrayLevel::Unknown => (90, 98, 115),
        TrayLevel::High => (110, 231, 183),
        TrayLevel::Medium => (253, 230, 138),
        TrayLevel::Low => (252, 165, 165),
    }
}

/// Side of the square tray image in pixels.
pub const TRAY_SIZE: usize = 32;

/// Pixel `(x, y)` of the tray image as RGBA: the bar (x 5..27, y 13..19)
/// filled with `color` left of `fill_end` and slate right of it, on a dark
/// square (|x-16|, |y-16| <= 12), transparent elsewhere.
pub open spec fn tray_pixel(x: int, y: int, color: (u8, u8, u8), fill_end: int) -> (u8, u8, u8, u8) {
    if 5 <= x < 27 && 13 <= y < 19 {
        if x < fill_end {
            (color.0, color.1, color.2, 255)
        } else {
            (62, 70, 88, 255)
        }
    } else if -12 <= x - 16 <= 12 && -12 <= y - 16 <= 12 {
        (16, 20, 28, 240)
    } else {
        (0, 0, 0, 0)
    }
}

/// Byte `i` of the row-major RGBA buffer of the tray image.
pub open spec fn tray_byte(i: int, color: (u8, u8, u8), fill_end: int) -> u8 {
    let p = tray_pixel((i / 4) % 32, (i / 4) / 32, color, fill_end);
    let c = i % 4;
    if c == 0 {
        p.0
    } else if c == 1 {
        p.1
    } else if c == 2 {
        p.2
    } else {
        p.3
    }
}

/// The 32x32 RGBA tray image for a bar of `color` filled up to column `fill_end`.
pub fn tray_pixels(color: (u8, u8, u8), fill_end: usize) -> (r: Vec<u8>)
    ensures
        r@ == Seq::new(4096, |i: int| tray_byte(i, color, fill_end as int)),
{
    let mut px: Vec<u8> = Vec::new();
    let mut i: usize = 0;
    while i < 4096
        invariant
            i <= 4096,
            px@ == Seq::new(i as nat, |k: int| tray_byte(k, color, fill_end as int)),
        decreases 4096 - i,
    {
        let x = (i / 4) % 32;
        let y = (i / 4) / 32;
        let (r, g, b, a) = if 5 <= x && x < 27 && 13 <= y && y < 19 {
            if x < fill_end {
                (color.0, color.1, color.2, 255u8)
            } else {
                (62u8, 70u8, 88u8, 255u8)
            }
        } else if 4 <= x && x <= 28 && 4 <= y && y <= 28 {
            (16u8, 20u8, 28u8, 240u8)
        } else {
            (0u8, 0u8, 0u8, 0u8)
        };
        let c = i % 4;
        let v = if c == 0 {
            r
        } else if c == 1 {
            g
        } else if c == 2 {
            b
        } else {
            a
        };
        px.push(v);
        assert(px@ =~= Seq::new((i + 1) as nat, |k: int| tray_byte(k, color, fill_end as int)));
        i += 1;
    }
    px
}

} // verus!
