//! Which windows and UI Automation elements of the taskbar count as occupied space.
use vstd::prelude::*;
use crate::geometry::{Rect, rect_in_screen};
use crate::text::{eq_ignore_ascii_case, occurs_in, str_contains, str_eq_ignore_ascii_case};

verus! {

/// The rectangle lies inside the band, with 2 px of tolerance on every side.
pub open spec fn inside_band(r: Rect, band: Rect) -> bool {
    &&& r.left >= band.left - 2
    &&& r.right <= band.right + 2
    &&& r.top >= band.top - 2
    &&& r.bottom <= band.bottom + 2
}

/// At least 8 px wide and 8 px high.
pub open spec fn big_enough(r: Rect) -> bool {
    r.right - r.left >= 8 && r.bottom - r.top >= 8
}

fn inside_band_exec(r: &Rect, band: &Rect) -> (b: bool)
    requires
        rect_in_screen(*r),
        rect_in_screen(*band),
    ensures
        b == inside_band(*r, *band),
{
    !(r.left < band.left - 2 || r.right > band.right + 2 || r.top < band.top - 2 || r.bottom
        > band.bottom + 2)
}

fn big_enough_exec(r: &Rect) -> (b: bool)
    requires
        rect_in_screen(*r),
    ensures
        b == big_enough(*r),
{
    !(r.right - r.left < 8 || r.bottom - r.top < 8)
}

/// A top-level window counts as a third-party taskbar widget (such as a
/// traffic monitor) when it is topmost, lies inside the band and is at
/// least 8x8 px. (Visibility, the taskbar itself and this process are
/// filtered out before.)
pub fn is_band_widget(r: &Rect, band: &Rect, topmost: bool) -> (b: bool)
    requires
        rect_in_screen(*r),
        rect_in_screen(*band),
    ensures
        b == (inside_band(*r, *band) && big_enough(*r) && topmost),
{
    if !inside_band_exec(r, band) {
        return false;
    }
    if !big_enough_exec(r) {
        return false;
    }
    topmost
}

/// Class names of the taskbar's own structural child windows.
pub open spec fn system_child_classes() -> Seq<Seq<char>> {
    seq![
        "TrayNotifyWnd"@,
        "Start"@,
        "Windows.UI.Composition.DesktopWindowContentBridge"@,
        "XamlExplorerHostIslandWindow"@,
        "Windows.UI.Input.InputSite.WindowClass"@,
        "TrayDummySearchControl"@,
    ]
}

fn system_child_class(k: usize) -> (r: &'static str)
    requires
        k < 6,
    ensures
        r@ == system_child_classes()[k as int],
{
    match k {
        0 => "TrayNotifyWnd",
        1 => "Start",
        2 => "Windows.UI.Composition.DesktopWindowContentBridge",
        3 => "XamlExplorerHostIslandWindow",
        4 => "Windows.UI.Input.InputSite.WindowClass",
        _ => "TrayDummySearchControl",
    }
}

/// The class is one of the structural classes, ignoring ASCII case.
pub open spec fn is_system_class(cls: Seq<char>) -> bool {
    exists|k: int|
        0 <= k < system_child_classes().len() && eq_ignore_ascii_case(
            cls,
            #[trigger] system_child_classes()[k],
        )
}

/// Whether a window class is one of the taskbar's structural classes (ASCII case ignored).
pub fn is_system_child_class(cls: &str) -> (b: bool)
    ensures
        b == is_system_class(cls@),
{
    let mut k: usize = 0;
    while k < 6
        invariant
            k <= 6,
            system_child_classes().len() == 6,
            forall|j: int|
                0 <= j < k ==> !eq_ignore_ascii_case(cls@, #[trigger] system_child_classes()[j]),
        decreases 6 - k,
    {
        if str_eq_ignore_ascii_case(cls, system_child_class(k)) {
            return true;
        }
        k += 1;
    }
    false
}

/// A visible child window of the taskbar counts as occupied (third-party
/// widgets are re-parented into it) unless it is a structural class or
/// smaller than 8x8 px.
pub fn is_tray_child_occupant(cls: &str, r: &Rect) -> (b: bool)
    requires
        rect_in_screen(*r),
    ensures
        b == (!is_system_class(cls@) && big_enough(*r)),
{
    if is_system_child_class(cls) {
        return false;
    }
    big_enough_exec(r)
}

/// A UI Automation element counts when it is at least 8x8 px, lies inside
/// the band and spans less than 90 % of the band's width (wider ones are
/// the XAML containers).
pub open spec fn uia_accepted(r: Rect, band: Rect) -> bool {
    let bw = if band.right - band.left >= 1 { band.right - band.left } else { 1 };
    big_enough(r) && inside_band(r, band) && (r.right - r.left) * 10 < bw * 9
}

/// Whether a UI Automation element of the taskbar counts as occupied space.
pub fn uia_element_accepted(r: &Rect, band: &Rect) -> (b: bool)
    requires
        rect_in_screen(*r),
        rect_in_screen(*band),
    ensures
        b == uia_accepted(*r, *band),
{
    let bw = if band.right - band.left >= 1 { band.right - band.left } else { 1 };
    if !big_enough_exec(r) {
        return false;
    }
    if !inside_band_exec(r, band) {
        return false;
    }
    let w: i64 = (r.right - r.left) as i64;
    let bw: i64 = bw as i64;
    !(w * 10 >= bw * 9)
}

/// The class marks real taskbar content (task buttons, toggle buttons, tray).
pub open spec fn is_content_class(cls: Seq<char>) -> bool {
    occurs_in(cls, "TaskListButton"@) || occurs_in(cls, "ToggleButton"@) || occurs_in(
        cls,
        "SystemTray"@,
    )
}

pub open spec fn has_content(elems: Seq<(String, Rect)>) -> bool {
    exists|i: int| 0 <= i < elems.len() && is_content_class((#[trigger] elems[i]).0@)
}

/// The rectangles kept from the accepted elements: when real content was
/// found, invisible structural hosts are dropped; otherwise everything is kept.
pub open spec fn uia_kept(elems: Seq<(String, Rect)>, content: bool) -> Seq<Rect>
    decreases elems.len(),
{
    if elems.len() == 0 {
        Seq::empty()
    } else {
        let prev = uia_kept(elems.drop_last(), content);
        if content && is_system_class(elems.last().0@) {
            prev
        } else {
            prev.push(elems.last().1)
        }
    }
}

/// Occupied rectangles from the accepted UI Automation elements `(class, rect)`.
pub fn uia_occupancy(elems: &Vec<(String, Rect)>) -> (r: Vec<Rect>)
    ensures
        r@ == uia_kept(elems@, has_content(elems@)),
{
    let mut content = false;
    let mut i: usize = 0;
    while i < elems.len()
        invariant
            i <= elems.len(),
            content == exists|j: int| 0 <= j < i && is_content_class((#[trigger] elems@[j]).0@),
        decreases elems.len() - i,
    {
        let cls = elems[i].0.as_str();
        if str_contains(cls, "TaskListButton") || str_contains(cls, "ToggleButton") || str_contains(
            cls,
            "SystemTray",
        ) {
            content = true;
        }
        i += 1;
    }
    let mut out: Vec<Rect> = Vec::new();
    let mut i: usize = 0;
    while i < elems.len()
        invariant
            i <= elems.len(),
            content == has_content(elems@),
            out@ == uia_kept(elems@.take(i as int), content),
        decreases elems.len() - i,
    {
        assert(elems@.take(i as int + 1).drop_last() == elems@.take(i as int));
        assert(elems@.take(i as int + 1).last() == elems@[i as int]);
        if !(content && is_system_child_class(elems[i].0.as_str())) {
            out.push(elems[i].1);
        }
        i += 1;
    }
    assert(elems@.take(elems.len() as int) == elems@);
    out
}

} // verus!
