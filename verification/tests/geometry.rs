use gpt_hp_bar::geometry::{
    clearance, merge_x_intervals, plan_mini, rect_free, settle_mini_x, try_place_mini, BandInfo, Margins, Rect,
};

fn r(left: i32, right: i32) -> Rect {
    Rect { left, top: 1392, right, bottom: 1440 }
}

fn baseline(uia_count: usize) -> BandInfo {
    BandInfo {
        band: Rect { left: 0, top: 1392, right: 2560, bottom: 1440 },
        occ: vec![r(1015, 1545), r(2055, 2272), r(2270, 2560)],
        margins: Margins { pad: 14, uia_fail_pad: 24, icon_grow: 44, tray_grow: 32 },
        uia_count,
    }
}

#[test]
fn merge_joins_spans_at_most_two_px_apart() {
    let rects = vec![r(30, 40), r(0, 10), r(12, 20), r(50, 50), r(43, 45), r(60, 55)];
    assert_eq!(merge_x_intervals(&rects), vec![(0, 20), (30, 40), (43, 45)]);
    let rects = vec![r(0, 10), r(13, 20)];
    assert_eq!(merge_x_intervals(&rects), vec![(0, 10), (13, 20)]);
    assert_eq!(merge_x_intervals(&[]), Vec::<(i32, i32)>::new());
}

#[test]
fn plan_matches_recorded_baseline() {
    let info = baseline(25);
    let (x, y, gaps, pad) = plan_mini(&info, 126, 44, "right");
    assert_eq!((x, y, pad), (1883, 1394, 14));
    assert_eq!(gaps, vec![(14, 1001), (1603, 2009)]);
    let (x, _, _, _) = plan_mini(&info, 126, 44, "center");
    assert_eq!(x, 875);
    let (x, _, _, _) = plan_mini(&info, 126, 44, "left");
    assert_eq!(x, 14);
    // an unknown position falls back to the right anchor
    let (x, _, _, _) = plan_mini(&info, 126, 44, "middle");
    assert_eq!(x, 1883);
}

#[test]
fn plan_adds_pad_when_uia_failed() {
    let info = baseline(0);
    let (x, _, gaps, pad) = plan_mini(&info, 126, 44, "right");
    assert_eq!(pad, 38);
    assert_eq!(gaps, vec![(38, 977), (1627, 1985)]);
    assert_eq!(x, 1985 - 126);
}

#[test]
fn plan_keeps_clear_of_every_occupied_rect() {
    let info = baseline(25);
    for pos in ["left", "center", "right"] {
        let (x, _, _, pad) = plan_mini(&info, 126, 44, pos);
        for o in &info.occ {
            assert!(x + 126 + pad <= o.left || o.right + pad <= x, "{pos}");
        }
        assert!(rect_free(x, 126, &info.occ));
    }
}

#[test]
fn plan_without_room_takes_middle_of_widest_gap() {
    let info = baseline(25);
    let (x, _, gaps, _) = plan_mini(&info, 1200, 44, "right");
    assert_eq!(gaps, vec![(14, 1001), (1603, 2009)]);
    // no stretch holds 1200 px: the widest is (14, 1001), its middle clamps to its start
    assert_eq!(x, 14);
}

#[test]
fn plan_on_full_band_offers_the_whole_padded_band() {
    let info = BandInfo {
        band: Rect { left: 0, top: 0, right: 1000, bottom: 40 },
        occ: vec![Rect { left: 0, top: 0, right: 1000, bottom: 40 }],
        margins: Margins { pad: 10, uia_fail_pad: 0, icon_grow: 0, tray_grow: 0 },
        uia_count: 3,
    };
    let (x, y, gaps, _) = plan_mini(&info, 100, 30, "left");
    assert_eq!(gaps, vec![(10, 990)]);
    assert_eq!(x, 10);
    assert_eq!(y, 5);
}

#[test]
fn plan_center_tie_prefers_the_right_candidate() {
    // two equal stretches around the center: equally close candidates, the right one wins
    let info = BandInfo {
        band: Rect { left: 0, top: 0, right: 1000, bottom: 40 },
        occ: vec![Rect { left: 450, top: 0, right: 550, bottom: 40 }],
        margins: Margins { pad: 0, uia_fail_pad: 0, icon_grow: 0, tray_grow: 0 },
        uia_count: 1,
    };
    let (x, _, gaps, _) = plan_mini(&info, 100, 40, "center");
    assert_eq!(gaps, vec![(0, 450), (550, 1000)]);
    assert_eq!(x, 550);
}

#[test]
fn rect_free_checks_horizontal_overlap() {
    let occ = vec![r(100, 200)];
    assert!(rect_free(0, 100, &occ));
    assert!(rect_free(200, 50, &occ));
    assert!(!rect_free(150, 10, &occ));
    assert!(!rect_free(50, 60, &occ));
}

#[test]
fn settle_keeps_a_free_plan_and_moves_off_an_occupied_one() {
    let band = Rect { left: 0, top: 0, right: 1000, bottom: 40 };
    let occ = vec![Rect { left: 100, top: 0, right: 200, bottom: 40 }];
    let gaps = vec![(0, 90), (210, 990)];
    assert_eq!(settle_mini_x(&band, &occ, &gaps, 10, 300, 50), 300);
    // planned x overlaps: middle of the widest stretch (210, 990)
    assert_eq!(settle_mini_x(&band, &occ, &gaps, 10, 150, 50), 210 + (780 - 50) / 2);
    // fallback also occupied: the plan is kept
    let occ2 = vec![Rect { left: 0, top: 0, right: 1000, bottom: 40 }];
    assert_eq!(settle_mini_x(&band, &occ2, &gaps, 10, 150, 50), 150);
    // no stretches: the padded band's middle
    assert_eq!(settle_mini_x(&band, &occ, &vec![], 10, 150, 50), 10 + (980 - 50) / 2);
}

#[test]
fn plan_stays_inside_the_padded_band() {
    for uia in [0usize, 25] {
        let info = baseline(uia);
        for pos in ["left", "center", "right", "elsewhere"] {
            let (x, _, gaps, pad) = plan_mini(&info, 126, 44, pos);
            assert!(info.band.left + pad <= x, "{pos}");
            assert!(x + 126 <= info.band.right - pad, "{pos}");
            for (a, b) in gaps {
                assert!(info.band.left + pad <= a && b <= info.band.right - pad);
            }
        }
    }
}

#[test]
fn merge_ignores_input_order_and_keeps_rect_ends() {
    let a = vec![r(30, 40), r(0, 10), r(12, 20), r(50, 50), r(43, 45), r(60, 55)];
    let mut b = a.clone();
    b.reverse();
    let mut c = a.clone();
    c.rotate_left(2);
    let out = merge_x_intervals(&a);
    assert_eq!(merge_x_intervals(&b), out);
    assert_eq!(merge_x_intervals(&c), out);
    for (s, e) in &out {
        assert!(s < e);
        assert!(a.iter().any(|x| x.right > x.left && x.left == *s));
        assert!(a.iter().any(|x| x.right > x.left && x.right == *e));
    }
}

#[test]
fn clearance_matches_recorded_baseline() {
    let info = baseline(25);
    let mut got = Vec::new();
    for pos in ["right", "center", "left"] {
        let (x, _, _, _) = plan_mini(&info, 126, 44, pos);
        got.push((x, clearance(x, 126, &info.occ)));
    }
    assert_eq!(got, vec![(1883, 46), (875, 14), (14, 875)]);
    assert_eq!(clearance(0, 10, &[]), i32::MAX);
    // an overlapping rectangle gives 0
    assert_eq!(clearance(1000, 100, &info.occ), 0);
}

#[test]
fn range_checks_and_checked_placement() {
    let info = baseline(25);
    assert!(info.fits_screen());
    assert!(info.band.fits_screen());
    assert!(!r(0, i32::MAX).fits_screen());
    assert_eq!(try_place_mini(&info, 126, 44, "right"), Some((1883, 1394)));
    assert_eq!(try_place_mini(&info, i32::MAX, 44, "right"), None);
    let mut far = baseline(25);
    far.occ.push(r(-0x0900_0000, 0));
    assert!(!far.fits_screen());
    assert_eq!(try_place_mini(&far, 126, 44, "right"), None);
}
