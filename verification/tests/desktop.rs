use dps_meter::monitors::{
    list_monitors, pick_monitor, placement, Monitor, MonitorError, Placement, Side,
};
use dps_meter::overlay::{Overlay, OverlayAction, OverlayView};
use dps_meter::update::{
    failure_message, file_name, installer_args, step_after_answer, trim_backslashes,
    update_prompt, Download, UpdateStep,
};
use dps_meter::geometry::{
    details_monitor, details_plan, position_to_keep, restore_overlay_position, restore_window_geometry,
    size_to_keep, window_setting, DetailsPlan, Geometry, Point, WindowSize,
};

fn screen(name: Option<&str>, x: i32, y: i32, width: u32, height: u32) -> Monitor {
    Monitor { name: name.map(|s| s.to_string()), x, y, width, height }
}

#[test]
fn the_primary_screen_is_listed_first() {
    let primary = screen(Some("B"), 0, 0, 1920, 1080);
    let screens = vec![
        screen(Some("A"), 1920, 0, 1280, 1024),
        screen(Some("B"), 0, 0, 1920, 1080),
        screen(None, -800, 0, 800, 600),
        screen(Some("D"), 0, 1080, 800, 600),
        screen(Some("E"), 0, -600, 800, 600),
        screen(Some("F"), 10, 10, 800, 600),
    ];
    let list = list_monitors(&screens, Some(&primary));
    let indices: Vec<usize> = list.iter().map(|e| e.index).collect();
    assert_eq!(indices, vec![1, 0, 2, 3, 4, 5]);
    assert!(list[0].is_primary);
    let sides: Vec<&str> = list.iter().map(|e| e.side.as_str()).collect();
    assert_eq!(sides, vec!["", "right", "left", "below", "above", ""]);
    assert_eq!(list[2].name, "Display 3");
    assert_eq!((list[1].x, list[1].y, list[1].width, list[1].height), (1920, 0, 1280, 1024));
    let list = list_monitors(&screens, None);
    let indices: Vec<usize> = list.iter().map(|e| e.index).collect();
    assert_eq!(indices, vec![0, 1, 2, 3, 4, 5]);
    assert!(list.iter().all(|e| !e.is_primary && e.side == Side::Unsaid));
}

#[test]
fn the_announced_number_is_the_listed_one() {
    let primary = screen(Some("B"), 0, 0, 1920, 1080);
    let screens = vec![
        screen(Some("A"), 1920, 0, 1280, 1024),
        screen(Some("B"), 0, 0, 1920, 1080),
        screen(Some("C"), -800, 0, 800, 600),
    ];
    let list = list_monitors(&screens, Some(&primary));
    for i in 0..3 {
        let p = placement(&screens, i, Some(&primary)).expect("placed");
        assert_eq!(list[p.number as usize - 1].index, i);
    }
    assert_eq!(
        placement(&screens, 1, Some(&primary)),
        Some(Placement { number: 1, width: 1920, height: 1080, is_primary: true })
    );
    assert_eq!(
        placement(&screens, 0, Some(&primary)),
        Some(Placement { number: 2, width: 1280, height: 1024, is_primary: false })
    );
    assert_eq!(placement(&screens, 3, Some(&primary)), None);
    let unnamed = vec![screen(Some("A"), 0, 0, 1, 1), screen(None, 0, 0, 1, 1)];
    assert_eq!(placement(&unnamed, 1, None).expect("placed").number, 1);
    assert!(!placement(&unnamed, 1, None).expect("placed").is_primary);
}

#[test]
fn a_chosen_screen_has_to_be_there() {
    assert_eq!(pick_monitor(2, 1), Ok(1));
    assert_eq!(pick_monitor(0, 0), Err(MonitorError::NoMonitors));
    assert_eq!(pick_monitor(2, 2), Err(MonitorError::NotConnected { index: 2 }));
    assert_eq!(MonitorError::NoMonitors.message(), "no monitors reported");
    assert_eq!(MonitorError::NotConnected { index: 12 }.message(), "monitor 12 is not connected");
}

#[test]
fn windows_are_put_back_where_they_were_left() {
    let screens = vec![screen(None, 0, 0, 1920, 1080)];
    let at = |x: &str, y: &str| restore_window_geometry(Some(x), Some(y), None, None, &screens);
    assert_eq!(at(" 10 ", "20"), Some(Geometry { x: 10, y: 20, size: None }));
    assert_eq!(at("-64", "-64"), Some(Geometry { x: -64, y: -64, size: None }));
    assert_eq!(at("-65", "0"), None);
    assert_eq!(at("1920", "0"), None);
    assert_eq!(at("0", "1080"), None);
    assert_eq!(at("-10000", "0"), None);
    assert_eq!(at("x", "0"), None);
    assert_eq!(at("2147483648", "0"), None);
    assert_eq!(restore_window_geometry(None, Some("0"), None, None, &screens), None);
    let sized = |w: &str, h: &str| {
        restore_window_geometry(Some("1"), Some("2"), Some(w), Some(h), &screens).expect("seen").size
    };
    assert_eq!(sized("201", "151"), Some(WindowSize { width: 201, height: 151 }));
    assert_eq!(sized("200", "151"), None);
    assert_eq!(sized("201", "150"), None);
    let kept = position_to_keep(-9_999, 12).expect("kept");
    let far = vec![screen(None, -10_000, 0, 1920, 1080)];
    assert_eq!(
        restore_window_geometry(Some(&kept.first), Some(&kept.second), None, None, &far),
        Some(Geometry { x: -9_999, y: 12, size: None })
    );
    assert_eq!(window_setting("details", "x"), "window.details.x");
}

#[test]
fn minimised_windows_are_not_remembered() {
    assert!(position_to_keep(-32_000, -32_000).is_none());
    assert!(position_to_keep(-10_000, 0).is_none());
    assert!(position_to_keep(0, -10_000).is_none());
    assert!(size_to_keep(100, 500).is_none());
    assert!(size_to_keep(500, 100).is_none());
    let size = size_to_keep(101, 4_000_000_000).expect("kept");
    assert_eq!((size.first.as_str(), size.second.as_str()), ("101", "4000000000"));
    assert_eq!(restore_overlay_position(Some("5"), Some("-6")), Some(Point { x: 5, y: -6 }));
    assert_eq!(restore_overlay_position(Some("-32000"), Some("-32000")), None);
    assert_eq!(restore_overlay_position(Some(" 5"), Some("6")), None);
    assert_eq!(restore_overlay_position(Some("5"), None), None);
}

#[test]
fn the_details_window_is_reopened_where_it_was() {
    assert_eq!(details_monitor(None), None);
    assert_eq!(details_monitor(Some("  ")), None);
    assert_eq!(details_monitor(Some(" off ")), None);
    assert_eq!(details_monitor(Some(" 1 ")), Some(1));
    assert_eq!(details_monitor(Some("+2")), Some(2));
    assert_eq!(details_monitor(Some("-1")), None);
    assert_eq!(details_monitor(Some("+")), None);
    assert_eq!(details_monitor(Some("18446744073709551616")), None);
}

fn view(game_in_front: bool, visible: bool, minimised: bool) -> Option<OverlayView> {
    Some(OverlayView { game_in_front, overlay_in_front: false, visible, minimised })
}

#[test]
fn the_overlay_hides_on_the_third_tick_without_the_game() {
    let mut o = Overlay::new();
    for _ in 0..20 {
        assert_eq!(o.tick(true, view(false, true, false)).action, OverlayAction::Keep);
    }
    assert_eq!(o.hide_delay, 0);
    assert_eq!(o.tick(true, view(false, true, false)).action, OverlayAction::Keep);
    assert_eq!(o.tick(true, view(false, true, false)).action, OverlayAction::Keep);
    assert_eq!(o.tick(true, view(false, true, false)).action, OverlayAction::Minimise);
    assert_eq!(o.tick(true, view(false, true, true)).action, OverlayAction::Keep);
    assert_eq!(o.tick(true, view(true, true, true)).action, OverlayAction::Reveal);
    assert_eq!(o.tick(true, view(true, false, false)).action, OverlayAction::Reveal);
    assert_eq!(o.tick(true, view(true, true, false)).action, OverlayAction::Keep);
    assert_eq!(o.hide_delay, 0);
    assert_eq!(o.tick(true, view(false, true, false)).action, OverlayAction::Keep);
    assert_eq!(o.tick(true, None).action, OverlayAction::Keep);
    assert_eq!(o.tick(false, view(false, true, false)).action, OverlayAction::Keep);
    assert_eq!(o.hide_delay, 1);
}

#[test]
fn positions_are_kept_every_tenth_tick() {
    let mut o = Overlay::new();
    let kept: Vec<u64> = (1..=30).filter(|_| o.tick(false, None).keep_positions).collect();
    assert_eq!(kept, vec![10, 20, 30]);
}

#[test]
fn the_user_is_asked_about_an_update() {
    assert_eq!(
        update_prompt("1.0", "1.1"),
        "A new update is available!\n\nCurrent: 1.0\nLatest: 1.1\n\nDownload and install now?"
    );
    assert_eq!(failure_message("HTTP 404"), "Download failed: HTTP 404\n\nPlease download manually.");
    assert_eq!(step_after_answer(false, "x"), UpdateStep::Leave);
    assert_eq!(step_after_answer(true, "x"), UpdateStep::Install);
    assert_eq!(step_after_answer(true, ""), UpdateStep::ShowReleases);
}

#[test]
fn the_installer_is_called_with_the_directory_of_the_program() {
    assert_eq!(file_name("https://host/dir/meter.msi"), "meter.msi");
    assert_eq!(file_name("meter.msi"), "meter.msi");
    assert_eq!(file_name("https://host/dir/"), "");
    assert_eq!(trim_backslashes("C:\\Meter\\\\"), "C:\\Meter");
    assert_eq!(trim_backslashes("\\"), "");
    assert_eq!(
        installer_args("C:\\Temp\\meter.msi", "C:\\Program Files\\Meter\\"),
        vec![
            "/i",
            "\"C:\\Temp\\meter.msi\"",
            "/passive",
            "INSTALLDIR=\"C:\\Program Files\\Meter\"",
            "AUTOLAUNCHAPP=1",
        ]
    );
}

#[test]
fn progress_is_announced_when_it_changes() {
    let mut d = Download::new(200);
    assert_eq!(d.receive(1), None);
    assert_eq!(d.receive(1), Some(1));
    assert_eq!(d.receive(0), None);
    assert_eq!(d.receive(100), Some(51));
    assert_eq!(d.receive(500), Some(100));
    assert_eq!(d.receive(1), None);
    let mut unknown = Download::new(0);
    assert_eq!(unknown.receive(1_000), None);
    assert_eq!(unknown.downloaded, 1_000);
}

#[test]
fn a_picked_screen_is_filled() {
    let g = Geometry { x: 1, y: 2, size: None };
    assert_eq!(details_plan(true, true, Some(g)), DetailsPlan::Move);
    assert_eq!(details_plan(true, false, Some(g)), DetailsPlan::Show);
    assert_eq!(details_plan(false, true, Some(g)), DetailsPlan::OpenFilling);
    assert_eq!(details_plan(false, false, Some(g)), DetailsPlan::OpenWhereLeft(g));
    assert_eq!(details_plan(false, false, None), DetailsPlan::OpenFilling);
}
