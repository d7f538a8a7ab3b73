use clipplus::autostart;
use clipplus::cleanup_window;
use clipplus::cleanup_window::{Cleanup, CleanupAction, Prompt, Refusal, ScopeForm};
use clipplus::clip::{ClipPayload, ClipRecord};
use clipplus::controls::{opened_at, ControlKind};
use clipplus::deletion::{BinPreview, BinScan, BinScope, DupeScan};
use clipplus::index::ClipItem;
use clipplus::item::ClipSummary;
use clipplus::log;
use clipplus::popup;
use clipplus::popup::{
    edge_hit, handle_key, handle_list_key, page_rows, placed, rows_for, Action, Move, Popup,
};
use clipplus::popup_layout;
use clipplus::popup_layout::{
    HTBOTTOM, HTBOTTOMLEFT, HTBOTTOMRIGHT, HTLEFT, HTRIGHT, HTTOP, HTTOPLEFT, HTTOPRIGHT,
};
use clipplus::session::{HotkeyStep, Session};
use clipplus::settings::Settings;
use clipplus::store::{LoadedRow, Row, Stamp, Store};
use clipplus::tray;
use clipplus::tray::TrayAction;
use clipplus::win;
use clipplus::win::{POINT, RECT, SYSTEMTIME};

fn work_area() -> RECT {
    RECT {
        left: 0,
        top: 0,
        right: 1920,
        bottom: 1040,
    }
}

/// Placement has two jobs: put it back where it was, and bring it back on screen
/// when that is no longer a place.
#[test]
fn remembered_position_wins_unless_it_is_off_screen() {
    // Nothing remembered: centred, so the first open does not depend on the mouse.
    assert_eq!(placed(None, &work_area(), 600, 400), (660, 320));

    // Remembered: exactly where it was left, including against the right edge.
    assert_eq!(placed(Some((1300, 500)), &work_area(), 600, 400), (1300, 500));

    // From a monitor that is gone now: pulled back into this one.
    assert_eq!(placed(Some((2500, -300)), &work_area(), 600, 400), (1320, 0));

    // Wider than the screen it has to fit on: the top-left corner is the best that
    // can be done.
    assert_eq!(placed(Some((-500, -500)), &work_area(), 2000, 1200), (0, 0));
}

/// The resize border is invisible, so this is the only thing that makes the window
/// stretchable at all.
#[test]
fn the_border_answers_with_the_side_it_is_on() {
    let (width, height, grip) = (600, 440, 5);

    // Corners: two sides at once, which is what the four comparisons have to combine
    // into the diagonal codes.
    assert_eq!(edge_hit(0, 0, width, height, grip), Some(HTTOPLEFT));
    assert_eq!(edge_hit(599, 0, width, height, grip), Some(HTTOPRIGHT));
    assert_eq!(edge_hit(0, 439, width, height, grip), Some(HTBOTTOMLEFT));
    assert_eq!(edge_hit(599, 439, width, height, grip), Some(HTBOTTOMRIGHT));

    // A band along each side, and the last pixel that is still client area.
    assert_eq!(edge_hit(0, 200, width, height, grip), Some(HTLEFT));
    assert_eq!(edge_hit(599, 200, width, height, grip), Some(HTRIGHT));
    assert_eq!(edge_hit(200, 0, width, height, grip), Some(HTTOP));
    assert_eq!(edge_hit(200, 439, width, height, grip), Some(HTBOTTOM));

    // Inside is the client area: no resizing there.
    assert_eq!(edge_hit(5, 5, width, height, grip), None);
    assert_eq!(edge_hit(300, 220, width, height, grip), None);
    assert_eq!(edge_hit(594, 434, width, height, grip), None);
}

/// The list is measured from its bottom edge, and where it ends decides where the
/// newest clip lands.
#[test]
fn the_list_is_as_tall_as_the_rows_it_holds() {
    // Three rows of space (the minimum window), five clips: three rows shown.
    assert_eq!(rows_for(5, 138, 46), 3);
    // Two clips in the same space: the list shrinks to them.
    assert_eq!(rows_for(2, 138, 46), 2);
    // Nothing matched: the area stays, an empty list is not a broken one.
    assert_eq!(rows_for(0, 138, 46), 3);
    // Squeezed to nothing: one row is still placed rather than zero.
    assert_eq!(rows_for(4, 0, 46), 1);
}

/// The page keeps one row of overlap so a jump never lands blind.
#[test]
fn a_page_is_one_row_short_of_what_fits() {
    assert_eq!(page_rows(8), 7);
    assert_eq!(page_rows(3), 2);
    // The minimum window still has somewhere to go.
    assert_eq!(page_rows(1), 1);
}

// ---------------------------------------------------------------------- layout

#[test]
fn the_popup_opens_at_its_remembered_size() {
    assert_eq!(popup_layout::wanted_size(None), (620, 458));
    assert_eq!(popup_layout::wanted_size(Some((100, 900))), (420, 900));
    assert_eq!(popup_layout::fitted_size(2500, 800, &work_area()), (1920, 800));
    let cursor = POINT { x: 3, y: 4 };
    assert_eq!(popup_layout::anchor_point(None, cursor), cursor);
    assert_eq!(
        popup_layout::anchor_point(Some((7, 8)), cursor),
        POINT { x: 7, y: 8 }
    );
}

#[test]
fn controls_stack_up_from_the_bottom_edge() {
    let m = popup_layout::base_metrics();
    let full = popup_layout::layout(620, 458, 0, &m);
    assert_eq!((full.list.x, full.list.y), (10, 10));
    assert_eq!((full.list.width, full.list.height), (600, 8 * 46));
    assert_eq!((full.search.x, full.search.y), (10, 418));
    assert_eq!((full.search.width, full.search.height), (564, 30));
    assert_eq!((full.help.x, full.help.width), (580, 30));

    let two = popup_layout::layout(620, 458, 2, &m);
    assert_eq!(two.list.height, 92);
    assert_eq!(two.list.y + two.list.height, full.list.y + full.list.height);
    assert_eq!(popup_layout::top_row(10, 8), Some(2));
    assert_eq!(popup_layout::top_row(3, 8), Some(0));
    assert_eq!(popup_layout::top_row(0, 8), None);
    assert_eq!(popup_layout::visible_rows(Some(100), 46), 2);
    assert_eq!(popup_layout::visible_rows(None, 46), 1);
    assert_eq!(popup_layout::bottom_band_top(Some(458), 72), 386);
    assert_eq!(popup_layout::bottom_band_top(None, 72), 0);
}

#[test]
fn the_gap_between_tabs_belongs_to_neither() {
    let m = popup_layout::base_metrics();
    let rects = popup_layout::tab_rects(3, 386, &m);
    assert_eq!(rects[0], RECT { left: 10, top: 386, right: 106, bottom: 412 });
    assert_eq!(rects[2].left, 214);
    assert_eq!(popup_layout::tab_at(10, 386, 386, &m, 3), Some(0));
    assert_eq!(popup_layout::tab_at(105, 411, 386, &m, 3), Some(0));
    assert_eq!(popup_layout::tab_at(106, 400, 386, &m, 3), None);
    assert_eq!(popup_layout::tab_at(112, 400, 386, &m, 3), Some(1));
    assert_eq!(popup_layout::tab_at(9, 400, 386, &m, 3), None);
    assert_eq!(popup_layout::tab_at(50, 412, 386, &m, 3), None);
    assert_eq!(popup_layout::tab_at(320, 400, 386, &m, 3), None);
}

#[test]
fn a_pinned_row_makes_room_for_its_star() {
    let m = popup_layout::base_metrics();
    let row = RECT { left: 0, top: 92, right: 600, bottom: 138 };
    let plain = popup_layout::row_boxes(&row, false, &m);
    assert_eq!(plain.star, None);
    assert_eq!(plain.preview, RECT { left: 10, top: 96, right: 590, bottom: 118 });
    assert_eq!(plain.meta, RECT { left: 10, top: 118, right: 590, bottom: 135 });
    let pinned = popup_layout::row_boxes(&row, true, &m);
    assert_eq!(pinned.star, Some(RECT { left: 10, top: 96, right: 28, bottom: 118 }));
    assert_eq!(pinned.preview.left, 30);
    let (across, down) = popup_layout::grip_bars(620, &m);
    assert_eq!(across, RECT { left: 610, top: 2, right: 618, bottom: 4 });
    assert_eq!(down, RECT { left: 616, top: 2, right: 618, bottom: 10 });
}

// ----------------------------------------------------------------------- popup

fn text_row(stem: &str, at: i64, machine: &str) -> LoadedRow {
    LoadedRow {
        row: Row {
            stem: stem.to_string(),
            at,
            machine: machine.to_string(),
            kind: "text".to_string(),
            hash: stem.to_string(),
            text: Some(format!("clip {stem}")),
            length: 5,
            blob: None,
            app: None,
            title: None,
        },
        pinned: false,
        when: SYSTEMTIME::default(),
    }
}

fn filled_store() -> Store {
    let mut settings = Settings::default();
    settings.sync_root = "C:\\sync".to_string();
    settings.machine_id = "mach1".to_string();
    let mut store = Store::new(settings);
    store.load_db(
        "C:\\sync\\mach1\\2026-01\\clips.db",
        vec![text_row("a", 1, "mach1"), text_row("b", 3, "mach1")],
        2026,
        Stamp { len: 1, mtime: 1 },
    );
    store.load_db(
        "C:\\sync\\other\\2026-01\\clips.db",
        vec![text_row("o", 2, "other")],
        2026,
        Stamp { len: 1, mtime: 1 },
    );
    store
}

fn shown(popup: &Popup) -> Vec<&str> {
    popup.items().iter().map(|row: &ClipSummary| row.stem.as_str()).collect()
}

#[test]
fn the_newest_clip_is_the_last_row() {
    let store = filled_store();
    let mut popup = Popup::new();
    let refill = popup.reload(&store, "");
    assert_eq!(shown(&popup), vec!["a", "o", "b"]);
    assert_eq!(refill.newest, Some(2));
    assert!(refill.strip_changed);
    assert!(!popup.reload(&store, "").strip_changed);

    let none = popup.reload(&store, "nothing like it");
    assert_eq!(none.newest, None);
    assert!(popup.items().is_empty());

    popup.set_tab(Some("other".to_string()));
    popup.reload(&store, "");
    assert_eq!(shown(&popup), vec!["o"]);
    assert!(popup.is_active(&popup.tabs()[2]));
    popup.set_tab(Some("gone".to_string()));
    popup.reload(&store, "");
    assert_eq!(shown(&popup), vec!["a", "o", "b"]);
    assert!(popup.is_active(&popup.tabs()[0]));
}

#[test]
fn tabs_cycle_round_both_ends() {
    let store = filled_store();
    let mut popup = Popup::new();
    assert_eq!(popup.cycle_tab(1), None);
    popup.reload(&store, "");
    assert_eq!(popup.cycle_tab(1), Some(Some("mach1".to_string())));
    assert_eq!(popup.cycle_tab(-1), Some(Some("other".to_string())));
    popup.set_tab(Some("other".to_string()));
    assert_eq!(popup.cycle_tab(1), Some(None));

    let m = popup_layout::base_metrics();
    let at = |x: i32| POINT { x, y: 390 };
    assert_eq!(popup.tab_click(at(20), Some(458), &m), Some(None));
    assert_eq!(popup.tab_click(at(120), Some(458), &m), Some(Some("mach1".to_string())));
    assert_eq!(popup.tab_click(at(108), Some(458), &m), None);
    assert_eq!(popup.tab_click(at(400), Some(458), &m), None);
}

#[test]
fn shift_extends_from_where_the_run_started() {
    let store = filled_store();
    let mut popup = Popup::new();
    assert_eq!(popup.move_selection(None, 1, false), None);
    popup.reload(&store, "");
    assert_eq!(
        popup.move_selection(Some(2), -1, true),
        Some(Move { caret: 1, first: 1, last: 2 })
    );
    assert_eq!(
        popup.move_selection(Some(1), -7, true),
        Some(Move { caret: 0, first: 0, last: 2 })
    );
    assert_eq!(
        popup.move_selection(Some(0), 1, false),
        Some(Move { caret: 1, first: 1, last: 1 })
    );
    assert_eq!(
        popup.move_selection(Some(1), 1, true),
        Some(Move { caret: 2, first: 1, last: 2 })
    );
    assert_eq!(
        popup.move_selection(None, 1, false),
        Some(Move { caret: 0, first: 0, last: 0 })
    );
    assert_eq!(
        popup.move_selection(None, -1, false),
        Some(Move { caret: 2, first: 2, last: 2 })
    );
    assert_eq!(popup.select_row(9), Some(2));
    popup.select_all();
    assert_eq!(
        popup.move_selection(Some(2), 0, true),
        Some(Move { caret: 2, first: 0, last: 2 })
    );
    popup.follow_caret(Some(1));
    popup.follow_caret(Some(50));
    assert_eq!(
        popup.move_selection(Some(1), 1, true),
        Some(Move { caret: 2, first: 1, last: 2 })
    );
}

#[test]
fn the_caret_names_a_clip() {
    let store = filled_store();
    let mut popup = Popup::new();
    popup.reload(&store, "");
    assert_eq!(popup.selected_stem(Some(1)).as_deref(), Some("o"));
    assert_eq!(popup.selected_stem(Some(3)), None);
    assert_eq!(popup.selected_stem(None), None);
    assert_eq!(popup.toggle_pin(Some(0)), Some(("a".to_string(), true)));
    assert_eq!(popup.toggle_pin(None), None);
    assert_eq!(popup.row_of("b"), Some(2));
    assert_eq!(popup.row_of("x"), None);
    assert_eq!(popup.row_at(1), Some(1));
    assert_eq!(popup.row_at(3), None);
    assert_eq!(popup.row_at(0x1_0001), None);
    let picked = popup.selected_summaries(&vec![2, 7, 0]);
    let stems: Vec<&str> = picked.iter().map(|row| row.stem.as_str()).collect();
    assert_eq!(stems, vec!["b", "a"]);

    assert_eq!(popup::selected_index(-1), None);
    assert_eq!(popup::selected_index(4), Some(4));
    assert_eq!(popup::selected_indices(&vec![], 0, Some(3)), vec![3]);
    assert_eq!(popup::selected_indices(&vec![1, 2, 5], 2, Some(3)), vec![1, 2]);
    assert_eq!(popup::selected_indices(&vec![1, 2], usize::MAX, None), vec![1, 2]);
    assert!(popup::is_selected(&vec![1, 2], 2));
    assert!(!popup::is_selected(&vec![1, 2], 3));
}

#[test]
fn the_hotkey_opens_and_closes() {
    let mut popup = Popup::new();
    assert!(!popup.is_visible());
    assert!(popup.toggle(40, 7));
    assert!(popup.is_visible());
    assert_eq!(popup.target(), 40);
    assert!(!popup.toggle(50, 7));
    assert_eq!(popup.target(), 40);
    popup.show(7, 7);
    assert_eq!(popup.target(), 0);
    assert!(popup.hides_on_activate(0));
    assert!(!popup.hides_on_activate(1));
    popup.set_modal(true);
    assert!(!popup.hides_on_activate(0));
    popup.dismiss();
    assert!(!popup.is_visible());
}

#[test]
fn keys_mean_the_same_in_both_halves() {
    assert_eq!(handle_key(0x1B, true, false, false, 7), Action::Dismiss);
    assert_eq!(handle_key(0x0D, true, false, false, 7), Action::Commit);
    assert_eq!(handle_key(0x21, true, false, false, 7), Action::Move(-7));
    assert_eq!(handle_key(0x28, false, false, false, 7), Action::Move(1));
    // Delete takes a character while typing, and a row otherwise.
    assert_eq!(handle_key(0x2E, true, false, false, 7), Action::Pass);
    assert_eq!(handle_key(0x2E, false, false, false, 7), Action::Delete);
    assert_eq!(handle_key(0x50, false, false, false, 7), Action::Pass);
    assert_eq!(handle_key(0x50, false, true, false, 7), Action::TogglePin);
    assert_eq!(handle_key(0x09, false, true, true, 7), Action::CycleTab(-1));
    assert_eq!(handle_key(0x41, false, true, false, 7), Action::Pass);
    assert_eq!(handle_list_key(0x41, true, false, 7), Action::SelectAll);
    assert_eq!(handle_list_key(0x43, true, false, 7), Action::Copy);
    assert!(popup::forwards_char(0x61));
    assert!(popup::forwards_char(0x08));
    assert!(!popup::forwards_char(0x0D));
    assert_eq!(popup::handle_choice(popup::CMD_DELETE), Action::Delete);
    assert_eq!(popup::handle_choice(0), Action::Pass);
    assert_eq!(popup::handle_notification(1), Action::ShowHelp);
    assert_eq!(popup::handle_notification(0x0300_0000), Action::Reload);
    assert_eq!(popup::handle_notification(0x0002_0000), Action::Commit);
    assert_eq!(popup::handle_notification(0x0001_0000), Action::FollowCaret);
}

#[test]
fn the_row_menu_offers_the_other_pin_state() {
    let store = filled_store();
    let mut popup = Popup::new();
    popup.reload(&store, "");
    let menu = popup.row_menu(0);
    assert_eq!(menu.len(), 7);
    assert_eq!((menu[2].id, menu[2].label), (popup::CMD_PIN, "固定\tCtrl+P"));
    assert_eq!(menu[3].label, "");
    let left_of_the_first_monitor = win::pack(0xFFF6, 20);
    assert_eq!(
        popup::row_menu_at(left_of_the_first_monitor),
        Some(POINT { x: -10, y: 20 })
    );
    assert_eq!(popup::row_menu_at(0xFFFF_FFFF), None);
    assert!(popup::delete_question(12).starts_with("删除选中的 12 条记录？\n\n"));
    assert!(popup::keep_waiting(299, 1, 2));
    assert!(!popup::keep_waiting(299, 2, 2));
    assert!(!popup::keep_waiting(300, 1, 2));
    let image = || ClipPayload::Image(vec![1]);
    assert_eq!(popup::left_out(&vec![image()]), 0);
    assert_eq!(popup::left_out(&vec![image(), ClipPayload::Text("x".to_string()), image()]), 2);
}

// --------------------------------------------------------------------- cleanup

fn doomed(n: usize) -> Vec<ClipItem> {
    (0..n)
        .map(|i| {
            let stem = format!("s{i}");
            let record = ClipRecord {
                id: stem.clone(),
                at: 1,
                machine: "m".to_string(),
                kind: "image".to_string(),
                hash: stem.clone(),
                text: None,
                length: 5,
                blob: Some(format!("{stem}.bin")),
                app: String::new(),
                title: String::new(),
            };
            ClipItem::from_record(
                &record,
                "C:\\sync\\m\\2026-01\\clips.db".to_string(),
                stem,
                false,
                "m",
                &SYSTEMTIME::default(),
                2026,
            )
        })
        .collect()
}

fn scope(by_time: bool, days: &str, keep: &str) -> ScopeForm {
    ScopeForm {
        by_time,
        days: days.to_string(),
        keep: keep.to_string(),
    }
}

#[test]
fn only_the_active_row_is_read() {
    assert_eq!(cleanup_window::read_scope(&scope(true, " 7 ", "x")), Ok(BinScope::OlderThanDays(7)));
    assert_eq!(cleanup_window::read_scope(&scope(true, "", "x")), Ok(BinScope::OlderThanDays(30)));
    assert_eq!(cleanup_window::read_scope(&scope(false, "x", "")), Ok(BinScope::KeepNewest(100)));
    assert_eq!(cleanup_window::read_scope(&scope(false, "7", " -3 ")), Err("-3".to_string()));
    assert_eq!(cleanup_window::scope_line(BinScope::OlderThanDays(0)), "全部 .bin 大条目");
    assert_eq!(cleanup_window::scope_line(BinScope::OlderThanDays(7)), "7 天以前的 .bin 大条目");
    assert_eq!(cleanup_window::scope_line(BinScope::KeepNewest(5)), "最新 5 个以外的 .bin 大条目");
}

#[test]
fn two_cleanups_cannot_interleave() {
    let mut ride = Cleanup::new();
    match ride.start_bins(&scope(true, "x", "")) {
        Err(refusal @ Refusal::NotANumber(_)) => {
            assert_eq!(refusal.message(), "“x” 不是有效的非负整数")
        }
        other => panic!("{other:?}"),
    }
    assert!(matches!(ride.start_bins(&scope(true, "7", "")), Ok(BinScope::OlderThanDays(7))));
    assert!(matches!(ride.start_dupes(), Err(Refusal::Busy)));
    match ride.start_bins(&scope(true, "7", "")) {
        Err(refusal @ Refusal::Busy) => assert_eq!(refusal.message(), cleanup_window::BUSY),
        other => panic!("{other:?}"),
    }
    assert!(ride.scanned(true));
    assert!(!ride.answered(false));
    assert!(ride.start_dupes().is_ok());
    assert!(!ride.scanned(false));
    assert!(ride.start_dupes().is_ok());
    ride.release();
    assert!(ride.start_dupes().is_ok());
}

#[test]
fn the_question_repeats_the_numbers() {
    let mut ride = Cleanup::new();
    let mut preview = BinPreview {
        scan: BinScan {
            doomed: doomed(3),
            skipped_live_month: 2,
            images: 2,
            overlong_texts: 1,
            blob_bytes: 20,
        },
        scope_line: "全部 .bin 大条目".to_string(),
    };
    match ride.confirm_bins(&preview, "1.5 MB") {
        Prompt::Ask { summary, question } => {
            assert_eq!(
                summary,
                "范围：全部 .bin 大条目\n\n命中 3 条（图片 2 · 超长文本 1），预计释放 1.5 MB。\n另跳过 2 条（别机当月，从这里删不了）。"
            );
            assert!(question.starts_with(&summary));
            assert!(question.ends_with("确定清理？"));
        }
        other => panic!("{other:?}"),
    }
    preview.scan.doomed.clear();
    match ride.confirm_bins(&preview, "0 KB") {
        Prompt::Nothing(text) => {
            assert_eq!(text, "没有可清理的 .bin 大条目。\n（另跳过 2 条别机当月的）")
        }
        other => panic!("{other:?}"),
    }
    let dupes = DupeScan {
        doomed: doomed(4),
        groups: 2,
        groups_with_pin: 1,
    };
    match ride.confirm_dupes(&dupes) {
        Prompt::Ask { summary, .. } => assert_eq!(
            summary,
            "发现 2 组重复文本，将删除 4 条：每组保留最新一份，其中 1 组的固定副本也保留。"
        ),
        other => panic!("{other:?}"),
    }
    assert_eq!(
        cleanup_window::bins_report(3, "1.5 MB"),
        "已清理 3 个 .bin 大条目，释放约 1.5 MB。"
    );
    assert_eq!(cleanup_window::dupes_report(2, 0), "已删除 2 条重复文本。");
    assert_eq!(
        cleanup_window::dupes_report(2, 1),
        "已删除 2 条重复文本，另以墓碑提交 1 条（别机当月，由所属机器执行）。"
    );
    assert_eq!(cleanup_window::handle_notification(7), CleanupAction::StartBins);
    assert_eq!(cleanup_window::handle_notification(10), CleanupAction::StartDupes);
    assert_eq!(cleanup_window::handle_notification(12), CleanupAction::Close);
    assert_eq!(cleanup_window::handle_notification(0x1_0007), CleanupAction::Nothing);
}

#[test]
fn the_cleanup_window_holds_its_controls() {
    let m = cleanup_window::base_metrics();
    let controls = cleanup_window::layout(&m);
    assert_eq!(controls.len(), 14);
    for control in &controls {
        assert!(control.at.x >= 0 && control.at.x + control.at.width <= m.client_width);
        assert!(control.at.y >= 0 && control.at.y + control.at.height <= m.client_height);
    }
    assert_eq!(controls[1].kind, ControlKind::Radio);
    assert!(controls[1].starts_group && controls[3].starts_group);
    assert_eq!((controls[5].at.x, controls[5].at.width), (194, 368));
    assert_eq!(opened_at(&work_area(), 620, 440), (650, 200));
    assert_eq!(opened_at(&work_area(), 1925, 1045), (-2, -1));
}

// ------------------------------------------------------------- tray, log, the rest

#[test]
fn the_tray_menu_ticks_autostart() {
    assert_eq!(tray::handle_callback(0x0202), TrayAction::TogglePopup);
    assert_eq!(tray::handle_callback(0x0205), TrayAction::ShowMenu);
    assert_eq!(tray::handle_callback(0x0200), TrayAction::Nothing);
    let menu = tray::show_menu(true);
    assert_eq!(menu.len(), 7);
    assert!(menu[4].checked);
    assert!(!tray::show_menu(false)[4].checked);
    assert_eq!(tray::handle_command(menu[0].id), TrayAction::OpenSyncFolder);
    assert_eq!(tray::handle_command(menu[6].id), TrayAction::Quit);
    assert_eq!(tray::handle_command(0), TrayAction::Nothing);
}

#[test]
fn log_lines_carry_time_and_level() {
    let now = SYSTEMTIME {
        year: 2026,
        month: 2,
        day_of_week: 0,
        day: 3,
        hour: 4,
        minute: 5,
        second: 6,
        milliseconds: 7,
    };
    assert_eq!(log::info(&now, "hi"), "2026-02-03 04:05:06.007 [INFO ] hi\n");
    assert_eq!(log::warn(&now, "hi"), "2026-02-03 04:05:06.007 [WARN ] hi\n");
    assert_eq!(log::error(&now, "hi"), "2026-02-03 04:05:06.007 [ERROR] hi\n");
    assert_eq!(log::path("C:\\app"), "C:\\app\\clipplus.log");
    assert!(!log::outgrown(1_048_576));
    assert!(log::outgrown(1_048_577));
}

#[test]
fn autostart_stores_a_quoted_command() {
    match autostart::set_enabled(true, &Some("C:\\a b.exe".to_string())) {
        autostart::Change::Store(bytes) => {
            let units: Vec<u16> = bytes
                .chunks(2)
                .map(|pair| u16::from_le_bytes([pair[0], pair[1]]))
                .collect();
            assert_eq!(units, win::wide("\"C:\\a b.exe\""));
        }
        other => panic!("{other:?}"),
    }
    assert!(matches!(autostart::set_enabled(true, &None), autostart::Change::Unresolved));
    assert!(matches!(autostart::set_enabled(false, &None), autostart::Change::Remove));
    assert!(autostart::succeeded(true, 0));
    assert!(!autostart::succeeded(true, 5));
    assert!(!autostart::succeeded(false, 0));
    assert!(autostart::removed(false, 5));
    assert!(autostart::removed(true, 2));
    assert!(!autostart::removed(true, 5));
    let buffer = win::wide("C:\\x.exe");
    assert_eq!(autostart::exe_path(&buffer, 8).as_deref(), Some("C:\\x.exe"));
    assert_eq!(autostart::exe_path(&buffer, 0), None);
}

#[test]
fn the_session_follows_the_settings() {
    let mut session = Session::new();
    assert!(session.current_settings().is_none());
    assert!(matches!(session.apply_hotkey(), HotkeyStep::Nothing));
    assert_eq!(session.suspend_hotkey(), None);
    session.set_window(77);
    assert!(matches!(session.apply_hotkey(), HotkeyStep::Nothing));

    let mut settings = Settings::default();
    settings.capture_images = false;
    session.set_settings(settings.clone());
    match session.apply_hotkey() {
        HotkeyStep::Register { window, modifiers, vk } => {
            assert_eq!((window, modifiers, vk), (77, 0x4009, 0x56))
        }
        other => panic!("{other:?}"),
    }
    assert_eq!(session.suspend_hotkey(), Some(77));

    settings.hotkey = "V".to_string();
    session.set_settings(settings);
    match session.apply_hotkey() {
        HotkeyStep::Unusable(message) => assert_eq!(
            message,
            "hotkey 'V' could not be parsed; expected e.g. Win+Alt+V"
        ),
        other => panic!("{other:?}"),
    }

    let text = ClipPayload::Text("héllo".to_string());
    let image = ClipPayload::Image(vec![1, 2]);
    assert!(session.captures(&text));
    assert_eq!(session.capture_line(&text), "captured text, 5 chars");
    assert_eq!(session.capture_line(&image), "ignored image, 2 PNG bytes (switched off)");
    assert_eq!(
        session.capture_line(&ClipPayload::Files(vec!["a".to_string()])),
        "captured 1 file(s)"
    );

    let moved = session.remember_popup_layout((1, 2), (3, 4)).unwrap();
    assert_eq!(moved.popup_position, Some((1, 2)));
    session.set_settings(moved);
    assert!(session.remember_popup_layout((1, 2), (3, 4)).is_none());

    assert!(session.clipboard_changed(5));
    assert!(!session.clipboard_changed(5));
    assert!(session.clipboard_changed(6));
}

#[test]
fn ctrl_v_leaves_no_key_held() {
    let strokes: Vec<(u16, u32)> = win::ctrl_v().iter().map(|s| (s.w_vk, s.dw_flags)).collect();
    assert_eq!(strokes, vec![(0x11, 0), (0x56, 0), (0x56, 2), (0x11, 2)]);
    assert_eq!(win::packed_size(win::pack(800, 600)), (800, 600));
    assert_eq!(win::packed_point(win::pack(0xFFFF, 5)), POINT { x: -1, y: 5 });
}

#[test]
fn popup_messages_find_their_meaning() {
    let idle = popup::Keys { control: false, shift: false, page: 7 };
    let send = |message: u32, wparam: usize, lparam: usize| {
        popup::window_proc(message, wparam, lparam, idle)
    };
    assert_eq!(send(0x0014, 0, 0), popup::Event::EraseBackground);
    assert_eq!(send(0x0133, 0, 0), popup::Event::ColourSearch);
    assert_eq!(send(0x0134, 0, 0), popup::Event::ColourList);
    assert_eq!(send(0x0138, 0, 0), popup::Event::ColourHelp);
    assert_eq!(send(0x002B, 0, 0), popup::Event::DrawRow);
    assert_eq!(send(0x0083, 1, 0), popup::Event::CoverFrame);
    assert_eq!(send(0x0083, 0, 0), popup::Event::Default);
    assert_eq!(send(0x0232, 0, 0), popup::Event::Settled);
    assert_eq!(
        send(0x0005, 0, 0x0258_0320),
        popup::Event::Resized { width: 800, height: 600 }
    );
    assert_eq!(send(0x020A, 0, 0), popup::Event::Wheel);
    assert_eq!(send(0x0024, 0, 0), popup::Event::SizeLimits);
    assert_eq!(
        send(0x0084, 0, 0x0010_FFFF),
        popup::Event::HitTest(POINT { x: -1, y: 16 })
    );
    assert_eq!(send(0x000F, 0, 0), popup::Event::Paint);
    assert_eq!(send(0x007B, 0, 0xFFFF_FFFF), popup::Event::RowMenu(None));
    assert_eq!(
        send(0x007B, 0, 0x0002_0003),
        popup::Event::RowMenu(Some(POINT { x: 3, y: 2 }))
    );
    assert_eq!(
        send(0x0201, 0, 0x0002_0003),
        popup::Event::Click(POINT { x: 3, y: 2 })
    );
    assert_eq!(send(0x0100, 0x0D, 0), popup::Event::Act(Action::Commit));
    assert_eq!(send(0x0100, 0x5A, 0), popup::Event::Default);
    assert_eq!(send(0x0111, 0x0300_0002, 0), popup::Event::Act(Action::Reload));
    assert_eq!(send(0x0111, 0x7777_0002, 0), popup::Event::Act(Action::Pass));
    assert_eq!(send(0x0006, 0, 0), popup::Event::Activation);
    assert_eq!(send(0x0001, 0, 0), popup::Event::Default);
}

#[test]
fn both_halves_of_the_popup_take_the_same_keys() {
    let held = popup::Keys { control: true, shift: false, page: 7 };
    for key in [0x1Busize, 0x0D, 0x26, 0x28, 0x21, 0x22, 0x50, 0x43, 0x09, 0x5A] {
        let typed = popup::search_proc(0x0100, key, held);
        assert_eq!(typed, popup::list_proc(0x0100, key, 0, held));
        assert_eq!(typed, popup::window_proc(0x0100, key, 0, held));
    }
    assert_eq!(popup::search_proc(0x0100, 0x2E, held), popup::Event::Default);
    assert_eq!(popup::list_proc(0x0100, 0x2E, 0, held), popup::Event::Act(Action::Delete));
    assert_eq!(popup::search_proc(0x0100, 0x41, held), popup::Event::Default);
    assert_eq!(popup::list_proc(0x0100, 0x41, 0, held), popup::Event::Act(Action::SelectAll));
    assert_eq!(popup::search_proc(0x020A, 0, held), popup::Event::Wheel);
    assert_eq!(popup::list_proc(0x020A, 0, 0, held), popup::Event::Default);
    assert_eq!(popup::list_proc(0x0102, 0x61, 0, held), popup::Event::TypeIntoSearch);
    assert_eq!(popup::list_proc(0x0102, 0x0D, 0, held), popup::Event::Default);
    assert_eq!(
        popup::list_proc(0x007B, 0, 0x0002_0003, held),
        popup::Event::RowMenu(Some(POINT { x: 3, y: 2 }))
    );
}

#[test]
fn the_other_windows_route_their_messages() {
    assert_eq!(
        clipplus::settings_window::window_proc(0x0010, 0),
        clipplus::settings_window::WindowEvent::Act(clipplus::settings_window::WindowAction::Close)
    );
    assert_eq!(
        clipplus::settings_window::window_proc(0x02E0, 0x0090_0090),
        clipplus::settings_window::WindowEvent::DpiChanged(144)
    );
    assert_eq!(
        clipplus::settings_window::window_proc(0x000F, 0),
        clipplus::settings_window::WindowEvent::Default
    );
    assert_eq!(
        clipplus::settings_window::hotkey_proc(0x0104, 0x56),
        clipplus::settings_window::WindowEvent::Record(0x56)
    );
    assert_eq!(
        clipplus::settings_window::hotkey_proc(0x0106, 0x56),
        clipplus::settings_window::WindowEvent::Swallow
    );
    assert_eq!(
        clipplus::settings_window::hotkey_proc(0x000F, 0),
        clipplus::settings_window::WindowEvent::Default
    );

    assert_eq!(
        cleanup_window::window_proc(0x8001, 0),
        cleanup_window::CleanupEvent::BinsScanned
    );
    assert_eq!(
        cleanup_window::window_proc(0x8002, 0),
        cleanup_window::CleanupEvent::Reported
    );
    assert_eq!(
        cleanup_window::window_proc(0x8003, 0),
        cleanup_window::CleanupEvent::DupesScanned
    );
    assert_eq!(
        cleanup_window::window_proc(0x8004, 0),
        cleanup_window::CleanupEvent::Reported
    );
    assert_eq!(
        cleanup_window::window_proc(0x0010, 0),
        cleanup_window::CleanupEvent::Act(CleanupAction::Close)
    );
    assert_eq!(
        cleanup_window::window_proc(0x02E0, 0x0060_0060),
        cleanup_window::CleanupEvent::DpiChanged(96)
    );
    assert_eq!(
        cleanup_window::window_proc(0x8005, 0),
        cleanup_window::CleanupEvent::Default
    );

    assert_eq!(
        clipplus::session::wnd_proc(0x031D, 0, 0),
        clipplus::session::SessionEvent::ClipboardChanged
    );
    assert_eq!(
        clipplus::session::wnd_proc(0x8001, 0, 0x0202),
        clipplus::session::SessionEvent::Tray(TrayAction::TogglePopup)
    );
    assert_eq!(
        clipplus::session::wnd_proc(0x0312, 0xC1A0, 0),
        clipplus::session::SessionEvent::TogglePopup
    );
    assert_eq!(
        clipplus::session::wnd_proc(0x0312, 1, 0),
        clipplus::session::SessionEvent::Ignored
    );
    assert_eq!(
        clipplus::session::wnd_proc(0x0002, 0, 0),
        clipplus::session::SessionEvent::Quit
    );
    assert_eq!(
        clipplus::session::wnd_proc(0x0001, 0, 0),
        clipplus::session::SessionEvent::Default
    );
}
