use clipplus::clip::ClipPayload;
use clipplus::controls::ControlKind;
use clipplus::hotkey::{virtual_key, Modifiers};
use clipplus::settings::{
    capture_enabled, current_year, fresh_machine_id, key_name, load_machine_id, month_bucket,
    parse_hotkey, remember_popup_layout, resolve_sync_root, unique_stem, Hotkey, Settings,
};
use clipplus::settings_window;
use clipplus::settings_window::{
    populate, record, save, to_probe, Complaint, NumberField, WindowAction,
};
use clipplus::win::{local_year_month, unix_ms_to_file_time, SYSTEMTIME};

/// The settings window writes what `text` produces and the save path reads it back
/// through `parse_hotkey`, so the two have to agree; and the bare-key rule is what
/// stops a hotkey from eating a whole key.
#[test]
fn hotkey_text_round_trips() {
    for spelling in ["Win+Alt+V", "Ctrl+Shift+F9", "F5", "Ctrl+0"] {
        let parsed = parse_hotkey(spelling).unwrap_or_else(|| panic!("{spelling}"));
        assert_eq!(parsed.text(), spelling);
        assert_eq!(
            parse_hotkey(&parsed.text()).map(Hotkey::text),
            Some(parsed.text())
        );
    }

    assert_eq!(
        parse_hotkey("ctrl+alt+v").map(Hotkey::text),
        Some("Ctrl+Alt+V".to_string())
    );

    // A bare letter, digit or punctuation key would be registered against the whole
    // system, so those are rejected rather than accepted.
    assert!(parse_hotkey("V").is_none());
    assert!(parse_hotkey("7").is_none());
    assert!(parse_hotkey("Ctrl+Shift").is_none());
    assert!(parse_hotkey("Ctrl+Shift+Q+W").is_none());
    assert!(parse_hotkey("Ctrl+F25").is_none());
}

#[test]
fn hotkeys_are_read_in_any_case_order_and_spacing() {
    let expected = parse_hotkey("Win+Ctrl+F9").map(|h| (h.modifiers, h.vk));
    assert_eq!(expected, Some((0x000A, 0x78)));
    for spelling in [
        "WIN+CTRL+F9",
        "win+ctrl+f9",
        "F9+Ctrl+Win",
        "Ctrl+F9+Win",
        "  Win + Ctrl\t+ f9 ",
        "super+control+F9",
        "Ctrl++Win+F9+",
    ] {
        assert_eq!(parse_hotkey(spelling).map(|h| (h.modifiers, h.vk)), expected);
    }
}

#[test]
fn keys_have_names_both_ways() {
    assert_eq!(key_name(0x41).as_deref(), Some("A"));
    assert_eq!(key_name(0x87).as_deref(), Some("F24"));
    assert_eq!(key_name(0x88), None);
    assert_eq!(virtual_key("f24"), Some(0x87));
    assert_eq!(virtual_key("z"), Some(0x5A));
    assert_eq!(virtual_key("F0"), None);
    assert_eq!(Hotkey::new(0, 0x41), None);
    assert_eq!(Hotkey::new(0, 0x70).map(Hotkey::text).as_deref(), Some("F1"));
    let all = Modifiers { win: true, ctrl: true, alt: true, shift: true };
    assert_eq!(all.flags(), 0x000F);
    assert_eq!(
        Hotkey::new(all.flags(), 0x30).map(Hotkey::text).as_deref(),
        Some("Win+Ctrl+Alt+Shift+0")
    );
}

#[test]
fn the_sync_root_falls_back_step_by_step() {
    let folders = vec![None, Some(String::new()), Some("C:\\OneDrive".to_string())];
    assert_eq!(resolve_sync_root("C:\\app", &Some("  D:\\x ".to_string()), &folders), "D:\\x");
    assert_eq!(
        resolve_sync_root("C:\\app", &Some("  ".to_string()), &folders),
        "C:\\OneDrive\\ClipPlus"
    );
    assert_eq!(resolve_sync_root("C:\\app", &None, &vec![None]), "C:\\app\\sync");
}

#[test]
fn loaded_settings_are_completed_and_clamped() {
    let mut stored = Settings::default();
    assert_eq!(stored.hotkey, "Win+Alt+V");
    assert_eq!(stored.inline_text_limit, 8192);
    assert_eq!(stored.max_blob_bytes, 10_485_760);
    assert_eq!(stored.rescan_seconds, 60);
    stored.settings_scale = 9000;
    stored.sync_root_override = Some("D:\\history".to_string());
    let loaded = Settings::load(stored, "C:\\app".to_string(), "3f9a2c81".to_string(), &vec![]);
    assert_eq!(loaded.settings_scale, 300);
    assert_eq!(loaded.history_root(), "D:\\history\\3f9a2c81");
    assert_eq!(loaded.file(), "C:\\app\\settings.json");
    let moved = remember_popup_layout(&loaded, (5, 6), (700, 500)).unwrap();
    assert_eq!(moved.popup_size, Some((700, 500)));
    assert_eq!(moved.hotkey, loaded.hotkey);
    assert!(remember_popup_layout(&moved, (5, 6), (700, 500)).is_none());
}

#[test]
fn machine_ids_are_kept_or_made() {
    assert_eq!(
        load_machine_id(&Some(" 3f9a2c81\r\n".to_string())).as_deref(),
        Some("3f9a2c81")
    );
    assert_eq!(load_machine_id(&Some("  \n".to_string())), None);
    assert_eq!(load_machine_id(&None), None);
    let fresh = fresh_machine_id(1_769_000_000_123_456_789, 4242);
    assert_eq!(fresh.len(), 8);
    assert!(fresh.chars().all(|c| c.is_ascii_hexdigit() && !c.is_ascii_uppercase()));
    assert_ne!(fresh, fresh_machine_id(1_769_000_000_123_456_790, 4242));
}

#[test]
fn stems_start_with_the_time_and_differ() {
    let a = unique_stem(1_769_000_000_000, 5, 1, 77);
    let b = unique_stem(1_769_000_000_000, 5, 2, 77);
    assert!(a.starts_with("1769000000000-"));
    assert_ne!(a, b);
}

fn local(year: u16, month: u16) -> SYSTEMTIME {
    SYSTEMTIME {
        year,
        month,
        day_of_week: 0,
        day: 1,
        hour: 0,
        minute: 0,
        second: 0,
        milliseconds: 0,
    }
}

#[test]
fn months_are_named_by_local_time() {
    assert_eq!(month_bucket(&local(2026, 2)), "2026-02");
    assert_eq!(month_bucket(&SYSTEMTIME::default()), "1970-01");
    assert_eq!(current_year(&local(2026, 2)), 2026);
    assert_eq!(local_year_month(&local(2026, 12)), (2026, 12));
    let ticks = unix_ms_to_file_time(0);
    let whole = ((ticks.dw_high_date_time as u64) << 32) | ticks.dw_low_date_time as u64;
    assert_eq!(whole, 116_444_736_000_000_000);
    assert_eq!(unix_ms_to_file_time(i64::MIN).dw_high_date_time, 0);
}

#[test]
fn switches_decide_what_is_captured() {
    let mut settings = Settings::default();
    settings.inline_text_limit = 3;
    settings.capture_files = false;
    let short = ClipPayload::Text("abc".to_string());
    let long = ClipPayload::Text("abcd".to_string());
    let files = ClipPayload::Files(vec!["a".to_string()]);
    assert!(capture_enabled(&long, &None));
    assert!(capture_enabled(&long, &Some(settings.clone())));
    assert!(!capture_enabled(&files, &Some(settings.clone())));
    settings.write_blobs = false;
    assert!(capture_enabled(&short, &Some(settings.clone())));
    assert!(!capture_enabled(&long, &Some(settings.clone())));
    assert!(!capture_enabled(&ClipPayload::Image(vec![1]), &Some(settings)));
}

// ---------------------------------------------------------------------- the form

#[test]
fn an_untouched_form_changes_nothing() {
    let mut settings = Settings::default();
    settings.sync_root_override = Some("D:\\history".to_string());
    settings.popup_position = Some((1, 2));
    settings.retention_days = 30;
    let form = populate(&settings);
    assert_eq!(form.max_blob_mb, "10");
    assert_eq!(form.sync_root, "D:\\history");
    assert_eq!(to_probe(&settings, &form), None);
    let saved = save(&settings, &form, false).unwrap();
    assert_eq!(format!("{saved:?}"), format!("{settings:?}"));
}

#[test]
fn saving_reads_every_field() {
    let settings = Settings::default();
    let mut form = populate(&settings);
    form.hotkey = " ctrl+shift+k ".to_string();
    form.sync_root = "  ".to_string();
    form.retention = "7".to_string();
    form.max_blob_mb = "2".to_string();
    form.inline_limit = "".to_string();
    form.rescan = "10".to_string();
    form.scale = "125".to_string();
    form.write_blobs = false;
    assert_eq!(
        to_probe(&settings, &form).map(Hotkey::text).as_deref(),
        Some("Ctrl+Shift+K")
    );
    let saved = save(&settings, &form, true).unwrap();
    assert_eq!(saved.hotkey, "Ctrl+Shift+K");
    assert_eq!(saved.sync_root_override, None);
    assert_eq!(saved.retention_days, 7);
    assert_eq!(saved.max_blob_bytes, 2 * 1024 * 1024);
    assert_eq!(saved.inline_text_limit, 8192);
    assert_eq!(saved.rescan_seconds, 10);
    assert_eq!(saved.settings_scale, 125);
    assert!(!saved.write_blobs);
}

fn complaint(change: fn(&mut settings_window::SettingsForm), free: bool) -> Complaint {
    let settings = Settings::default();
    let mut form = populate(&settings);
    change(&mut form);
    save(&settings, &form, free).unwrap_err()
}

#[test]
fn every_complaint_says_what_is_wrong() {
    let bad = complaint(|form| form.hotkey = "V".to_string(), true);
    assert!(matches!(&bad, Complaint::Hotkey(typed) if typed == "V"));
    assert!(bad.message().starts_with("热键 “V” 不能用。\n\n"));

    let taken = complaint(|form| form.hotkey = "Ctrl+K".to_string(), false);
    assert!(matches!(&taken, Complaint::Taken(_)));
    assert_eq!(taken.message(), "“Ctrl+K” 已经被别的程序占用了，换一个组合。");

    let retention = complaint(|form| form.retention = " x ".to_string(), true);
    assert!(matches!(&retention, Complaint::NotANumber(NumberField::Retention, _)));
    assert_eq!(retention.message(), "保留天数：“x” 不是有效的非负整数");
    let blob = complaint(|form| form.max_blob_mb = "-1".to_string(), true);
    assert_eq!(blob.message(), "单条上限：“-1” 不是有效的非负整数");
    let inline = complaint(|form| form.inline_limit = "4294967296".to_string(), true);
    assert_eq!(inline.message(), "内联文本上限：“4294967296” 不是有效的非负整数");
    let rescan = complaint(|form| form.rescan = "1.5".to_string(), true);
    assert_eq!(rescan.message(), "重扫间隔：“1.5” 不是有效的非负整数");
    let scale = complaint(|form| form.scale = "big".to_string(), true);
    assert_eq!(scale.message(), "设置窗口字号：“big” 不是有效的非负整数");

    let short = complaint(|form| form.rescan = "9".to_string(), true);
    assert!(matches!(short, Complaint::RescanTooShort));
    assert_eq!(short.message(), "重扫间隔不能小于 10 秒。");
    let nothing = complaint(|form| form.max_blob_mb = "0".to_string(), true);
    assert!(matches!(nothing, Complaint::NothingFits));
    assert_eq!(nothing.message(), "单条上限不能为 0，否则什么都存不下来。");
    let range = complaint(|form| form.scale = "301".to_string(), true);
    assert!(matches!(range, Complaint::ScaleOutOfRange));
    assert_eq!(range.message(), "字号要在 50% 到 300% 之间，100% 就跟系统一样大。");
}

#[test]
fn the_hotkey_field_records_combinations() {
    let ctrl = Modifiers { win: false, ctrl: true, alt: false, shift: false };
    let none = Modifiers { win: false, ctrl: false, alt: false, shift: false };
    assert_eq!(record(0x4B, ctrl, None).as_deref(), Some("Ctrl+K"));
    assert_eq!(record(0x4B, none, None), None);
    assert_eq!(record(0x11, ctrl, None), None);
    assert_eq!(record(0x1B, ctrl, Some("Win+Alt+V")).as_deref(), Some("Win+Alt+V"));
    assert_eq!(record(0x1B, ctrl, None), None);
    assert_eq!(record(0xBA, ctrl, None), None);
}

#[test]
fn the_settings_window_holds_its_controls() {
    let m = settings_window::base_metrics();
    assert_eq!((m.client_width, m.client_height), (620, 412));
    let controls = settings_window::layout(&m);
    assert_eq!(controls.len(), 22);
    for control in &controls {
        assert!(control.at.x >= 0 && control.at.x + control.at.width <= m.client_width);
        assert!(control.at.y >= 0 && control.at.y + control.at.height <= m.client_height);
    }
    assert_eq!(controls[0].caption, "热键（点这里按组合键）");
    assert_eq!(controls[13].id, settings_window::ID_SETTINGS_SCALE);
    assert_eq!(controls[13].kind, ControlKind::NumberField);
    assert_eq!((controls[13].at.x, controls[13].at.y), (244, 244));
    assert_eq!(controls[19].kind, ControlKind::DefaultButton);
    assert_eq!(
        settings_window::handle_notification(0x0100_0001),
        WindowAction::SuspendHotkey
    );
    assert_eq!(
        settings_window::handle_notification(0x0200_0001),
        WindowAction::ApplyHotkey
    );
    assert_eq!(settings_window::handle_notification(10), WindowAction::Save);
    assert_eq!(settings_window::handle_notification(11), WindowAction::Close);
    assert_eq!(settings_window::handle_notification(14), WindowAction::OpenCleanup);
    assert_eq!(settings_window::handle_notification(1), WindowAction::Nothing);
}
