use fwupdate::logger::{
    decorate_record, dlog, elog, find_string, ilog, level_color, wlog, LogColor, LogLevel,
};

#[test]
fn find_string_known_and_unknown_ids() {
    assert_eq!(find_string(0), "main");
    assert_eq!(find_string(3), "web");
    assert_eq!(find_string(6), "wifi");
    assert_eq!(find_string(8), "sysinfo");
    for id in [1u16, 2, 4, 5, 7, 9, 100, u16::MAX] {
        assert_eq!(find_string(id), "unknown");
    }
}

#[test]
fn log_records_carry_level_and_tag() {
    let r = ilog("Starting up", 3);
    assert_eq!(r.level, LogLevel::Info);
    assert_eq!(r.message, "%web%Starting up");
    let r = dlog("Rebooting", 0);
    assert_eq!(r.level, LogLevel::Debug);
    assert_eq!(r.message, "%main%Rebooting");
    let r = wlog("careful", 6);
    assert_eq!(r.level, LogLevel::Warn);
    assert_eq!(r.message, "%wifi%careful");
    let r = elog("bad", 42);
    assert_eq!(r.level, LogLevel::Error);
    assert_eq!(r.message, "%unknown%bad");
    assert_eq!(ilog("", 8).message, "%sysinfo%");
}

#[test]
fn level_colors() {
    assert_eq!(level_color(LogLevel::Info), LogColor::Yellow);
    assert_eq!(level_color(LogLevel::Debug), LogColor::Cyan);
    assert_eq!(level_color(LogLevel::Error), LogColor::Red);
    assert_eq!(level_color(LogLevel::Warn), LogColor::White);
    assert_eq!(level_color(LogLevel::Trace), LogColor::White);
}

#[test]
fn decorate_web_record() {
    let d = decorate_record(LogLevel::Info, "%web%Starting up");
    assert_eq!(d.source, "web");
    assert_eq!(d.source_color, Some(LogColor::Cyan));
    assert_eq!(d.level_color, LogColor::Yellow);
    assert_eq!(d.message, "Starting up");
}

#[test]
fn decorate_wifi_record() {
    let d = decorate_record(LogLevel::Error, "%wifi%link down");
    assert_eq!(d.source, "wifi");
    assert_eq!(d.source_color, Some(LogColor::Cyan));
    assert_eq!(d.level_color, LogColor::Red);
    assert_eq!(d.message, "link down");
}

#[test]
fn decorate_controller_record() {
    let d = decorate_record(LogLevel::Debug, "%controller%tick %controller%");
    assert_eq!(d.source, "main");
    assert_eq!(d.source_color, Some(LogColor::Green));
    assert_eq!(d.message, "tick ");
}

#[test]
fn decorate_untagged_and_main_records() {
    let d = decorate_record(LogLevel::Warn, "plain text");
    assert_eq!(d.source, "main");
    assert_eq!(d.source_color, None);
    assert_eq!(d.level_color, LogColor::White);
    assert_eq!(d.message, "plain text");
    let d = decorate_record(LogLevel::Info, "%main%hello");
    assert_eq!(d.source, "main");
    assert_eq!(d.source_color, None);
    assert_eq!(d.message, "%main%hello");
}

#[test]
fn decorate_last_tag_wins() {
    let d = decorate_record(LogLevel::Info, "%web%a%wifi%b%web%");
    assert_eq!(d.source, "wifi");
    assert_eq!(d.source_color, Some(LogColor::Cyan));
    assert_eq!(d.message, "ab");
    let d = decorate_record(LogLevel::Info, "%controller%x%web%y");
    assert_eq!(d.source, "web");
    assert_eq!(d.source_color, Some(LogColor::Cyan));
    assert_eq!(d.message, "xy");
}

#[test]
fn decorate_tag_formed_by_stripping() {
    // stripping %controller% joins "%we" and "b%" into a web tag
    let d = decorate_record(LogLevel::Info, "%we%controller%b%z");
    assert_eq!(d.source, "web");
    assert_eq!(d.message, "z");
}

#[test]
fn law_logged_record_decoration_on_values() {
    for id in [0u16, 1, 3, 6, 8, 500] {
        let r = ilog("update done", id);
        let d = decorate_record(r.level, &r.message);
        if id == 3 || id == 6 {
            assert_eq!(d.source, find_string(id));
            assert_eq!(d.message, "update done");
            assert_eq!(d.source_color, Some(LogColor::Cyan));
        } else {
            assert_eq!(d.source, "main");
            assert_eq!(d.message, r.message);
            assert_eq!(d.source_color, None);
        }
    }
}
