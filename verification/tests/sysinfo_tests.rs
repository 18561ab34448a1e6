use fwupdate::sysinfo::{
    do_rauc_update, file_exists_res, get_rauc_booted_slot, killall_dhcp_client,
    killall_squeezelite, killall_wpa_supplicant, mask_chars, ping_command, ping_verdict,
    rauc_status_command, reboot_command, replace_none_alphanumeric, replace_string_unterscore,
    report_command_output, start_squeezelite,
};

#[test]
fn replace_none_alphanumeric_examples() {
    assert_eq!(replace_none_alphanumeric("My Player #2".to_string()), "My-Player--2");
    assert_eq!(replace_none_alphanumeric("".to_string()), "");
    assert_eq!(replace_none_alphanumeric("abcXYZ019".to_string()), "abcXYZ019");
    // non-ASCII letters and digits are alphanumeric too
    assert_eq!(replace_none_alphanumeric("Küche ٣".to_string()), "Küche-٣");
    assert_eq!(replace_none_alphanumeric("a\u{2014}b".to_string()), "a-b");
}

#[test]
fn replace_string_unterscore_examples() {
    assert_eq!(replace_string_unterscore("my song.mp3".to_string()), "my_song.mp3");
    assert_eq!(replace_string_unterscore("a.b.c".to_string()), "a_b_c");
    assert_eq!(replace_string_unterscore("__mp3".to_string()), "_.mp3");
    assert_eq!(replace_string_unterscore("x_mp3_mp3".to_string()), "x.mp3.mp3");
    assert_eq!(replace_string_unterscore("".to_string()), "");
}

#[test]
fn law_replace_none_alphanumeric_idempotent_on_values() {
    for s in ["a b-c", "--", "Grüße, Welt!", "ok"] {
        let once = replace_none_alphanumeric(s.to_string());
        assert_eq!(replace_none_alphanumeric(once.clone()), once);
    }
}

#[test]
fn law_sanitizers_keep_length_on_values() {
    for s in ["a b-c", "song (live).mp3", "ß€x", ""] {
        let n = s.chars().count();
        assert_eq!(replace_none_alphanumeric(s.to_string()).chars().count(), n);
        assert_eq!(replace_string_unterscore(s.to_string()).chars().count(), n);
    }
}

#[test]
fn mask_chars_uses_flags() {
    assert_eq!(mask_chars("abc", &vec![true, false, true], '*'), "a*c");
    assert_eq!(mask_chars("", &vec![], '*'), "");
}

#[test]
fn command_lines() {
    assert_eq!(killall_wpa_supplicant(), vec!["killall", "wpa_supplicant"]);
    assert_eq!(killall_squeezelite(), vec!["killall", "/usr/bin/squeezelite"]);
    assert_eq!(killall_dhcp_client(), vec!["killall", "udhcpc"]);
    assert_eq!(do_rauc_update("/tmp/fw.raucb"), vec!["rauc", "install", "/tmp/fw.raucb"]);
    assert_eq!(reboot_command(), vec!["reboot"]);
    assert_eq!(ping_command("10.0.0.1"), vec!["/usr/bin/ping", "-c", "1", "-W", "1", "10.0.0.1"]);
    assert_eq!(rauc_status_command(), vec!["/usr/bin/rauc", "status", "--output-format=json"]);
}

#[test]
fn squeezelite_command_lines() {
    assert_eq!(
        start_squeezelite(true, "kitchen"),
        vec!["/usr/bin/squeezelite", "-n", "kitchen", "-z", "-o", "bluealsa"]
    );
    assert_eq!(
        start_squeezelite(false, "kitchen"),
        vec!["/usr/bin/squeezelite", "-n", "kitchen", "-z", "", ""]
    );
}

#[test]
fn report_command_output_is_always_an_error() {
    assert_eq!(report_command_output(Ok("killed".to_string())), Err("killed".to_string()));
    assert_eq!(report_command_output(Ok(String::new())), Err(String::new()));
    assert_eq!(
        report_command_output(Err("No such file or directory".to_string())),
        Err("No such file or directory".to_string())
    );
}

#[test]
fn ping_verdicts() {
    let ok = "1 packets transmitted, 1 received, 0% packet loss".to_string();
    assert_eq!(ping_verdict(Ok(ok)), Ok(true));
    let lost = "1 packets transmitted, 0 received, 100% packet loss".to_string();
    assert_eq!(ping_verdict(Ok(lost)), Err("false".to_string()));
    assert_eq!(ping_verdict(Err("spawn failed".to_string())), Err("spawn failed".to_string()));
}

#[test]
fn file_exists_res_answers() {
    assert_eq!(file_exists_res("/etc/hostname", true), Ok(true));
    assert_eq!(
        file_exists_res("/nope", false),
        Err("File /nope does not exist!".to_string())
    );
}

#[test]
fn rauc_status_parsing() {
    let v = get_rauc_booted_slot(r#"{"booted": "A", "slots": []}"#).unwrap();
    assert_eq!(v["booted"], serde_json::Value::String("A".to_string()));
    let e = get_rauc_booted_slot("").unwrap_err();
    assert_eq!(e, "EOF while parsing a value at line 1 column 0");
    assert!(get_rauc_booted_slot("{not json").is_err());
}

#[test]
fn law_replace_string_unterscore_idempotent_on_values() {
    for s in ["my song.mp3", "__mp3", "a_mp3_mp3.mp3", "x .mp3 _mp3", "Grüße.mp3", ""] {
        let once = replace_string_unterscore(s.to_string());
        assert_eq!(replace_string_unterscore(once.clone()), once);
    }
}

#[test]
fn rauc_status_value_is_the_parsed_document() {
    let text = r#"{"compatible": "rollo", "booted": "B", "slots": [{"rootfs.0": {"state": "booted"}}]}"#;
    let expected: serde_json::Value = serde_json::from_str(text).unwrap();
    assert_eq!(get_rauc_booted_slot(text), Ok(expected));
    assert_ne!(get_rauc_booted_slot(text), get_rauc_booted_slot("{}"));
}
