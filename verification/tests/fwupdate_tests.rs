use fwupdate::fwupdate::{
    collect_links, extract_links, firmware_index_url, page_plan, rauc_update_status,
    upload_source, UpdateSource, UploadedFile,
};
use fwupdate::statics::Statics;

#[test]
fn index_url() {
    assert_eq!(
        firmware_index_url("rollo", "http://10.10.2.58:8181/", "release"),
        "http://10.10.2.58:8181//fw/release/rollo/"
    );
}

#[test]
fn links_from_index_page() {
    let body = "<html>\r\n<a href=\"../\">../</a>\r\n<a href=\"fw-1.0.raucb\">fw-1.0.raucb</a>  12-Jan\n<p>none</p>\n<a href=\"fw-1.1.raucb\">x</a>\n";
    assert_eq!(extract_links(body), vec!["fw-1.0.raucb", "fw-1.1.raucb"]);
    assert_eq!(extract_links(""), Vec::<String>::new());
}

#[test]
fn links_capture_is_greedy() {
    // `.+` reaches the last quote on the line
    assert_eq!(extract_links("<a href=\"a\" title=\"b\">"), vec!["a\" title=\"b"]);
    // an empty target does not match `.+` followed by a quote
    assert_eq!(extract_links("<a href=\"\">"), Vec::<String>::new());
}

#[test]
fn collect_links_drops_parent_and_misses() {
    let caps = vec![Some("../".to_string()), None, Some("b".to_string()), Some("a".to_string())];
    assert_eq!(collect_links(caps), vec!["b", "a"]);
}

#[test]
fn law_links_exclude_parent_on_values() {
    let links = extract_links("href=\"../\"\nhref=\"../\"\nhref=\"x\"");
    assert!(links.iter().all(|l| l != "../"));
    assert_eq!(links, vec!["x"]);
}

#[test]
fn upload_source_remote() {
    let s = Statics::default();
    let files = vec![UploadedFile { file_name: Some("f.raucb".to_string()), size: 3 }];
    assert_eq!(
        upload_source(&s, "fw-2.raucb", &files),
        UpdateSource::Remote { path: "http://10.10.2.58:8181//release/rollo/fw-2.raucb".to_string() }
    );
}

#[test]
fn upload_source_local() {
    let s = Statics::default();
    let files = vec![
        UploadedFile { file_name: Some("first.raucb".to_string()), size: 9 },
        UploadedFile { file_name: Some("last.raucb".to_string()), size: 0 },
    ];
    assert_eq!(
        upload_source(&s, "-", &files),
        UpdateSource::Local { path: "/tmp/last.raucb".to_string(), persist: false }
    );
    let files = vec![UploadedFile { file_name: Some("b.raucb".to_string()), size: 10 }];
    assert_eq!(
        upload_source(&s, "", &files),
        UpdateSource::Local { path: "/tmp/b.raucb".to_string(), persist: true }
    );
}

#[test]
fn upload_source_missing() {
    let s = Statics::default();
    assert_eq!(upload_source(&s, "", &vec![]), UpdateSource::Missing);
    assert_eq!(upload_source(&s, "-", &vec![]), UpdateSource::Missing);
}

#[test]
fn rauc_status_values() {
    let ok = "installing\ninstalling `/tmp/b.raucb` succeeded\n".to_string();
    assert_eq!(rauc_update_status(Some(ok.clone())), ("rebooting".to_string(), ok));
    let bad = "installing\nfailed: signature".to_string();
    assert_eq!(rauc_update_status(Some(bad.clone())), ("failed".to_string(), bad));
    // the word must follow a space
    assert_eq!(rauc_update_status(Some("succeeded".to_string())).0, "failed");
    assert_eq!(rauc_update_status(None), (String::new(), String::new()));
}

#[test]
fn page_plans() {
    let p = page_plan("rebooting", "a\r\nb\n");
    assert!(p.reboot);
    assert_eq!(p.info_lines, Some(vec!["a".to_string(), "b".to_string()]));
    let p = page_plan("failed", "x");
    assert!(!p.reboot);
    assert_eq!(p.info_lines, Some(vec!["x".to_string()]));
    let p = page_plan("", "ignored");
    assert!(!p.reboot);
    assert_eq!(p.info_lines, None);
}

#[test]
fn law_reboot_only_after_success_on_values() {
    for (out, reboot) in [
        (Some("bundle succeeded".to_string()), true),
        (Some("error".to_string()), false),
        (None, false),
    ] {
        let shown = out.is_some();
        let (status, stdout) = rauc_update_status(out);
        let p = page_plan(&status, &stdout);
        assert_eq!(p.reboot, reboot);
        assert_eq!(p.info_lines.is_some(), shown);
    }
}
