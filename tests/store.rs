use feral_setupd::app_cache::{split_entry, Cache, LOCATION_ID, TOPIC_ID};
use feral_setupd::device::{device_id_from_digest, get_device_id};
use feral_setupd::display::{build_qrcode_url, info_fields, startup_screen, StartupScreen};
use feral_setupd::session::Session;
use feral_setupd::text::{split_lines, text_contains, text_is};

#[test]
fn cache_set_get() {
    let mut c = Cache::new();
    assert_eq!(c.get(TOPIC_ID), None);
    c.set(TOPIC_ID, "t1");
    c.set(LOCATION_ID, "loc");
    assert_eq!(c.get(TOPIC_ID), Some("t1".to_string()));
    c.set(TOPIC_ID, "t2");
    assert_eq!(c.get(TOPIC_ID), Some("t2".to_string()));
    assert_eq!(c.get(LOCATION_ID), Some("loc".to_string()));
    let pairs = c.pairs();
    assert_eq!(pairs.len(), 2);
}

#[test]
fn info_from_cache() {
    let mut c = Cache::new();
    assert_eq!(info_fields(&c), Vec::<String>::new());
    c.set(TOPIC_ID, "abc");
    assert_eq!(info_fields(&c), vec!["abc".to_string()]);
}

#[test]
fn qrcode_url_forms() {
    let prefix = "file:///opt/feral/ui/launcher/index.html?step=qr&device_id=";
    assert_eq!(build_qrcode_url("FF-X1-1", &None, true), format!("{}FF-X1-1", prefix));
    assert_eq!(
        build_qrcode_url("FF-X1-1", &Some("t".to_string()), true),
        format!("{}FF-X1-1|t|true", prefix)
    );
    assert_eq!(
        build_qrcode_url("FF-X1-1", &Some("t".to_string()), false),
        format!("{}FF-X1-1|t|false", prefix)
    );
}

#[test]
fn device_id_from_known_digest() {
    let mut d = [0u8; 16];
    for (i, b) in d.iter_mut().enumerate() {
        *b = i as u8;
    }
    assert_eq!(device_id_from_digest(&d), "FF-X1-01234567");
    let d2 = [35, 36, 71, 200, 255, 9, 10, 100, 0, 0, 0, 0, 0, 0, 0, 0];
    assert_eq!(device_id_from_digest(&d2), "FF-X1-Z0ZK39AS");
}

#[test]
fn device_id_hashes_the_address() {
    assert_eq!(get_device_id(None), "FF-X1-7PYSZZXU");
    assert_eq!(get_device_id(Some([0, 0, 0, 0, 0, 0])), "FF-X1-7PYSZZXU");
    assert_eq!(get_device_id(Some([0x12, 0x34, 0x56, 0x78, 0x9a, 0xbc])), "FF-X1-604RPFTQ");
}

#[test]
fn session_start_stop_idempotent() {
    let mut s = Session::new();
    assert!(s.needs_start());
    s.mark_started();
    assert!(!s.needs_start());
    assert!(s.begin_stop());
    assert!(!s.begin_stop());
}

#[test]
fn text_helpers() {
    assert!(text_is("abc", "abc"));
    assert!(!text_is("abc", "abd"));
    assert!(!text_is("ab", "abc"));
    assert!(text_contains("a wrong password", "password"));
    assert!(!text_contains("pass word", "password"));
    assert!(text_contains("x", ""));
    assert_eq!(split_lines("a\r\nb\n\nc\r"), vec!["a", "b", "", "c\r"]);
}

#[test]
fn startup_screen_choice() {
    assert_eq!(startup_screen(true, true), StartupScreen::WebApp);
    assert_eq!(startup_screen(true, false), StartupScreen::QrCode { auto_redirect: true });
    assert_eq!(startup_screen(false, true), StartupScreen::QrCode { auto_redirect: false });
    assert_eq!(startup_screen(false, false), StartupScreen::QrCode { auto_redirect: false });
}

#[test]
fn store_line_split() {
    assert_eq!(split_entry("topic_id=abc"), Some(("topic_id".to_string(), "abc".to_string())));
    assert_eq!(split_entry("k=a=b"), Some(("k".to_string(), "a=b".to_string())));
    assert_eq!(split_entry("=v"), Some((String::new(), "v".to_string())));
    assert_eq!(split_entry("no separator"), None);
}
