use zed_web::serve::connection::{truncate_reason, MAX_CLOSE_REASON_BYTES};
use zed_web::serve::files::{is_valid_extension_id, MAX_EXTENSION_ID_BYTES};
use zed_web::settings::PlatformStyle;

#[test]
fn extension_id_grammar() {
    for valid in ["toml", "zed-lua", "a", "x_1", &"a".repeat(MAX_EXTENSION_ID_BYTES)] {
        assert!(is_valid_extension_id(valid), "{valid:?}");
    }
    for invalid in [
        "",
        ".",
        "..",
        "-lead",
        "_lead",
        "Upper",
        "a/b",
        "a b",
        &"a".repeat(MAX_EXTENSION_ID_BYTES + 1),
    ] {
        assert!(!is_valid_extension_id(invalid), "{invalid:?}");
    }
}

#[test]
fn close_reasons_are_truncated_to_the_rfc_limit() {
    let long = "x".repeat(MAX_CLOSE_REASON_BYTES + 20);
    assert_eq!(truncate_reason(&long).len(), MAX_CLOSE_REASON_BYTES);
    assert_eq!(truncate_reason("short"), "short");
    let multibyte = "é".repeat(MAX_CLOSE_REASON_BYTES);
    assert!(truncate_reason(&multibyte).len() <= MAX_CLOSE_REASON_BYTES);
    assert_eq!(truncate_reason(&multibyte), "é".repeat(61));
}

#[test]
fn platform_style_native_unchanged() {
    assert_eq!(PlatformStyle::platform("linux"), PlatformStyle::Linux);
    assert_eq!(PlatformStyle::platform("freebsd"), PlatformStyle::Linux);
    assert_eq!(PlatformStyle::platform("windows"), PlatformStyle::Windows);
    assert_eq!(PlatformStyle::platform("macos"), PlatformStyle::Mac);
}
