use erock::jit_gate::{health_fields, is_valid_key, jit_available, jit_enabled, jit_reason, license_valid, JitConfig};

fn config(compiled: bool, flag: Option<&str>, key: Option<&str>) -> JitConfig {
    JitConfig {
        compiled,
        disable_flag: flag.map(|f| f.to_string()),
        license_key: key.map(|k| k.to_string()),
    }
}

#[test]
fn development_keys_are_valid() {
    assert!(is_valid_key("EROCK-PRO-DEV"));
    assert!(is_valid_key("EROCK-PRO-TEST"));
}

#[test]
fn key_body_length_is_bounded() {
    assert!(!is_valid_key("EROCK-PRO-ABCDEFGHIJK"));
    assert!(is_valid_key("EROCK-PRO-ABCDEFGHIJKL"));
    let longest = format!("EROCK-PRO-{}", "A".repeat(64));
    assert!(is_valid_key(&longest));
    let too_long = format!("EROCK-PRO-{}", "A".repeat(65));
    assert!(!is_valid_key(&too_long));
}

#[test]
fn key_body_alphabet_is_checked() {
    assert!(is_valid_key("EROCK-PRO-0123-ABCD-XYZ9"));
    assert!(!is_valid_key("EROCK-PRO-0123-abcd-XYZ9"));
    assert!(!is_valid_key("EROCK-PRO-0123_ABCD_XYZ9"));
    assert!(!is_valid_key("erock-pro-0123-ABCD-XYZ9"));
    assert!(!is_valid_key(""));
    assert!(!is_valid_key("EROCK-PRO-"));
}

#[test]
fn reason_names_the_first_obstacle() {
    let key = Some("EROCK-PRO-DEV");
    assert_eq!(jit_reason(&config(false, Some("1"), None)), "not-compiled");
    assert_eq!(jit_reason(&config(true, Some("1"), key)), "disabled-by-env");
    assert_eq!(jit_reason(&config(true, None, None)), "no-or-invalid-license");
    assert_eq!(jit_reason(&config(true, Some("0"), Some("bad"))), "no-or-invalid-license");
    assert_eq!(jit_reason(&config(true, Some("0"), key)), "enabled");
}

#[test]
fn enabled_needs_all_three() {
    let key = Some("EROCK-PRO-DEV");
    assert!(jit_enabled(&config(true, None, key)));
    assert!(!jit_enabled(&config(false, None, key)));
    assert!(!jit_enabled(&config(true, Some("1"), key)));
    assert!(jit_enabled(&config(true, Some("true"), key)));
    assert!(!jit_enabled(&config(true, None, None)));
    assert!(license_valid(&config(false, None, key)));
    assert!(!jit_available(&config(false, None, key)));
}

#[test]
fn health_fields_agree_with_the_single_queries() {
    let c = config(true, None, Some("EROCK-PRO-TEST"));
    assert_eq!(health_fields(&c), (true, true, "enabled".to_string()));
    let d = config(false, None, Some("EROCK-PRO-TEST"));
    assert_eq!(health_fields(&d), (false, false, "not-compiled".to_string()));
}
