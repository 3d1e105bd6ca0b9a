use exe_packer::version::{extract_version_info, resolve_version_info, VersionInfo};

#[test]
fn version_info_is_absent() {
    assert!(extract_version_info("input.exe").is_none());
}

#[test]
fn given_values_win_over_found_ones() {
    let given = VersionInfo { product_name: Some("Mine".to_string()), ..Default::default() };
    let found = Some(VersionInfo {
        product_name: Some("Theirs".to_string()),
        company_name: Some("Corp".to_string()),
        ..Default::default()
    });
    let r = resolve_version_info(&given, &found);
    assert_eq!(r.product_name.as_deref(), Some("Mine"));
    assert_eq!(r.company_name.as_deref(), Some("Corp"));
    assert_eq!(r.copyright, None);
}

#[test]
fn nothing_found_keeps_given() {
    let given = VersionInfo { file_version: Some("1.0.0.0".to_string()), ..Default::default() };
    let r = resolve_version_info(&given, &None);
    assert_eq!(r.file_version.as_deref(), Some("1.0.0.0"));
    assert_eq!(r.product_name, None);
}
