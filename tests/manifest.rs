use gdpack::manifest::{is_float_text, Package};

fn package(name: &str, version: &str, files: &[&str]) -> Package {
    Package::new(
        name.to_string(),
        "a package".to_string(),
        "use it".to_string(),
        version.to_string(),
        files.iter().map(|f| f.to_string()).collect(),
    )
}

#[test]
fn name_with_space_is_invalid() {
    assert!(!package("Foo Bar", "1.0", &[]).is_valid());
}

#[test]
fn name_with_dash_and_underscore_is_valid() {
    assert!(package("foo-bar_2", "1.0", &[]).is_valid());
}

#[test]
fn name_with_leading_dash_or_underscore_is_invalid() {
    assert!(!package("-foo", "1.0", &[]).is_valid());
    assert!(!package("_foo", "1.0", &[]).is_valid());
}

#[test]
fn empty_or_non_ascii_name_is_invalid() {
    assert!(!package("", "1.0", &[]).is_valid());
    assert!(!package("caf\u{e9}", "1.0", &[]).is_valid());
    assert!(!package("foo.bar", "1.0", &[]).is_valid());
}

#[test]
fn non_numeric_version_is_invalid() {
    assert!(!package("foo", "abc", &[]).is_valid());
    assert!(!package("foo", "", &[]).is_valid());
}

#[test]
fn dotted_triple_version_is_invalid() {
    assert!(!package("foo", "1.2.3", &[]).is_valid());
}

#[test]
fn decimal_version_is_valid() {
    assert!(package("foo", "1.3", &[]).is_valid());
    assert!(package("foo", "2", &[]).is_valid());
}

#[test]
fn float_text_boundaries() {
    for ok in ["1.3", "7", "7.", ".5", "+1", "-0.25", "1e5", "1E-3", "2.5e+10", "inf", "-Infinity", "NaN"] {
        assert!(is_float_text(ok), "{}", ok);
        assert!(ok.parse::<f32>().is_ok(), "{}", ok);
    }
    for bad in ["", ".", "+", "e5", "1e", "1e+", "1..2", "1.2.3", "abc", " 1", "1 ", "infx", "--1", "0x10"] {
        assert!(!is_float_text(bad), "{}", bad);
        assert!(bad.parse::<f32>().is_err(), "{}", bad);
    }
}

#[test]
fn safe_name_is_lower_case() {
    let p = package("WidGet", "1.0", &[]);
    assert_eq!(p.safe_name(), "widget");
    assert_eq!(p.name(), "WidGet");
}

#[test]
fn destination_is_under_pack() {
    assert_eq!(package("Widget", "1.0", &[]).destination(), "./pack/widget");
}

#[test]
fn getters_return_fields() {
    let p = package("w", "1.5", &["a.gd"]);
    assert_eq!(p.version(), "1.5");
    assert_eq!(p.description(), "a package");
    assert_eq!(p.usage(), "use it");
    assert_eq!(p.files(), &vec!["a.gd".to_string()]);
}
