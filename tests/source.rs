use gdpack::errors::Error;
use gdpack::source::{check_status, default_host_name, manifest_file_name, reference_lines, resolve, RootPath};

fn remote(r: Option<Result<RootPath, Error>>) -> String {
    match r {
        Some(Ok(RootPath::Remote(u))) => u,
        other => panic!("not a remote origin: {:?}", other),
    }
}

#[test]
fn shorthand_expands_to_raw_content_url() {
    let host = default_host_name();
    let url = remote(resolve("myorg/myrepo", &host));
    assert_eq!(url, "https://raw.githubusercontent.com/myorg/godot-packages/master/myrepo/");
    let root = RootPath::Remote(url);
    assert_eq!(
        root.location(&manifest_file_name()),
        "https://raw.githubusercontent.com/myorg/godot-packages/master/myrepo/manifest.toml"
    );
}

#[test]
fn shorthand_uses_given_host() {
    let url = remote(resolve("a/b", "example.test"));
    assert_eq!(url, "https://example.test/a/godot-packages/master/b/");
}

#[test]
fn invalid_shorthand_is_reported() {
    for bad in ["single", "a/b/c", "/", "a/", "x//y"] {
        let r = resolve(bad, "h");
        if bad.starts_with('/') {
            assert!(matches!(r, Some(Ok(RootPath::Local(_)))));
        } else {
            assert_eq!(r.unwrap().unwrap_err(), Error::InvalidReference(bad.to_string()));
        }
    }
    assert_eq!(resolve("/a", "h").unwrap().unwrap().base(), "/a");
    assert!(matches!(resolve("a/", "h"), Some(Err(_))));
}

#[test]
fn comments_and_blank_lines_are_skipped() {
    assert!(resolve("", "h").is_none());
    assert!(resolve("# a/b", "h").is_none());
}

#[test]
fn local_path_is_kept_verbatim() {
    match resolve("/tmp/pkgs/widget", "h") {
        Some(Ok(RootPath::Local(p))) => assert_eq!(p, "/tmp/pkgs/widget"),
        other => panic!("{:?}", other),
    }
}

#[test]
fn https_url_gets_a_trailing_slash() {
    assert_eq!(remote(resolve("https://x.org/p", "h")), "https://x.org/p/");
    assert_eq!(remote(resolve("https://x.org/p/", "h")), "https://x.org/p/");
}

#[test]
fn location_joins_root_and_file() {
    let local = RootPath::Local("/tmp/pkgs/widget".to_string());
    assert_eq!(local.location("sub/b.gd"), "/tmp/pkgs/widget/sub/b.gd");
    let remote = RootPath::Remote("https://x.org/p/".to_string());
    assert_eq!(remote.location("a.gd"), "https://x.org/p/a.gd");
}

#[test]
fn status_classification() {
    assert_eq!(check_status(200, "a.gd"), Ok(()));
    assert_eq!(check_status(299, "a.gd"), Ok(()));
    assert_eq!(check_status(404, "a.gd"), Err(Error::FileNotFound("a.gd".to_string())));
    assert_eq!(check_status(500, "a.gd"), Err(Error::InvalidResponse));
    assert_eq!(check_status(301, "a.gd"), Err(Error::InvalidResponse));
    assert_eq!(check_status(199, "a.gd"), Err(Error::InvalidResponse));
}

#[test]
fn requirements_text_is_split_and_trimmed() {
    let lines = reference_lines("  a/b\n# note\n\n  /tmp/x  \nhttps://h/p\n\n");
    assert_eq!(lines, vec!["a/b", "# note", "", "/tmp/x", "https://h/p"]);
    assert_eq!(reference_lines(""), vec![""]);
}
