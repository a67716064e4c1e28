use nginx_logs::prefix::{normalize_prefix, prefixed_ui_route};

#[test]
fn prefixes_are_normalized() {
    let cases = [
        ("es-proxy", Some("/es-proxy")),
        ("/es-proxy", Some("/es-proxy")),
        ("/es-proxy/", Some("/es-proxy")),
        ("  /es-proxy//  ", Some("/es-proxy")),
        ("a/b/", Some("/a/b")),
        ("//a", Some("//a")),
        ("\u{a0}\u{e9}\u{2003}", Some("/\u{e9}")),
        ("a /", Some("/a ")),
    ];
    for (setting, prefix) in cases {
        assert_eq!(normalize_prefix(setting).as_deref(), prefix, "{:?}", setting);
    }
}

#[test]
fn slashes_alone_are_no_prefix() {
    for setting in ["", " ", "/", "//", " /// ", "\t\n"] {
        assert_eq!(normalize_prefix(setting), None, "{:?}", setting);
    }
}

#[test]
fn a_prefix_stands_for_itself() {
    for setting in ["x", "/x/y/", " //z "] {
        let prefix = normalize_prefix(setting).unwrap();
        assert!(prefix.starts_with('/'));
        assert!(!prefix.ends_with('/'));
        assert_eq!(normalize_prefix(&prefix), Some(prefix));
    }
}

#[test]
fn the_page_has_a_path_below_the_prefix() {
    assert_eq!(prefixed_ui_route("/es-proxy"), "/es-proxy/ui");
}

#[test]
fn the_paths_differ() {
    let prefix = normalize_prefix("metrics/x").unwrap();
    let below = prefixed_ui_route(&prefix);
    let mut paths = vec!["/", "/ui", "/healthz", "/metrics", &prefix, &below];
    paths.sort();
    paths.dedup();
    assert_eq!(paths.len(), 6);
}
