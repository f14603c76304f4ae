use gstdots::paths::{
    dot_file_name_for, extension_is, has_dot_suffix, relative_path, resolve_dot_dir,
    should_remove_generated,
};

#[test]
fn dot_suffix() {
    assert!(has_dot_suffix("a.dot"));
    assert!(has_dot_suffix("sub/dir/y.dot"));
    assert!(has_dot_suffix(".dot"));
    assert!(!has_dot_suffix("a.dots"));
    assert!(!has_dot_suffix("a.svg"));
    assert!(!has_dot_suffix("dot"));
    assert!(!has_dot_suffix(""));
    assert!(!has_dot_suffix("a.dot.bak"));
}

#[test]
fn relative_path_strips_root() {
    assert_eq!(
        relative_path("/tmp/dots", "/tmp/dots/p1.dot"),
        Some("p1.dot".to_string())
    );
    assert_eq!(
        relative_path("/tmp/dots", "/tmp/dots/sub/dir/y.dot"),
        Some("sub/dir/y.dot".to_string())
    );
}

#[test]
fn relative_path_outside_root() {
    assert_eq!(relative_path("/tmp/dots", "/tmp/other/p.dot"), None);
    assert_eq!(relative_path("/tmp/dots", "/tmp/dots"), None);
    assert_eq!(relative_path("/tmp/dots", "/tmp/dotsier/p.dot"), None);
    assert_eq!(relative_path("/tmp/dots", "/a"), None);
}

#[test]
fn resolve_prefers_flag_then_env_then_cache() {
    assert_eq!(
        resolve_dot_dir(
            Some("/flag".to_string()),
            Some("/env".to_string()),
            Some("/cache".to_string())
        ),
        Some("/flag".to_string())
    );
    assert_eq!(
        resolve_dot_dir(None, Some("/env".to_string()), Some("/cache".to_string())),
        Some("/env".to_string())
    );
    assert_eq!(
        resolve_dot_dir(None, None, Some("/cache".to_string())),
        Some("/cache/gstreamer-dots".to_string())
    );
    assert_eq!(resolve_dot_dir(None, None, None), None);
}

#[test]
fn generated_artifact_maps_back_to_dot_name() {
    assert_eq!(dot_file_name_for("foo.svg"), "foo.dot");
    assert_eq!(dot_file_name_for("archive.tar.svg"), "archive.tar.dot");
    assert_eq!(dot_file_name_for("noext"), "noext.dot");
    assert_eq!(dot_file_name_for(".bashrc"), ".bashrc.dot");
}

#[test]
fn extension_test() {
    assert!(extension_is("foo.svg", "svg"));
    assert!(extension_is("a.b.html", "html"));
    assert!(!extension_is("foo.svg", "html"));
    assert!(!extension_is("svg", "svg"));
    assert!(!extension_is(".svg", "svg"));
}

#[test]
fn cleanup_decision() {
    assert!(should_remove_generated("foo.svg", "svg", false));
    assert!(!should_remove_generated("foo.svg", "svg", true));
    assert!(!should_remove_generated("foo.png", "svg", false));
}
