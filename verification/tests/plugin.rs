use wpdiff::plugin::{
    discover_plugin, find_plugins_dir, parse_plugin_header, resolve_plugin_path, PhpFile,
};

#[test]
fn parse_header_full() {
    let meta = parse_plugin_header(
        "/srv/site/my-plugin/my-plugin.php",
        "/srv/site/my-plugin",
        "<?php\n/*\nPlugin Name: My Plugin\nVersion: 2.1.0\nText Domain: my-plugin\n*/\n",
    )
    .unwrap();
    assert_eq!(meta.name, "My Plugin");
    assert_eq!(meta.version, "2.1.0");
    assert_eq!(meta.text_domain, "my-plugin");
    assert_eq!(meta.slug, "my-plugin");
}

#[test]
fn parse_header_minimal() {
    let meta = parse_plugin_header("/srv/site/test/test.php", "/srv/site/test", "<?php\n/*\nPlugin Name: Test\n*/\n")
        .unwrap();
    assert_eq!(meta.name, "Test");
    assert_eq!(meta.version, "");
}

#[test]
fn parse_header_no_header() {
    assert!(parse_plugin_header("/srv/site/nope/nope.php", "/srv/site/nope", "<?php\necho 'hello';\n").is_none());
}

#[test]
fn parse_header_with_stars() {
    let meta = parse_plugin_header(
        "/srv/site/starred/starred.php",
        "/srv/site/starred",
        "<?php\n/**\n * Plugin Name: Starred Plugin\n * Version: 1.0\n */\n",
    )
    .unwrap();
    assert_eq!(meta.name, "Starred Plugin");
    assert_eq!(meta.version, "1.0");
}

#[test]
fn discover_finds_plugin() {
    let files = vec![
        PhpFile {
            path: "/srv/site/akismet/akismet.php".to_string(),
            content: "<?php\n/*\nPlugin Name: Akismet\nVersion: 5.0\n*/\n".to_string(),
        },
        PhpFile {
            path: "/srv/site/akismet/helper.php".to_string(),
            content: "<?php\nfunction helper() {}\n".to_string(),
        },
    ];
    let meta = discover_plugin("/srv/site/akismet", &files).unwrap();
    assert_eq!(meta.slug, "akismet");
    assert_eq!(meta.version, "5.0");
}

#[test]
fn discover_no_plugin_header() {
    let files = vec![PhpFile {
        path: "/srv/site/empty/index.php".to_string(),
        content: "<?php\n".to_string(),
    }];
    assert!(discover_plugin("/srv/site/empty", &files).is_err());
}

#[test]
fn resolve_absolute_path() {
    let plugin_dir = "/srv/tmp/test-plugin";
    let ancestors = vec!["/home/user".to_string(), "/home".to_string(), "/".to_string()];
    let resolved = resolve_plugin_path(plugin_dir, "/home/user", &ancestors, &vec![true]).unwrap();
    assert_eq!(resolved, plugin_dir);
}

#[test]
fn resolve_slug_with_base_dir() {
    let ancestors = vec!["/srv/tmp".to_string(), "/srv".to_string(), "/".to_string()];
    let resolved = resolve_plugin_path("akismet", "/srv/tmp", &ancestors, &vec![false, true]).unwrap();
    assert_eq!(resolved, "/srv/tmp/wp-content/plugins/akismet");
}

#[test]
fn resolve_not_found() {
    let ancestors = vec!["/srv/tmp".to_string(), "/srv".to_string(), "/".to_string()];
    assert!(resolve_plugin_path("nonexistent", "/srv/tmp", &ancestors, &vec![false; 4]).is_err());
}

#[test]
fn find_plugins_dir_standard() {
    let found = find_plugins_dir("/srv/tmp", &vec![true, false, true]).unwrap();
    assert_eq!(found, "/srv/tmp/wp-content/plugins");
}

#[test]
fn find_plugins_dir_not_found() {
    assert!(find_plugins_dir("/srv/tmp/does-not-exist", &vec![false, false, false]).is_err());
}
