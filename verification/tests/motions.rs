use accelerate::motions::{find, find_template, Motion, Template};

fn pb(path: &str) -> String {
    path.to_string()
}

fn paths(entries: &[&str]) -> Vec<String> {
    entries.iter().map(|p| p.to_string()).collect()
}

fn basic_paths() -> Vec<String> {
    paths(&[
        "tests/fixtures/basic/123456-foo.add",
        "tests/fixtures/basic/123456-foo.sub",
        "tests/fixtures/basic/234567-bar.add",
        "tests/fixtures/basic/234567-bar.sub",
        "tests/fixtures/basic/template.add",
        "tests/fixtures/basic/template.sub",
    ])
}

fn nested_paths() -> Vec<String> {
    paths(&[
        "tests/fixtures/nested/234567-bar.add",
        "tests/fixtures/nested/234567-bar.sub",
        "tests/fixtures/nested/a/345678-baz.add",
        "tests/fixtures/nested/a/345678-baz.sub",
        "tests/fixtures/nested/b/123456-foo.add",
        "tests/fixtures/nested/b/123456-foo.sub",
        "tests/fixtures/nested/b/c/456789-qux.add",
        "tests/fixtures/nested/b/c/456789-qux.sub",
        "tests/fixtures/nested/template.add",
        "tests/fixtures/nested/template.sub",
    ])
}

fn extension_paths() -> Vec<String> {
    paths(&[
        "tests/fixtures/extension/123456-foo.add.sql",
        "tests/fixtures/extension/123456-foo.sub.sql",
        "tests/fixtures/extension/234567-bar.add.sql",
        "tests/fixtures/extension/234567-bar.sub.sql",
        "tests/fixtures/extension/template.add.sql",
        "tests/fixtures/extension/template.sub.sql",
    ])
}

#[test]
fn test_fixtures_basic() {
    assert_eq!(
        find("tests/fixtures/basic", &basic_paths()).unwrap(),
        vec![
            Motion {
                name: "123456-foo".to_string(),
                add_path: pb("tests/fixtures/basic/123456-foo.add"),
                sub_path: pb("tests/fixtures/basic/123456-foo.sub"),
            },
            Motion {
                name: "234567-bar".to_string(),
                add_path: pb("tests/fixtures/basic/234567-bar.add"),
                sub_path: pb("tests/fixtures/basic/234567-bar.sub"),
            },
        ]
    );
}

#[test]
fn test_template_basic() {
    assert_eq!(
        find_template("tests/fixtures/basic", &basic_paths()).unwrap(),
        Template {
            extension: "".to_string(),
            add_path: pb("tests/fixtures/basic/template.add"),
            sub_path: pb("tests/fixtures/basic/template.sub"),
        }
    );
}

#[test]
fn test_fixtures_nested() {
    assert_eq!(
        find("tests/fixtures/nested", &nested_paths()).unwrap(),
        vec![
            Motion {
                name: "123456-foo".to_string(),
                add_path: pb("tests/fixtures/nested/b/123456-foo.add"),
                sub_path: pb("tests/fixtures/nested/b/123456-foo.sub"),
            },
            Motion {
                name: "234567-bar".to_string(),
                add_path: pb("tests/fixtures/nested/234567-bar.add"),
                sub_path: pb("tests/fixtures/nested/234567-bar.sub"),
            },
            Motion {
                name: "345678-baz".to_string(),
                add_path: pb("tests/fixtures/nested/a/345678-baz.add"),
                sub_path: pb("tests/fixtures/nested/a/345678-baz.sub"),
            },
            Motion {
                name: "456789-qux".to_string(),
                add_path: pb("tests/fixtures/nested/b/c/456789-qux.add"),
                sub_path: pb("tests/fixtures/nested/b/c/456789-qux.sub"),
            },
        ]
    );
}

#[test]
fn test_template_nested() {
    assert_eq!(
        find_template("tests/fixtures/nested", &nested_paths()).unwrap(),
        Template {
            extension: "".to_string(),
            add_path: pb("tests/fixtures/nested/template.add"),
            sub_path: pb("tests/fixtures/nested/template.sub"),
        }
    );
}

#[test]
fn test_fixtures_extension() {
    assert_eq!(
        find("tests/fixtures/extension", &extension_paths()).unwrap(),
        vec![
            Motion {
                name: "123456-foo".to_string(),
                add_path: pb("tests/fixtures/extension/123456-foo.add.sql"),
                sub_path: pb("tests/fixtures/extension/123456-foo.sub.sql"),
            },
            Motion {
                name: "234567-bar".to_string(),
                add_path: pb("tests/fixtures/extension/234567-bar.add.sql"),
                sub_path: pb("tests/fixtures/extension/234567-bar.sub.sql"),
            },
        ]
    );
}

#[test]
fn test_template_extension() {
    assert_eq!(
        find_template("tests/fixtures/extension", &extension_paths()).unwrap(),
        Template {
            extension: ".sql".to_string(),
            add_path: pb("tests/fixtures/extension/template.add.sql"),
            sub_path: pb("tests/fixtures/extension/template.sub.sql"),
        }
    );
}

#[test]
fn test_fixtures_bad_templateless() {
    let listing = paths(&[
        "tests/fixtures/bad/templateless/123456-foo.add",
        "tests/fixtures/bad/templateless/123456-foo.sub",
    ]);
    assert!(find("tests/fixtures/bad/templateless", &listing).is_err());
}

#[test]
fn motions_test_bad_names() {
    let listing = paths(&[
        "tests/fixtures/bad/names/123456-foo.add",
        "tests/fixtures/bad/names/template.add",
        "tests/fixtures/bad/names/template.sub",
    ]);
    assert!(find("tests/fixtures/bad/names", &listing).is_err());
}

#[test]
fn test_template_must_be_direct_child() {
    // The template search only looks directly inside the directory.
    let listing = paths(&[
        "tests/fixtures/deep/sub/template.add",
        "tests/fixtures/deep/sub/template.sub",
    ]);
    assert!(find_template("tests/fixtures/deep", &listing).is_err());
}
