use accelerate::motion::{discover, Motion, Motions, Template};

fn pb(path: &str) -> String {
    path.to_string()
}

fn paths(entries: &[&str]) -> Vec<String> {
    entries.iter().map(|p| p.to_string()).collect()
}

fn basic_paths() -> Vec<String> {
    paths(&[
        "tests/fixtures/basic/123456-foo.add",
        "tests/fixtures/basic/123456-foo.sub",
        "tests/fixtures/basic/234567-bar.add",
        "tests/fixtures/basic/234567-bar.sub",
        "tests/fixtures/basic/template.add",
        "tests/fixtures/basic/template.sub",
    ])
}

fn nested_paths() -> Vec<String> {
    paths(&[
        "tests/fixtures/nested/234567-bar.add",
        "tests/fixtures/nested/234567-bar.sub",
        "tests/fixtures/nested/a/345678-baz.add",
        "tests/fixtures/nested/a/345678-baz.sub",
        "tests/fixtures/nested/b/123456-foo.add",
        "tests/fixtures/nested/b/123456-foo.sub",
        "tests/fixtures/nested/b/c/456789-qux.add",
        "tests/fixtures/nested/b/c/456789-qux.sub",
        "tests/fixtures/nested/template.add",
        "tests/fixtures/nested/template.sub",
    ])
}

fn extension_paths() -> Vec<String> {
    paths(&[
        "tests/fixtures/extension/123456-foo.add.sql",
        "tests/fixtures/extension/123456-foo.sub.sql",
        "tests/fixtures/extension/234567-bar.add.sql",
        "tests/fixtures/extension/234567-bar.sub.sql",
        "tests/fixtures/extension/template.add.sql",
        "tests/fixtures/extension/template.sub.sql",
    ])
}

#[test]
fn test_basic() {
    assert_eq!(
        discover(&basic_paths()).unwrap(),
        Motions {
            template: Template {
                extension: "".to_string(),
                add_path: pb("tests/fixtures/basic/template.add"),
                sub_path: pb("tests/fixtures/basic/template.sub"),
            },
            motions: vec![
                Motion {
                    add_path: pb("tests/fixtures/basic/123456-foo.add"),
                    sub_path: pb("tests/fixtures/basic/123456-foo.sub"),
                },
                Motion {
                    add_path: pb("tests/fixtures/basic/234567-bar.add"),
                    sub_path: pb("tests/fixtures/basic/234567-bar.sub"),
                },
            ],
        }
    );
}

#[test]
fn test_nested() {
    assert_eq!(
        discover(&nested_paths()).unwrap(),
        Motions {
            template: Template {
                extension: "".to_string(),
                add_path: pb("tests/fixtures/nested/template.add"),
                sub_path: pb("tests/fixtures/nested/template.sub"),
            },
            motions: vec![
                Motion {
                    add_path: pb("tests/fixtures/nested/b/123456-foo.add"),
                    sub_path: pb("tests/fixtures/nested/b/123456-foo.sub"),
                },
                Motion {
                    add_path: pb("tests/fixtures/nested/234567-bar.add"),
                    sub_path: pb("tests/fixtures/nested/234567-bar.sub"),
                },
                Motion {
                    add_path: pb("tests/fixtures/nested/a/345678-baz.add"),
                    sub_path: pb("tests/fixtures/nested/a/345678-baz.sub"),
                },
                Motion {
                    add_path: pb("tests/fixtures/nested/b/c/456789-qux.add"),
                    sub_path: pb("tests/fixtures/nested/b/c/456789-qux.sub"),
                },
            ],
        }
    );
}

#[test]
fn test_extension() {
    assert_eq!(
        discover(&extension_paths()).unwrap(),
        Motions {
            template: Template {
                extension: ".sql".to_string(),
                add_path: pb("tests/fixtures/extension/template.add.sql"),
                sub_path: pb("tests/fixtures/extension/template.sub.sql"),
            },
            motions: vec![
                Motion {
                    add_path: pb("tests/fixtures/extension/123456-foo.add.sql"),
                    sub_path: pb("tests/fixtures/extension/123456-foo.sub.sql"),
                },
                Motion {
                    add_path: pb("tests/fixtures/extension/234567-bar.add.sql"),
                    sub_path: pb("tests/fixtures/extension/234567-bar.sub.sql"),
                },
            ],
        }
    );
}

#[test]
fn test_bad_templateless() {
    let listing = paths(&[
        "tests/fixtures/bad/templateless/123456-foo.add",
        "tests/fixtures/bad/templateless/123456-foo.sub",
    ]);
    assert!(discover(&listing).is_err());
}

#[test]
fn motion_test_bad_names() {
    let listing = paths(&[
        "tests/fixtures/bad/names/123456-foo.add",
        "tests/fixtures/bad/names/template.add",
        "tests/fixtures/bad/names/template.sub",
    ]);
    assert!(discover(&listing).is_err());
}

#[test]
fn test_mismatched_template_extensions() {
    let listing = paths(&[
        "tests/fixtures/odd/template.add.sql",
        "tests/fixtures/odd/template.sub.txt",
    ]);
    assert!(discover(&listing).is_err());
}
