use accelerate::catalog::template::{Op, Template};
use accelerate::catalog::{
    disambiguate, discover, pad_number, version_from_string, version_to_string, DirFile,
};
use accelerate::Operation;

fn cookie() -> Template {
    let names = vec![
        "x.x.xx-template.add.sql".to_string(),
        "x.x.xx-template.sub.sql".to_string(),
    ];
    Template::get(&names, "create table t ()\n".to_string(), "drop table t\n".to_string())
        .unwrap()
}

#[test]
fn test_template_get_parses_the_pair() {
    let tmp = cookie();
    assert_eq!(tmp.add_name, "x.x.xx-template.add.sql".to_string());
    assert_eq!(tmp.sub_name, "x.x.xx-template.sub.sql".to_string());
    assert_eq!(tmp.version, vec![1, 1, 2]);
    assert_eq!(tmp.separator, "-".to_string());
    assert_eq!(tmp.extension, ".sql".to_string());
    assert_eq!(tmp.add, "create table t ()\n".to_string());
    assert_eq!(tmp.sub, "drop table t\n".to_string());
}

#[test]
fn test_template_get_takes_first_pair() {
    let names = vec![
        "readme.txt".to_string(),
        "xxx_template.add".to_string(),
        "xxx_template.sub".to_string(),
        "x.x-template.add".to_string(),
    ];
    let tmp = Template::get(&names, String::new(), String::new()).unwrap();
    assert_eq!(tmp.add_name, "xxx_template.add".to_string());
    assert_eq!(tmp.version, vec![3]);
    assert_eq!(tmp.separator, "_".to_string());
    assert_eq!(tmp.extension, "".to_string());
}

#[test]
fn test_template_get_rejects_unequal_pair() {
    let names = vec![
        "x.x-template.add.sql".to_string(),
        "xxx-template.sub.sql".to_string(),
    ];
    assert!(Template::get(&names, String::new(), String::new()).is_err());
}

#[test]
fn test_template_get_rejects_missing_sub() {
    let names = vec!["x.x-template.add.sql".to_string()];
    assert!(Template::get(&names, String::new(), String::new()).is_err());
}

#[test]
fn test_get_op() {
    let tmp = cookie();
    assert_eq!(tmp.get_op(&"0.1.02-hello-world.add.sql".to_string()), Op::Add);
    assert_eq!(tmp.get_op(&"0.1.02-hello-world.sub.sql".to_string()), Op::Sub);
}

#[test]
fn test_get_name() {
    let tmp = cookie();
    assert_eq!(
        tmp.get_name(&"0.1.02-hello-world.add.sql".to_string()),
        "hello-world".to_string()
    );
}

#[test]
fn test_version_from_string() {
    let tmp = cookie();
    assert_eq!(
        version_from_string(&tmp, &"0.1.02-hello-world.add.sql".to_string()),
        vec![0, 1, 2]
    );
    assert_eq!(
        version_from_string(&tmp, &"9.8.76-x.sub.sql".to_string()),
        vec![9, 8, 76]
    );
}

#[test]
fn test_disambiguate() {
    let tmp = cookie();
    assert_eq!(
        disambiguate(&tmp, &"0.1.02-hello-world.add.sql".to_string()),
        "0.1.02,hello-world".to_string()
    );
    assert_eq!(
        disambiguate(&tmp, &"0.1.02-hello-world.sub.sql".to_string()),
        "0.1.02,hello-world".to_string()
    );
}

#[test]
fn test_pad_number() {
    assert_eq!(pad_number(7, 3), "007".to_string());
    assert_eq!(pad_number(42, 2), "42".to_string());
    assert_eq!(pad_number(0, 1), "0".to_string());
}

#[test]
fn test_version_to_string() {
    assert_eq!(version_to_string(&vec![0, 1, 2], &vec![1, 1, 2]), "0.1.02".to_string());
    assert_eq!(version_to_string(&vec![3], &vec![3]), "003".to_string());
}

#[test]
fn test_discover_pairs_and_hydrates() {
    let tmp = cookie();
    let files = vec![
        DirFile { dir: "m".to_string(), name: "0.0.02-bar.add.sql".to_string() },
        DirFile { dir: "m".to_string(), name: "0.0.01-foo.sub.sql".to_string() },
        DirFile { dir: "m".to_string(), name: "x.x.xx-template.add.sql".to_string() },
        DirFile { dir: "m".to_string(), name: "0.0.01-foo.add.sql".to_string() },
        DirFile { dir: "m".to_string(), name: "0.0.02-bar.sub.sql".to_string() },
    ];
    let bodies = vec![
        "bar up\n".to_string(),
        "foo down\n".to_string(),
        "template body\n".to_string(),
        "foo up\n".to_string(),
        "bar down\n".to_string(),
    ];
    let motions = discover(&tmp, &files, &bodies).unwrap();
    assert_eq!(motions.len(), 2);
    assert_eq!(motions[0].name, "foo".to_string());
    assert_eq!(motions[0].version, vec![0, 0, 1]);
    assert_eq!(motions[0].extension, ".sql".to_string());
    assert_eq!(motions[0].add, "foo up\n".to_string());
    assert_eq!(motions[0].sub, "foo down\n".to_string());
    assert_eq!(motions[1].name, "bar".to_string());
    assert_eq!(motions[1].version, vec![0, 0, 2]);
    assert_eq!(motions[1].add, "bar up\n".to_string());
    assert_eq!(motions[1].sub, "bar down\n".to_string());
}

#[test]
fn test_discover_errs_on_unpaired_add() {
    let tmp = cookie();
    let files = vec![
        DirFile { dir: "m".to_string(), name: "0.0.01-foo.add.sql".to_string() },
    ];
    let bodies = vec!["foo up\n".to_string()];
    assert!(discover(&tmp, &files, &bodies).is_err());
}

#[test]
fn test_discover_drops_a_disagreeing_pair() {
    let tmp = cookie();
    let files = vec![
        DirFile { dir: "m".to_string(), name: "0.0.01-foo.add.sql".to_string() },
        DirFile { dir: "m".to_string(), name: "0.0.09-other.sub.sql".to_string() },
    ];
    let bodies = vec!["foo up\n".to_string(), "other down\n".to_string()];
    let motions = discover(&tmp, &files, &bodies).unwrap();
    assert_eq!(motions.len(), 0);
}

#[test]
fn test_operation_get() {
    assert_eq!(Operation::get(0, 5), Operation::Sub);
    assert_eq!(Operation::get(5, 0), Operation::Add);
    assert_eq!(Operation::get(3, 3), Operation::Add);
    assert_eq!(Operation::add(), 1);
    assert_eq!(Operation::sub(), -1);
}
