use accelerate::catalog::Motion;
use accelerate::drivers::default::DefaultDriver;
use accelerate::drivers::Driver;

fn get_motions() -> Vec<Motion> {
    (0..8)
        .map(|n: usize| Motion {
            name: "test".to_string(),
            add: "add: ".to_string() + &n.to_string(),
            sub: "sub: ".to_string() + &n.to_string(),
            version: vec![n, n + 1, n + 2],
            extension: String::from(""),
        })
        .collect()
}

fn get_driver() -> DefaultDriver {
    DefaultDriver::new("Test Driver".to_string())
}

#[test]
fn driver_up() {
    let mut driver = get_driver();
    let mots = get_motions();
    let _ = driver.up(&mots);
    assert_eq!(mots.len() as isize, driver.get_status().unwrap());
}

#[test]
fn driver_down() {
    let mut driver = get_driver();
    let _ = driver.down(&get_motions());
    assert_eq!(0, driver.get_status().unwrap());
}

#[test]
fn driver_down_up() {
    let mut driver = get_driver();
    let mots = get_motions();
    let _ = driver.down(&mots);
    let _ = driver.up(&mots);
    assert_eq!(mots.len() as isize, driver.get_status().unwrap());
}

#[test]
fn driver_up_down() {
    let mut driver = get_driver();
    let mots = get_motions();
    let _ = driver.up(&mots);
    let _ = driver.down(&mots);
    assert_eq!(0, driver.get_status().unwrap());
}

#[test]
fn driver_redo() {
    let mut driver = get_driver();
    let _ = driver.redo(&get_motions());
    // A sub at zero does nothing, then one add moves the status to one.
    assert_eq!(1, driver.get_status().unwrap());
}

#[test]
fn driver_shift2_redo() {
    let mut driver = get_driver();
    let mots = get_motions();
    let _ = driver.shift(&mots, 2);
    let _ = driver.redo(&mots);
    assert_eq!(2, driver.get_status().unwrap());
}

#[test]
fn driver_shift() {
    let mut driver = get_driver();
    let _ = driver.shift(&get_motions(), 0);
    assert_eq!(0, driver.get_status().unwrap());
}

#[test]
fn driver_shift_n4() {
    let mut driver = get_driver();
    let _ = driver.shift(&get_motions(), -4);
    assert_eq!(0, driver.get_status().unwrap());
}

#[test]
fn driver_shift_3() {
    let mut driver = get_driver();
    let _ = driver.shift(&get_motions(), 3);
    assert_eq!(3, driver.get_status().unwrap());
}

#[test]
fn driver_shift_max_p2() {
    let mut driver = get_driver();
    let mots = get_motions();
    let _ = driver.shift(&mots, (mots.len() + 2) as isize);
    assert_eq!(mots.len() as isize, driver.get_status().unwrap());
}

#[test]
fn driver_goto() {
    let mut driver = get_driver();
    let _ = driver.goto(&get_motions(), 0);
    assert_eq!(0, driver.get_status().unwrap());
}

#[test]
fn driver_goto_n5() {
    let mut driver = get_driver();
    let _ = driver.goto(&get_motions(), -5);
    assert_eq!(0, driver.get_status().unwrap());
}

#[test]
fn driver_goto_max_p2() {
    let mut driver = get_driver();
    let mots = get_motions();
    let _ = driver.goto(&mots, (mots.len() + 2) as isize);
    assert_eq!(mots.len() as isize, driver.get_status().unwrap());
}

#[test]
fn driver_goto_3() {
    let mut driver = get_driver();
    let _ = driver.goto(&get_motions(), 3);
    assert_eq!(3, driver.get_status().unwrap());
}

#[test]
fn driver_goto_6_n1() {
    let mut driver = get_driver();
    let mots = get_motions();
    let _ = driver.goto(&mots, 6);
    let _ = driver.goto(&mots, -1);
    assert_eq!(0, driver.get_status().unwrap());
}

#[test]
fn driver_goto_2_reset() {
    let mut driver = get_driver();
    let mots = get_motions();
    let _ = driver.goto(&mots, 2);
    let _ = driver.reset(&mots);
    assert_eq!(2, driver.get_status().unwrap());
}

#[test]
fn driver_goto_max_p2_reset() {
    let mut driver = get_driver();
    let mots = get_motions();
    let _ = driver.goto(&mots, (mots.len() + 2) as isize);
    let _ = driver.reset(&mots);
    assert_eq!(mots.len() as isize, driver.get_status().unwrap());
}

#[test]
fn driver_reset() {
    let mut driver = get_driver();
    let _ = driver.reset(&get_motions());
    assert_eq!(0, driver.get_status().unwrap());
}
