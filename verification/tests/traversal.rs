use accelerate::accelerator;
use accelerate::catalog::Motion;
use accelerate::drivers::default::DefaultDriver as Test;
use accelerate::drivers::Driver;

fn test_motion(n: usize) -> Motion {
    Motion {
        name: "test".to_string(),
        add: "add: ".to_string() + &n.to_string(),
        sub: "sub: ".to_string() + &n.to_string(),
        version: vec![n, n + 1, n + 2],
        extension: String::from(""),
    }
}

fn get_motions() -> Vec<Motion> {
    (0..8).map(test_motion).collect()
}

fn get_driver() -> Test {
    Test::new("Test Driver".to_string())
}

#[test]
fn accelerator_up() {
    let mut drv = get_driver();
    let mots = get_motions();
    let _ = accelerator::up(&mut drv, &mots);
    assert_eq!(mots.len() as isize, drv.get_status().unwrap());
}

#[test]
fn accelerator_down() {
    let mut drv = get_driver();
    let _ = accelerator::down(&mut drv, &get_motions());
    assert_eq!(0, drv.get_status().unwrap());
}

#[test]
fn accelerator_down_up() {
    let mut drv = get_driver();
    let mots = get_motions();
    let _ = accelerator::down(&mut drv, &mots);
    let _ = accelerator::up(&mut drv, &mots);
    assert_eq!(mots.len() as isize, drv.get_status().unwrap());
}

#[test]
fn accelerator_up_down() {
    let mut drv = get_driver();
    let mots = get_motions();
    let _ = accelerator::up(&mut drv, &mots);
    let _ = accelerator::down(&mut drv, &mots);
    assert_eq!(0, drv.get_status().unwrap());
}

#[test]
fn accelerator_redo() {
    let mut drv = get_driver();
    let _ = accelerator::redo(&mut drv, &get_motions());
    // A sub at zero does nothing and then one add moves the status to one.
    assert_eq!(1, drv.get_status().unwrap());
}

#[test]
fn accelerator_shift2_redo() {
    let mut drv = get_driver();
    let mots = get_motions();
    let _ = accelerator::shift(&mut drv, &mots, 2);
    let _ = accelerator::redo(&mut drv, &mots);
    assert_eq!(2, drv.get_status().unwrap());
}

#[test]
fn accelerator_shift() {
    let mut drv = get_driver();
    let _ = accelerator::shift(&mut drv, &get_motions(), 0);
    assert_eq!(0, drv.get_status().unwrap());
}

#[test]
fn accelerator_shift_n4() {
    let mut drv = get_driver();
    let _ = accelerator::shift(&mut drv, &get_motions(), -4);
    assert_eq!(0, drv.get_status().unwrap());
}

#[test]
fn accelerator_shift_3() {
    let mut drv = get_driver();
    let _ = accelerator::shift(&mut drv, &get_motions(), 3);
    assert_eq!(3, drv.get_status().unwrap());
}

#[test]
fn accelerator_shift_max_p2() {
    let mut drv = get_driver();
    let mots = get_motions();
    let _ = accelerator::shift(&mut drv, &mots, (mots.len() + 2) as isize);
    assert_eq!(mots.len() as isize, drv.get_status().unwrap());
}

#[test]
fn accelerator_goto() {
    let mut drv = get_driver();
    let _ = accelerator::goto(&mut drv, &get_motions(), 0);
    assert_eq!(0, drv.get_status().unwrap());
}

#[test]
fn accelerator_goto_n5() {
    let mut drv = get_driver();
    let _ = accelerator::goto(&mut drv, &get_motions(), -5);
    assert_eq!(0, drv.get_status().unwrap());
}

#[test]
fn accelerator_goto_max_p2() {
    let mut drv = get_driver();
    let mots = get_motions();
    let _ = accelerator::goto(&mut drv, &mots, (mots.len() + 2) as isize);
    assert_eq!(mots.len() as isize, drv.get_status().unwrap());
}

#[test]
fn accelerator_goto_3() {
    let mut drv = get_driver();
    let _ = accelerator::goto(&mut drv, &get_motions(), 3);
    assert_eq!(3, drv.get_status().unwrap());
}

#[test]
fn accelerator_goto_6_n1() {
    let mut drv = get_driver();
    let mots = get_motions();
    let _ = accelerator::goto(&mut drv, &mots, 6);
    let _ = accelerator::goto(&mut drv, &mots, -1);
    assert_eq!(0, drv.get_status().unwrap());
}

#[test]
fn accelerator_goto_2_reset() {
    let mut drv = get_driver();
    let mots = get_motions();
    let _ = accelerator::goto(&mut drv, &mots, 2);
    let _ = accelerator::reset(&mut drv, &mots);
    assert_eq!(2, drv.get_status().unwrap());
}

#[test]
fn accelerator_goto_max_p2_reset() {
    let mut drv = get_driver();
    let mots = get_motions();
    let _ = accelerator::goto(&mut drv, &mots, (mots.len() + 2) as isize);
    let _ = accelerator::reset(&mut drv, &mots);
    assert_eq!(mots.len() as isize, drv.get_status().unwrap());
}

#[test]
fn accelerator_reset() {
    let mut drv = get_driver();
    let _ = accelerator::reset(&mut drv, &get_motions());
    assert_eq!(0, drv.get_status().unwrap());
}
