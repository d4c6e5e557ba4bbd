use foc_algorithm::Binary32;
use foc_algorithm::PI;
use foc_algorithm::six_step_from_angle;
use foc_algorithm::six_step_from_sector;

fn b(x: f32) -> Binary32 {
    Binary32::from_bits(x.to_bits())
}

#[test]
fn every_sector_drives_two_phases_and_repeats() {
    for sector in -20..=20 {
        let out = six_step_from_sector(sector);
        let phases = [out.phase_a, out.phase_b, out.phase_c];
        assert!((1..=6).contains(&out.sector));
        assert_eq!(phases.iter().sum::<i32>(), 0);
        assert_eq!(phases.iter().filter(|p| **p == 0).count(), 1);
        assert_eq!(out, six_step_from_sector(sector + 6));
        let opposite = six_step_from_sector(sector + 3);
        assert_eq!([opposite.phase_a, opposite.phase_b, opposite.phase_c], phases.map(|p| -p));
        let next = six_step_from_sector(sector + 1);
        let kept = [next.phase_a, next.phase_b, next.phase_c];
        assert_eq!((0..3).filter(|i| kept[*i] == phases[*i]).count(), 1);
    }
}

#[test]
fn sector_numbers_count_around_the_revolution() {
    assert_eq!(six_step_from_sector(7), six_step_from_sector(1));
    assert_eq!(six_step_from_sector(0).sector, 6);
    assert_eq!(six_step_from_sector(-1).sector, 5);
    assert_eq!(six_step_from_sector(i32::MAX).sector, 1);
    assert_eq!(six_step_from_sector(i32::MIN).sector, 4);
}

#[test]
fn angles_count_sixths_of_a_revolution() {
    let sixth = core::f32::consts::PI / 3.0;
    for i in 0..6 {
        let out = six_step_from_angle(b((i as f32 + 0.5) * sixth));
        assert_eq!(out.sector, i + 1);
        assert_eq!(out, six_step_from_sector(i + 1));
    }
    assert_eq!(six_step_from_angle(b(-0.1)).sector, 6);
    assert_eq!(six_step_from_angle(b(-1.0e-9)).sector, 1);
    assert_eq!(six_step_from_angle(b(f32::NAN)).sector, 1);
}

#[test]
fn angles_lie_between_the_bounds_of_their_sector() {
    let sixth = core::f64::consts::PI / 3.0;
    for i in 0..6000 {
        let angle = i as f32 * core::f32::consts::TAU / 6000.0;
        let sector = six_step_from_angle(b(angle)).sector as f64;
        assert!(angle as f64 >= (sector - 1.0) * sixth - 1.0e-6, "{angle}");
        assert!((angle as f64) < sector * sixth + 1.0e-6, "{angle}");
    }
}
