use foc_algorithm::Binary32;
use foc_algorithm::SixStepOutput;
use foc_algorithm::six_step_from_angle;
use foc_algorithm::six_step_from_sector;

fn b(x: f32) -> Binary32 {
    Binary32::from_bits(x.to_bits())
}

#[test]
fn commutation_matches_c_reference_vectors() {
    assert_eq!(
        six_step_from_sector(1),
        SixStepOutput {
            phase_a: 1,
            phase_b: -1,
            phase_c: 0,
            sector: 1
        }
    );
    assert_eq!(six_step_from_sector(7).sector, 1);
    let out = six_step_from_angle(b(core::f32::consts::PI / 3.0 + 0.01));
    assert_eq!(out.sector, 2);
    assert_eq!(out.phase_c, -1);
}
