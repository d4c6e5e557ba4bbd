//! Motor control algorithms: transforms, modulation, controllers, observers and filters.
//!
//! All numbers are IEEE 754 binary32 values, computed on their encodings (`binary32`), so
//! results are the same bits on every target. Sine, cosine, arctangent, hyperbolic tangent
//! and powers come from the caller, as functions; everything else is done here.
pub mod accuracy;
pub mod adrc;
pub mod adrc_laws;
pub mod advanced_control;
pub mod advanced_control_laws;
pub mod angle;
pub mod arctangent;
pub mod arithmetic;
pub mod binary32;
pub mod bridge_laws;
pub mod commutation;
pub mod controller;
pub mod controller_laws;
pub mod cordic_accuracy;
pub mod equations;
pub mod exact;
pub mod filter;
pub mod filter_laws;
pub mod foc;
pub mod foc_laws;
pub mod fuzzy_mean;
pub mod genetic;
pub mod inverter;
pub mod learning;
pub mod learning_laws;
pub mod limit_laws;
pub mod line_voltage;
pub mod linear_range;
pub mod math;
pub mod modulation;
pub mod near;
pub mod nearest;
pub mod observer;
pub mod real_rounding;
pub mod rest_laws;
pub mod rounded_steps;
pub mod rounding;
pub mod running_error;
pub mod series_accuracy;
pub mod square_root;
pub mod transform;

pub use crate::adrc::AdrcFalParam;
pub use crate::adrc::AdrcFastTdParam;
pub use crate::adrc::AdrcFastTdState;
pub use crate::adrc::AdrcNonlinearParam;
pub use crate::adrc::AdrcParam;
pub use crate::adrc::AdrcState;
pub use crate::adrc::AdrcTuningParam;
pub use crate::adrc::adrc_fal;
pub use crate::adrc::adrc_fal_arguments;
pub use crate::adrc::adrc_fal_from_power;
pub use crate::adrc::tune_adrc_bandwidth;
pub use crate::advanced_control::AdaptiveParam;
pub use crate::advanced_control::AdaptiveState;
pub use crate::advanced_control::BacksteppingParam;
pub use crate::advanced_control::BacksteppingState;
pub use crate::advanced_control::FuzzyParam;
pub use crate::advanced_control::FuzzyState;
pub use crate::advanced_control::HinfParam;
pub use crate::advanced_control::HinfState;
pub use crate::advanced_control::LqrParam;
pub use crate::advanced_control::LqrState;
pub use crate::advanced_control::MpcParam;
pub use crate::advanced_control::MpcState;
pub use crate::advanced_control::MracParam;
pub use crate::advanced_control::MracState;
pub use crate::advanced_control::SmcParam;
pub use crate::advanced_control::SmcState;
pub use crate::angle::CordicOutput;
pub use crate::angle::Rotation;
pub use crate::angle::cordic_atan2;
pub use crate::angle::cordic_gain;
pub use crate::angle::iteration_count;
pub use crate::binary32::Binary32;
pub use crate::commutation::SixStepOutput;
pub use crate::commutation::six_step_from_angle;
pub use crate::commutation::six_step_from_sector;
pub use crate::controller::CascadeInput;
pub use crate::controller::CascadeParam;
pub use crate::controller::CascadeState;
pub use crate::controller::FeedForwardParam;
pub use crate::controller::FeedForwardState;
pub use crate::controller::PParam;
pub use crate::controller::PState;
pub use crate::controller::PdParam;
pub use crate::controller::PdState;
pub use crate::controller::PiParam;
pub use crate::controller::PiState;
pub use crate::controller::PidParam;
pub use crate::controller::PidState;
pub use crate::controller::PositionLoopParam;
pub use crate::controller::PositionLoopState;
pub use crate::controller::SpeedLoopParam;
pub use crate::controller::SpeedLoopState;
pub use crate::filter::DifferentiatorParam;
pub use crate::filter::DifferentiatorState;
pub use crate::filter::HighPassParam;
pub use crate::filter::HighPassState;
pub use crate::filter::LowPassParam;
pub use crate::filter::LowPassState;
pub use crate::foc::FocBasicInput;
pub use crate::foc::FocBasicParam;
pub use crate::foc::FocBasicState;
pub use crate::genetic::GeneticAlgorithmParam;
pub use crate::genetic::GeneticAlgorithmState;
pub use crate::genetic::crossover_mutate;
pub use crate::inverter::InverterLossParameters;
pub use crate::inverter::average_inverter_phase_voltage_loss_v;
pub use crate::inverter::inverter_current_polarity;
pub use crate::inverter::inverter_dead_time_voltage_loss_v;
pub use crate::learning::NeuralNetworkParam;
pub use crate::learning::NeuralNetworkState;
pub use crate::learning::RL_MAX_ACTIONS;
pub use crate::learning::RL_MAX_STATES;
pub use crate::learning::ReinforcementLearningParam;
pub use crate::learning::ReinforcementLearningState;
pub use crate::math::INV_SQRT_3;
pub use crate::math::PI;
pub use crate::math::SQRT_3;
pub use crate::math::TWO_PI;
pub use crate::math::atan2_angle_0_to_2pi;
pub use crate::math::clamp;
pub use crate::math::fast_atan2_angle_0_to_2pi;
pub use crate::math::fast_sin_cos;
pub use crate::math::is_wrappable;
pub use crate::math::saturate;
pub use crate::math::sign;
pub use crate::math::wrap_angle_0_to_2pi;
pub use crate::math::wrap_angle_minus_pi_to_pi;
pub use crate::modulation::DpwmMode;
pub use crate::modulation::DpwmOutput;
pub use crate::modulation::DpwmParam;
pub use crate::modulation::SinePwmOutput;
pub use crate::modulation::SvpwmOutput;
pub use crate::modulation::SvpwmParam;
pub use crate::modulation::dpwm_update;
pub use crate::modulation::sine_pwm_from_sines;
pub use crate::modulation::sine_pwm_update;
pub use crate::modulation::svpwm_update;
pub use crate::observer::AdaptiveSmoInput;
pub use crate::observer::AdaptiveSmoParam;
pub use crate::observer::AdaptiveSmoState;
pub use crate::observer::BemfInput;
pub use crate::observer::BemfIntegralInput;
pub use crate::observer::BemfIntegralParam;
pub use crate::observer::BemfIntegralState;
pub use crate::observer::BemfParam;
pub use crate::observer::BemfPllParam;
pub use crate::observer::BemfPllState;
pub use crate::observer::BemfState;
pub use crate::observer::BemfZeroCrossParam;
pub use crate::observer::BemfZeroCrossState;
pub use crate::observer::EkfFocInput;
pub use crate::observer::EkfFocParam;
pub use crate::observer::EkfFocState;
pub use crate::observer::EkfLinearization;
pub use crate::observer::EkfMeasureFunction;
pub use crate::observer::EkfParam;
pub use crate::observer::EkfState;
pub use crate::observer::EkfStateFunction;
pub use crate::observer::FluxCurrentParam;
pub use crate::observer::FluxCurrentState;
pub use crate::observer::FluxHybridParam;
pub use crate::observer::FluxHybridState;
pub use crate::observer::FluxImprovedInput;
pub use crate::observer::FluxImprovedParam;
pub use crate::observer::FluxImprovedState;
pub use crate::observer::FluxInput;
pub use crate::observer::FluxParam;
pub use crate::observer::FluxSmoParam;
pub use crate::observer::is_joinable;
pub use crate::observer::FluxSmoState;
pub use crate::observer::FluxState;
pub use crate::observer::HfBemfInput;
pub use crate::observer::HfBemfParam;
pub use crate::observer::HfBemfState;
pub use crate::observer::HfInjectionParam;
pub use crate::observer::HfInjectionState;
pub use crate::observer::HigherOrderSmoInput;
pub use crate::observer::HigherOrderSmoParam;
pub use crate::observer::HigherOrderSmoState;
pub use crate::observer::KalmanParam;
pub use crate::observer::KalmanState;
pub use crate::observer::LuenbergerParam;
pub use crate::observer::LuenbergerState;
pub use crate::observer::PllParam;
pub use crate::observer::PllState;
pub use crate::observer::PulseInjectionParam;
pub use crate::observer::PulseInjectionState;
pub use crate::observer::RotatingHfParam;
pub use crate::observer::RotatingHfState;
pub use crate::observer::SmoInput;
pub use crate::observer::SmoParam;
pub use crate::observer::SmoPllParam;
pub use crate::observer::SmoPllState;
pub use crate::observer::SmoState;
pub use crate::observer::SuperTwistingSmoInput;
pub use crate::observer::SuperTwistingSmoParam;
pub use crate::observer::SuperTwistingSmoState;
pub use crate::observer::UkfMeasureFunction;
pub use crate::observer::UkfNoise;
pub use crate::observer::UkfParam;
pub use crate::observer::UkfState;
pub use crate::observer::UkfStateFunction;
pub use crate::observer::speed_weight;
pub use crate::transform::Abc;
pub use crate::transform::AlphaBeta;
pub use crate::transform::Dq;
pub use crate::transform::clarke;
pub use crate::transform::inverse_clarke;
pub use crate::transform::inverse_park;
pub use crate::transform::park;
