use rsnowboy::frontend::AgcState;

#[test]
fn the_processor_starts_at_unit_gain_without_noise() {
    let state = AgcState::initial();
    assert_eq!(state, AgcState { envelope: 16384, noise: 0 });
    assert_eq!(state.gain(), 256);
}

#[test]
fn the_envelope_falls_by_an_eighth_and_rises_at_once() {
    let state = AgcState::initial();
    assert_eq!(state.next(8192), AgcState { envelope: 15360, noise: 1 });
    assert_eq!(state.next(0), AgcState { envelope: 14336, noise: 1 });
    assert_eq!(state.next(16384), AgcState { envelope: 16384, noise: 1 });
    assert_eq!(state.next(32768), AgcState { envelope: 32768, noise: 1 });
    let low = AgcState { envelope: 10, noise: 0 };
    assert_eq!(low.next(9), AgcState { envelope: 9, noise: 1 });
    assert_eq!(low.next(3), AgcState { envelope: 9, noise: 1 });
}

#[test]
fn the_noise_floor_drops_at_once_and_creeps_up() {
    let state = AgcState { envelope: 16384, noise: 500 };
    assert_eq!(state.next(100).noise, 100);
    assert_eq!(state.next(500).noise, 501);
    assert_eq!(state.next(9000).noise, 501);
    let capped = AgcState { envelope: 16384, noise: 1024 };
    assert_eq!(capped.next(5000).noise, 1024);
    assert_eq!(capped.next(1023).noise, 1023);
}

#[test]
fn the_gain_steers_the_envelope_to_the_target() {
    assert_eq!(AgcState { envelope: 16384, noise: 0 }.gain(), 256);
    assert_eq!(AgcState { envelope: 15360, noise: 0 }.gain(), 273);
    assert_eq!(AgcState { envelope: 32768, noise: 0 }.gain(), 128);
    assert_eq!(AgcState { envelope: 8192, noise: 0 }.gain(), 512);
    assert_eq!(AgcState { envelope: 2048, noise: 0 }.gain(), 2048);
}

#[test]
fn the_gain_is_limited() {
    assert_eq!(AgcState { envelope: 2047, noise: 0 }.gain(), 2048);
    assert_eq!(AgcState { envelope: 10, noise: 0 }.gain(), 2048);
    assert_eq!(AgcState { envelope: 1, noise: 0 }.gain(), 2048);
    assert_eq!(AgcState { envelope: 0, noise: 0 }.gain(), 2048);
}

#[test]
fn samples_lose_the_noise_floor_and_take_the_gain() {
    let mut state = AgcState { envelope: 15360, noise: 0 };
    assert_eq!(state.process(vec![8192, -8192, 1, -1, 2, 0]), vec![9246, -9246, 0, 0, 1, 0]);
    assert_eq!(state, AgcState { envelope: 14464, noise: 1 });
}

#[test]
fn conditioned_samples_stay_in_range() {
    let mut loud = AgcState { envelope: 2048, noise: 0 };
    assert_eq!(loud.process(vec![2048, 0, 0]), vec![16376, 0, 0]);
    let mut quiet = AgcState { envelope: 100, noise: 0 };
    assert_eq!(quiet.process(vec![100, -100, 50]), vec![792, -792, 392]);
    let mut full = AgcState { envelope: 32768, noise: 1024 };
    assert_eq!(full.process(vec![32767, -32768, 1025]), vec![15871, -15872, 0]);
}

#[test]
fn a_frame_is_conditioned_by_the_state_it_brings_about() {
    let mut state = AgcState::initial();
    let out = state.process(vec![8192, -8192, 1, 0]);
    assert_eq!(state, AgcState { envelope: 15360, noise: 1 });
    assert_eq!(out, vec![8734, -8734, 0, 0]);
    let out = state.process(vec![0, 0, 0, 0]);
    assert_eq!(state, AgcState { envelope: 13440, noise: 0 });
    assert_eq!(out, vec![0, 0, 0, 0]);
}
