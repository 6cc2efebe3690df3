use hyprgradient::config::{
    default_monitor, default_texture_resolution, Config, ConfigError, GradientProfile,
    GradientType, Settings, Stop,
};

fn stop(position: u8, color: [u8; 3]) -> Stop {
    Stop { position, color }
}

fn profile(name: &str, active: bool, direction: f32, stops: Vec<Stop>) -> GradientProfile {
    GradientProfile {
        name: name.to_string(),
        active,
        gradient_type: GradientType::Linear,
        direction_bits: direction.to_bits(),
        stops,
    }
}

fn settings(randomize: bool) -> Settings {
    Settings {
        texture_resolution: 256,
        cycle_interval: 30,
        monitor: "all".to_string(),
        randomize,
        random_direction: false,
    }
}

fn config(gradients: Vec<GradientProfile>) -> Config {
    Config { settings: settings(false), gradients }
}

fn positions(g: &GradientProfile) -> Vec<u8> {
    g.stops.iter().map(|s| s.position).collect()
}

#[test]
fn defaults_match_documented_values() {
    assert_eq!(default_monitor(), "all");
    assert_eq!(default_texture_resolution(), 256);
}

#[test]
fn valid_config_is_accepted() {
    let c = config(vec![profile("dawn", true, 45.0, vec![stop(0, [1, 2, 3]), stop(100, [4, 5, 6])])]);
    assert_eq!(c.validate(), Ok(()));
    assert_eq!(c.cycle_interval(), 30);
    assert_eq!(c.texture_resolution(), 256);
}

#[test]
fn zero_texture_resolution_is_refused_first() {
    let mut c = config(vec![]);
    c.settings.texture_resolution = 0;
    assert_eq!(c.validate(), Err(ConfigError::ZeroTextureResolution));
}

#[test]
fn config_without_gradients_is_refused() {
    assert_eq!(config(vec![]).validate(), Err(ConfigError::NoGradients));
}

#[test]
fn blank_name_is_refused() {
    let c = config(vec![
        profile("ok", true, 0.0, vec![stop(0, [0, 0, 0])]),
        profile(" \t\u{3000}", true, 0.0, vec![stop(0, [0, 0, 0])]),
    ]);
    assert_eq!(c.validate(), Err(ConfigError::EmptyName { index: 1 }));
    let empty = config(vec![profile("", true, 0.0, vec![stop(0, [0, 0, 0])])]);
    assert_eq!(empty.validate(), Err(ConfigError::EmptyName { index: 0 }));
}

#[test]
fn gradient_without_stops_is_refused() {
    let c = config(vec![profile("bare", true, 0.0, vec![])]);
    assert_eq!(c.validate(), Err(ConfigError::NoStops { index: 0 }));
}

#[test]
fn infinite_or_nan_direction_is_refused() {
    for d in [f32::INFINITY, f32::NEG_INFINITY, f32::NAN] {
        let c = config(vec![profile("odd", true, d, vec![stop(0, [0, 0, 0])])]);
        assert_eq!(c.validate(), Err(ConfigError::InvalidDirection { index: 0 }));
    }
    let c = config(vec![profile("big", true, f32::MAX, vec![stop(0, [0, 0, 0])])]);
    assert_eq!(c.validate(), Ok(()));
}

#[test]
fn stop_beyond_hundred_percent_is_refused() {
    let c = config(vec![profile(
        "far",
        true,
        0.0,
        vec![stop(10, [0, 0, 0]), stop(101, [0, 0, 0]), stop(200, [0, 0, 0])],
    )]);
    assert_eq!(c.validate(), Err(ConfigError::InvalidStopPosition { index: 0, position: 101 }));
}

#[test]
fn checks_run_in_order_name_stops_direction_positions() {
    let c = config(vec![profile(" ", true, f32::NAN, vec![])]);
    assert_eq!(c.validate(), Err(ConfigError::EmptyName { index: 0 }));
    let c = config(vec![profile("x", true, f32::NAN, vec![])]);
    assert_eq!(c.validate(), Err(ConfigError::NoStops { index: 0 }));
    let c = config(vec![profile("x", true, f32::NAN, vec![stop(150, [0, 0, 0])])]);
    assert_eq!(c.validate(), Err(ConfigError::InvalidDirection { index: 0 }));
}

#[test]
fn active_gradients_keep_order_and_sort_stops_stably() {
    let c = config(vec![
        profile("a", true, 10.0, vec![stop(50, [1, 0, 0]), stop(0, [2, 0, 0]), stop(50, [3, 0, 0])]),
        profile("b", false, 20.0, vec![stop(0, [0, 0, 0])]),
        profile("c", true, 30.0, vec![stop(100, [9, 9, 9]), stop(20, [8, 8, 8])]),
    ]);
    let pool = c.active_gradients().unwrap();
    assert_eq!(pool.len(), 2);
    assert_eq!(pool[0].name, "a");
    assert_eq!(pool[1].name, "c");
    assert_eq!(positions(&pool[0]), vec![0, 50, 50]);
    let colors: Vec<u8> = pool[0].stops.iter().map(|s| s.color[0]).collect();
    assert_eq!(colors, vec![2, 1, 3]);
    assert_eq!(positions(&pool[1]), vec![20, 100]);
    assert_eq!(pool[1].direction_bits, 30.0f32.to_bits());
}

#[test]
fn no_active_gradient_is_an_error() {
    let c = config(vec![profile("a", false, 0.0, vec![stop(0, [0, 0, 0])])]);
    assert_eq!(c.active_gradients().unwrap_err(), ConfigError::NoActiveGradient);
}

#[test]
fn randomized_pool_is_a_rearrangement() {
    let names: Vec<String> = (0..24).map(|i| format!("g{i}")).collect();
    let gradients = names
        .iter()
        .map(|n| profile(n, true, 0.0, vec![stop(100, [0, 0, 0]), stop(0, [0, 0, 0])]))
        .collect();
    let c = Config { settings: settings(true), gradients };
    let pool = c.active_gradients().unwrap();
    let got: Vec<String> = pool.iter().map(|g| g.name.clone()).collect();
    let mut sorted = got.clone();
    sorted.sort();
    let mut expected = names.clone();
    expected.sort();
    assert_eq!(sorted, expected);
    assert_ne!(got, names);
    for g in &pool {
        assert_eq!(positions(g), vec![0, 100]);
    }
}

#[test]
fn cloned_profile_is_equal_in_content() {
    let g = profile("c", true, 12.5, vec![stop(3, [4, 5, 6])]);
    let h = g.clone();
    assert_eq!(h.name, g.name);
    assert_eq!(h.direction_bits, g.direction_bits);
    assert_eq!(positions(&h), positions(&g));
    assert_eq!(h.stops[0].color, [4, 5, 6]);
}
