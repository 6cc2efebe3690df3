use hyprgradient::config::{GradientProfile, GradientType, Stop};
use hyprgradient::render::{stop_uniforms, RenderError, MAX_STOPS};
use hyprgradient::wallpaper::{ConfigureAction, Presenter};

fn gradient(n: usize) -> GradientProfile {
    GradientProfile {
        name: "g".to_string(),
        active: true,
        gradient_type: GradientType::Linear,
        direction_bits: 90.0f32.to_bits(),
        stops: (0..n)
            .map(|i| Stop { position: (i * 3) as u8, color: [i as u8, 2 * i as u8, 255] })
            .collect(),
    }
}

#[test]
fn uniforms_are_padded_to_max_stops() {
    let u = stop_uniforms(true, &gradient(2)).unwrap();
    assert_eq!(u.gradient_type, 0);
    assert_eq!(u.stop_count, 2);
    assert_eq!(u.positions.len(), MAX_STOPS);
    assert_eq!(u.colors.len(), MAX_STOPS * 3);
    assert_eq!(&u.positions[..3], &[0, 3, 0]);
    assert_eq!(&u.colors[..7], &[0, 0, 255, 1, 2, 255, 0]);
    assert!(u.positions[2..].iter().all(|&p| p == 0));
}

#[test]
fn rendering_needs_initialization_and_few_enough_stops() {
    assert_eq!(stop_uniforms(false, &gradient(40)).err().unwrap(), RenderError::NotInitialized);
    assert_eq!(stop_uniforms(true, &gradient(33)).err().unwrap(), RenderError::TooManyStops { count: 33 });
    assert_eq!(stop_uniforms(true, &gradient(32)).unwrap().stop_count, 32);
}

#[test]
fn gradient_waits_for_outputs() {
    let mut p = Presenter::new();
    assert!(p.set_gradient(gradient(1)).is_none());
    assert!(!p.texture_ready());
    assert!(!p.has_output(7));
    p.insert_output(7, 70);
    assert!(p.has_output(7));
    assert!(matches!(p.configure(99, 10, 10), ConfigureAction::Ignore));
    assert!(matches!(p.configure(70, 0, 0), ConfigureAction::Resize(_)));
    match p.configure(70, 1920, 1080) {
        ConfigureAction::Render(t, pass) => {
            assert_eq!((t.output, t.width, t.height), (7, 1920, 1080));
            assert_eq!(pass.current, 7);
            assert_eq!(pass.draws.len(), 1);
            assert_eq!(pass.draws[0].width, 1920);
        }
        other => panic!("unexpected {other:?}"),
    }
    assert!(p.texture_ready());
    assert!(matches!(p.configure(70, 800, 600), ConfigureAction::Draw(t) if t.width == 800));
}

#[test]
fn configure_without_gradient_only_resizes() {
    let mut p = Presenter::new();
    p.insert_output(1, 10);
    match p.configure(10, 100, 100) {
        ConfigureAction::Resize(t) => assert_eq!((t.output, t.width), (1, 100)),
        other => panic!("unexpected {other:?}"),
    }
    assert!(!p.texture_ready());
}

#[test]
fn set_gradient_draws_every_sized_output_once() {
    let mut p = Presenter::new();
    p.insert_output(1, 10);
    p.insert_output(2, 20);
    p.insert_output(3, 30);
    p.configure(10, 100, 50);
    p.configure(30, 300, 150);
    let pass = p.set_gradient(gradient(2)).unwrap();
    assert_eq!(pass.current, 1);
    let drawn: Vec<u64> = pass.draws.iter().map(|d| d.output).collect();
    assert_eq!(drawn, vec![1, 3]);
    assert!(p.texture_ready());
}

#[test]
fn outputs_come_and_go() {
    let mut p = Presenter::new();
    p.insert_output(1, 10);
    p.insert_output(2, 20);
    assert!(!p.remove_output(5));
    assert!(p.remove_output(1));
    assert_eq!(p.output_count(), 1);
    assert_eq!(p.close_layer(10), None);
    assert_eq!(p.close_layer(20), Some(2));
    assert_eq!(p.output_count(), 0);
}
