use hyprgradient::cli::{parse_word, Cli, CliError, Commands};
use hyprgradient::config::{GradientProfile, GradientType, Stop};
use hyprgradient::cycle::{
    advance_gradient, halt_event, next_event, reload_event, set_current_gradient, Cycle,
    CycleError, Reaction,
};
use hyprgradient::file_watcher::{send_event, FileWatcher};
use std::path::PathBuf;

fn named(name: &str) -> GradientProfile {
    GradientProfile {
        name: name.to_string(),
        active: true,
        gradient_type: GradientType::Linear,
        direction_bits: 0,
        stops: vec![Stop { position: 0, color: [0, 0, 0] }],
    }
}

fn names(n: usize) -> Vec<GradientProfile> {
    (0..n).map(|i| named(&format!("g{i}"))).collect()
}

#[test]
fn words_name_commands() {
    assert!(matches!(parse_word("halt"), Some(Commands::Halt)));
    assert!(matches!(parse_word("next"), Some(Commands::Next)));
    assert!(matches!(parse_word("reload"), Some(Commands::Reload)));
    assert!(parse_word("Halt").is_none());
    assert!(parse_word("load").is_none());
    assert!(parse_word("").is_none());
}

#[test]
fn command_line_is_interpreted() {
    assert!(matches!(Cli::from_arg(None), Ok(Cli { command: None })));
    assert!(matches!(Cli::from_arg(Some("next")), Ok(Cli { command: Some(Commands::Next) })));
    assert!(matches!(Cli::from_arg(Some("reload")), Ok(Cli { command: Some(Commands::Reload) })));
    assert!(matches!(Cli::from_arg(Some("halt")), Ok(Cli { command: Some(Commands::Halt) })));
    assert!(matches!(Cli::from_arg(Some("stop")), Err(CliError::UnknownCommand)));
}

#[test]
fn halt_event_stops_the_loop() {
    let mut running = true;
    halt_event(&mut running);
    assert!(!running);
}

#[test]
fn set_current_gradient_needs_an_existing_index() {
    let gs = names(2);
    assert_eq!(set_current_gradient(&gs, 1).unwrap().name, "g1");
    assert_eq!(set_current_gradient(&gs, 2).unwrap_err(), CycleError::NoGradient);
}

#[test]
fn advance_wraps_around_and_single_gradient_stays() {
    let gs = names(3);
    let mut i = 2usize;
    assert_eq!(advance_gradient(&gs, &mut i).unwrap().name, "g0");
    assert_eq!(i, 0);
    let one = names(1);
    let mut j = 0usize;
    assert!(advance_gradient(&one, &mut j).is_none());
    assert_eq!(j, 0);
    let mut k = 0usize;
    assert_eq!(next_event(&gs, &mut k).unwrap().name, "g1");
    assert_eq!(k, 1);
}

#[test]
fn reload_starts_over_with_the_new_gradients() {
    let mut gs = names(3);
    let mut i = 2usize;
    let shown = reload_event(&mut gs, &mut i, names(2)).unwrap();
    assert_eq!(shown.name, "g0");
    assert_eq!(i, 0);
    assert_eq!(gs.len(), 2);
    let mut empty_i = 1usize;
    assert_eq!(reload_event(&mut gs, &mut empty_i, vec![]).unwrap_err(), CycleError::NoGradient);
}

#[test]
fn ticks_visit_every_gradient_and_return_to_the_start() {
    let (mut cycle, first) = Cycle::start(names(4)).unwrap();
    assert_eq!(first.name, "g0");
    let mut seen = vec![];
    for _ in 0..4 {
        seen.push(cycle.tick().unwrap().name);
    }
    assert_eq!(seen, vec!["g1", "g2", "g3", "g0"]);
    assert_eq!(cycle.current_index(), 0);
    assert!(cycle.running());
}

#[test]
fn single_gradient_does_not_tick() {
    let (mut cycle, _) = Cycle::start(names(1)).unwrap();
    assert!(cycle.tick().is_none());
    assert_eq!(cycle.current_index(), 0);
}

#[test]
fn start_needs_a_gradient() {
    assert_eq!(Cycle::start(vec![]).err().unwrap(), CycleError::NoGradient);
}

#[test]
fn events_drive_the_cycle() {
    let (mut cycle, _) = Cycle::start(names(2)).unwrap();
    match cycle.handle_event("next").unwrap() {
        Reaction::Show(Some(g)) => assert_eq!(g.name, "g1"),
        other => panic!("unexpected {other:?}"),
    }
    assert!(matches!(cycle.handle_event("reload").unwrap(), Reaction::Reload));
    assert_eq!(cycle.current_index(), 1);
    assert_eq!(cycle.handle_event("bogus").unwrap_err(), CycleError::UnknownEvent);
    assert_eq!(cycle.current_index(), 1);
    assert!(cycle.running());
    assert!(matches!(cycle.handle_event("halt").unwrap(), Reaction::Halt));
    assert!(!cycle.running());
    assert_eq!(cycle.reload(names(3)).unwrap().name, "g0");
    assert_eq!(cycle.len(), 3);
}

#[test]
fn next_with_one_gradient_only_restarts_the_timer() {
    let (mut cycle, _) = Cycle::start(names(1)).unwrap();
    assert!(matches!(cycle.handle_event("next").unwrap(), Reaction::Show(None)));
}

#[test]
fn sent_word_comes_back_as_the_same_command() {
    let watcher = FileWatcher::new(PathBuf::from("/tmp/d"), PathBuf::from("/tmp/d/.hyprgradientevent"));
    assert_eq!(watcher.directory(), &PathBuf::from("/tmp/d"));
    assert_eq!(watcher.event_file(), &PathBuf::from("/tmp/d/.hyprgradientevent"));
    for word in ["halt", "next", "reload"] {
        let w = send_event(word);
        assert_eq!(w.file_name, ".hyprgradientevent");
        assert_eq!(w.contents, word);
        let back = watcher.read_event(&format!("{}\n", w.contents));
        assert_eq!(back, word);
        assert!(parse_word(&back).is_some());
    }
    assert_eq!(watcher.read_event("  next \r\n"), "next");
}
