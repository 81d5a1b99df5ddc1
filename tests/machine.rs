use tetris_troll::manager::{GameMachine, Manager, TAP_WINDOW_MS};
use tetris_troll::shared::Evt;

#[test]
fn menu_play_pause_resume() {
    let mut gm = GameMachine::new();
    assert_eq!(gm.state, Manager::Idle);
    gm.send(&Evt::Play);
    assert_eq!(gm.state, Manager::Idle);
    gm.send(&Evt::Menu);
    assert_eq!(gm.state, Manager::MainEntry);
    gm.send(&Evt::Menu);
    assert_eq!(gm.state, Manager::Main);
    gm.send(&Evt::Play);
    assert_eq!(gm.state, Manager::PlayingEntry);
    gm.send(&Evt::Play);
    assert_eq!(gm.state, Manager::Playing);
    gm.send(&Evt::Pause);
    assert_eq!(gm.state, Manager::PlayingExit(Evt::Pause));
    gm.send(&Evt::Pause);
    assert_eq!(gm.state, Manager::PausedEntry);
    gm.send(&Evt::Pause);
    assert_eq!(gm.state, Manager::Paused);
    gm.send(&Evt::DTap);
    assert_eq!(gm.state, Manager::PlayingEntry);
}

#[test]
fn death_leads_to_game_over_and_back_to_menu() {
    let mut gm = GameMachine { state: Manager::Playing };
    gm.send(&Evt::Dead);
    assert_eq!(gm.state, Manager::PlayingExit(Evt::Dead));
    gm.send(&Evt::Dead);
    assert_eq!(gm.state, Manager::GameOver);
    gm.send(&Evt::Play);
    assert_eq!(gm.state, Manager::GameOver);
    gm.send(&Evt::Menu);
    assert_eq!(gm.state, Manager::MainEntry);
}

#[test]
fn exit_is_final() {
    let mut gm = GameMachine { state: Manager::Main };
    gm.send(&Evt::Exit);
    assert_eq!(gm.state, Manager::Exit);
    for e in [Evt::Menu, Evt::Play, Evt::Pause, Evt::Dead, Evt::DTap, Evt::Exit] {
        gm.send(&e);
        assert_eq!(gm.state, Manager::Exit);
    }
}

#[test]
fn paused_game_resumes_on_play() {
    let mut gm = GameMachine { state: Manager::Paused };
    gm.send(&Evt::Menu);
    assert_eq!(gm.state, Manager::Paused);
    gm.send(&Evt::Play);
    assert_eq!(gm.state, Manager::PlayingEntry);
}

#[test]
fn taps_pair_into_a_double_tap() {
    let mut gm = GameMachine { state: Manager::Playing };
    let taps = gm.register_tap(Evt::Nothing, 1000);
    assert_eq!(taps, Evt::Tap(1000, TAP_WINDOW_MS));
    assert_eq!(gm.state, Manager::Playing);
    let taps = gm.register_tap(taps, 1100);
    assert_eq!(taps, Evt::DTap);
    assert_eq!(gm.state, Manager::PlayingExit(Evt::DTap));
    let taps = gm.register_tap(taps, 2000);
    assert_eq!(taps, Evt::Tap(2000, 250));
}

#[test]
fn late_second_tap_starts_over() {
    let mut gm = GameMachine::new();
    let taps = gm.register_tap(Evt::Tap(1000, 250), 1251);
    assert_eq!(taps, Evt::Tap(1251, 250));
    let taps = gm.register_tap(Evt::Tap(1000, 250), 1250);
    assert_eq!(taps, Evt::DTap);
    assert_eq!(gm.state, Manager::Idle);
    assert_eq!(gm.register_tap(Evt::Menu, 5), Evt::Nothing);
}
