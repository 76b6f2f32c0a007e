use rpg_cli::app_state::{App, InputMode, Key};
use rpg_cli::batch::FALLBACK;
use rpg_cli::roller::DiceRoller;

#[test]
fn default_app() {
    let app = App::default();
    assert_eq!(app.tabs.len(), 5);
    assert_eq!(app.tabs[0], "General");
    assert_eq!(app.options[0], vec!["Dice Roller".to_string(), "Markov Name Generator".to_string()]);
    assert!(app.options[1..].iter().all(|o| o.is_empty()));
    assert_eq!(app.input_mode, InputMode::Tab);
    assert_eq!((app.cur_tab, app.cur_option), (0, 0));
    assert!(app.input.is_empty());
}

#[test]
fn tabs_wrap_around() {
    let mut app = App::default();
    app.prev_tab();
    assert_eq!(app.cur_tab, 4);
    app.next_tab();
    assert_eq!(app.cur_tab, 0);
    for _ in 0..7 {
        app.next_tab();
    }
    assert_eq!(app.cur_tab, 2);
}

#[test]
fn options_wrap_and_empty_tabs_do_nothing() {
    let mut app = App::default();
    app.next_option();
    assert_eq!(app.cur_option, 1);
    app.next_option();
    assert_eq!(app.cur_option, 0);
    app.prev_option();
    assert_eq!(app.cur_option, 1);
    app.prev_option();
    assert_eq!(app.cur_option, 0);
    app.next_tab();
    app.next_option();
    app.prev_option();
    assert_eq!(app.cur_option, 0);
}

#[test]
fn keys_drive_a_dice_session() {
    let mut app = App::default();
    app.dice_roller = DiceRoller::new(11);
    assert!(!app.handle_key(Key::Enter));
    assert_eq!(app.input_mode, InputMode::Op);
    assert!(!app.handle_key(Key::Enter));
    assert_eq!(app.input_mode, InputMode::Active);
    for c in "1d1+22".chars() {
        app.handle_key(Key::Char(c));
    }
    assert_eq!(app.input, "1d1+22");
    app.handle_key(Key::Backspace);
    assert_eq!(app.input, "1d1+2");
    app.handle_key(Key::Enter);
    assert!(app.input.is_empty());
    for c in "1/0, 3".chars() {
        app.handle_key(Key::Char(c));
    }
    app.handle_key(Key::Enter);
    assert_eq!(
        app.dice_roller.get_results(),
        vec!["1d1+2 = 3".to_string(), format!("{},  3 = 3", FALLBACK)]
    );
    app.handle_key(Key::Esc);
    assert_eq!(app.input_mode, InputMode::Op);
    assert!(app.dice_roller.get_results().is_empty());
    app.handle_key(Key::Esc);
    assert_eq!(app.input_mode, InputMode::Tab);
    assert!(!app.handle_key(Key::Char('q')));
    assert!(app.handle_key(Key::Char('E')));
}

#[test]
fn backspace_on_empty_input() {
    let mut app = App::default();
    app.handle_key(Key::Enter);
    app.handle_key(Key::Enter);
    app.handle_key(Key::Backspace);
    assert!(app.input.is_empty());
}

#[test]
fn other_activity_only_leaves_on_escape() {
    let mut app = App::default();
    app.handle_key(Key::Down);
    assert_eq!(app.cur_option, 1);
    app.handle_key(Key::Enter);
    app.handle_key(Key::Enter);
    assert_eq!(app.input_mode, InputMode::Active);
    app.handle_key(Key::Char('x'));
    assert!(app.input.is_empty());
    app.handle_key(Key::Esc);
    assert_eq!(app.input_mode, InputMode::Op);
}

#[test]
fn roller_log() {
    let mut r = DiceRoller::default();
    r.eval_dice_roll("2*3".to_string());
    r.eval_dice_roll("1d1, 2d1".to_string());
    assert_eq!(r.get_results(), vec!["2*3 = 6".to_string(), "1d1 = 1,  2d1 = 2".to_string()]);
    r.clear_results();
    assert!(r.get_results().is_empty());
}
