use vstd::prelude::*;

use crate::batch::batch;
use crate::roller::{texts, DiceRoller};
use crate::text::{pop_char, push_char};

verus! {

/// Which part of the screen keys go to: the tab bar, the option list, or the
/// active tool.
#[derive(Clone, Copy, Debug, PartialEq, Eq, Structural)]
pub enum InputMode {
    Tab,
    Op,
    Active,
}

/// The keys the application reacts to; every other key is `Other`.
#[derive(Clone, Copy, Debug, PartialEq, Eq, Structural)]
pub enum Key {
    Char(char),
    Left,
    Right,
    Up,
    Down,
    Enter,
    Esc,
    Backspace,
    Other,
}

/// The application's state: tabs, the options of each tab, the cursors, the
/// input line and the dice roller. `options[k]` lists the options of
/// `tabs[k]`.
pub struct App {
    pub input: String,
    pub input_mode: InputMode,
    pub tabs: Vec<String>,
    pub cur_tab: usize,
    pub options: Vec<Vec<String>>,
    pub cur_option: usize,
    pub dice_roller: DiceRoller,
}

impl App {
    pub open spec fn wf(&self) -> bool {
        &&& self.tabs@.len() >= 1
        &&& self.options@.len() == self.tabs@.len()
        &&& self.cur_tab < self.tabs@.len()
    }

    /// Number of options of the current tab.
    pub open spec fn option_count(&self) -> int {
        self.options@[self.cur_tab as int]@.len() as int
    }

    /// Whether the active tool is the dice roller.
    pub open spec fn rolling_dice(&self) -> bool {
        self.cur_tab == 0 && self.cur_option == 0
    }

    pub open spec fn with_tab(self, t: int) -> App {
        App { cur_tab: t as usize, ..self }
    }

    pub open spec fn with_option(self, o: int) -> App {
        App { cur_option: o as usize, ..self }
    }

    pub open spec fn with_mode(self, m: InputMode) -> App {
        App { input_mode: m, ..self }
    }

    /// The state after `next_tab`.
    pub open spec fn spec_next_tab(self) -> App {
        self.with_tab((self.cur_tab + 1) % (self.tabs@.len() as int))
    }

    /// The state after `prev_tab`.
    pub open spec fn spec_prev_tab(self) -> App {
        if self.cur_tab > 0 {
            self.with_tab(self.cur_tab - 1)
        } else {
            self.with_tab(self.tabs@.len() - 1)
        }
    }

    /// The state after `next_option`.
    pub open spec fn spec_next_option(self) -> App {
        if self.option_count() < 1 {
            self
        } else {
            self.with_option((self.cur_option + 1) % self.option_count())
        }
    }

    /// The state after `prev_option`.
    pub open spec fn spec_prev_option(self) -> App {
        if self.option_count() < 1 {
            self
        } else if self.cur_option > 0 {
            self.with_option(self.cur_option - 1)
        } else {
            self.with_option(self.option_count() - 1)
        }
    }

    /// Everything but the input line and the dice roller is the same in `a`
    /// and `b`.
    pub open spec fn same_screen(a: App, b: App) -> bool {
        &&& a.input_mode == b.input_mode
        &&& a.tabs == b.tabs
        &&& a.cur_tab == b.cur_tab
        &&& a.options == b.options
        &&& a.cur_option == b.cur_option
    }

    /// What a key does to state `a`, ending in state `b`; `quit` says whether
    /// the application ends.
    pub open spec fn transition(a: App, key: Key, b: App, quit: bool) -> bool {
        &&& quit == (a.input_mode == InputMode::Tab && key == Key::Char('E'))
        &&& match a.input_mode {
            InputMode::Tab => match key {
                Key::Right => b == a.spec_next_tab(),
                Key::Left => b == a.spec_prev_tab(),
                Key::Down => b == a.spec_next_option(),
                Key::Up => b == a.spec_prev_option(),
                Key::Enter => b == a.with_mode(InputMode::Op),
                _ => b == a,
            },
            InputMode::Op => match key {
                Key::Esc => b == a.with_mode(InputMode::Tab),
                Key::Enter => b == a.with_mode(InputMode::Active),
                Key::Down => b == a.spec_next_option(),
                Key::Up => b == a.spec_prev_option(),
                _ => b == a,
            },
            InputMode::Active => if a.rolling_dice() {
                match key {
                    Key::Esc => {
                        &&& App::same_screen(a.with_mode(InputMode::Op), b)
                        &&& b.input == a.input
                        &&& b.dice_roller.results().len() == 0
                        &&& b.dice_roller.rng == a.dice_roller.rng
                    },
                    Key::Enter => {
                        let (line, st) = batch(a.input@, a.dice_roller.rng.state);
                        &&& App::same_screen(a, b)
                        &&& b.input@.len() == 0
                        &&& b.dice_roller.results() == a.dice_roller.results().push(line)
                        &&& b.dice_roller.rng.state == st
                    },
                    Key::Char(c) => {
                        &&& App::same_screen(a, b)
                        &&& b.input@ == a.input@.push(c)
                        &&& b.dice_roller == a.dice_roller
                    },
                    Key::Backspace => {
                        &&& App::same_screen(a, b)
                        &&& b.input@ == if a.input@.len() == 0 {
                            a.input@
                        } else {
                            a.input@.drop_last()
                        }
                        &&& b.dice_roller == a.dice_roller
                    },
                    _ => b == a,
                }
            } else {
                match key {
                    Key::Esc => b == a.with_mode(InputMode::Op),
                    _ => b == a,
                }
            },
        }
    }

    /// Selects the next tab, wrapping around after the last.
    pub fn next_tab(&mut self)
        requires
            old(self).wf(),
        ensures
            *final(self) == old(self).spec_next_tab(),
            final(self).wf(),
    {
        let n = self.tabs.len();
        self.cur_tab = (self.cur_tab + 1) % n;
    }

    /// Selects the previous tab, wrapping around before the first.
    pub fn prev_tab(&mut self)
        requires
            old(self).wf(),
        ensures
            *final(self) == old(self).spec_prev_tab(),
            final(self).wf(),
    {
        if self.cur_tab > 0 {
            self.cur_tab -= 1;
        } else {
            self.cur_tab = self.tabs.len() - 1;
        }
    }

    /// Selects the next option of the current tab, wrapping around; does
    /// nothing on a tab without options.
    pub fn next_option(&mut self)
        requires
            old(self).wf(),
        ensures
            *final(self) == old(self).spec_next_option(),
            final(self).wf(),
    {
        let op_len = self.options[self.cur_tab].len();
        if op_len < 1 {
            return ;
        }
        self.cur_option = ((self.cur_option as u128 + 1) % op_len as u128) as usize;
    }

    /// Selects the previous option of the current tab, wrapping around; does
    /// nothing on a tab without options.
    pub fn prev_option(&mut self)
        requires
            old(self).wf(),
        ensures
            *final(self) == old(self).spec_prev_option(),
            final(self).wf(),
    {
        let op_len = self.options[self.cur_tab].len();
        if op_len < 1 {
            return ;
        }
        if self.cur_option > 0 {
            self.cur_option -= 1;
        } else {
            self.cur_option = op_len - 1;
        }
    }

    /// Reacts to one key; returns whether the application should end.
    pub fn handle_key(&mut self, key: Key) -> (quit: bool)
        requires
            old(self).wf(),
        ensures
            App::transition(*old(self), key, *final(self), quit),
            final(self).wf(),
    {
        match self.input_mode {
            InputMode::Tab => match key {
                Key::Char(c) => {
                    return c == 'E';
                },
                Key::Right => self.next_tab(),
                Key::Left => self.prev_tab(),
                Key::Down => self.next_option(),
                Key::Up => self.prev_option(),
                Key::Enter => {
                    self.input_mode = InputMode::Op;
                },
                _ => {},
            },
            InputMode::Op => match key {
                Key::Esc => {
                    self.input_mode = InputMode::Tab;
                },
                Key::Enter => {
                    self.input_mode = InputMode::Active;
                },
                Key::Down => self.next_option(),
                Key::Up => self.prev_option(),
                _ => {},
            },
            InputMode::Active => {
                if self.cur_tab == 0 && self.cur_option == 0 {
                    match key {
                        Key::Esc => {
                            self.input_mode = InputMode::Op;
                            self.dice_roller.clear_results();
                        },
                        Key::Enter => {
                            let command = self.input.clone();
                            self.input = String::new();
                            self.dice_roller.eval_dice_roll(command);
                        },
                        Key::Char(c) => {
                            push_char(&mut self.input, c);
                        },
                        Key::Backspace => {
                            let _ = pop_char(&mut self.input);
                        },
                        _ => {},
                    }
                } else {
                    match key {
                        Key::Esc => {
                            self.input_mode = InputMode::Op;
                        },
                        _ => {},
                    }
                }
            },
        }
        false
    }
}

impl Default for App {
    fn default() -> (r: App)
        ensures
            r.wf(),
            r.input@.len() == 0,
            r.input_mode == InputMode::Tab,
            r.tabs@.len() == 5,
            texts(r.tabs@) == seq![
                "General"@,
                "Fantasy General"@,
                "Modern/Future General"@,
                "D&D 5e"@,
                "OSE"@,
            ],
            r.cur_tab == 0,
            r.cur_option == 0,
            r.options@[0]@.len() == 2,
            texts(r.options@[0]@) == seq!["Dice Roller"@, "Markov Name Generator"@],
            forall|k: int| 1 <= k < 5 ==> #[trigger] r.options@[k]@.len() == 0,
            r.dice_roller.results().len() == 0,
    {
        let tabs = vec![
            String::from_str("General"),
            String::from_str("Fantasy General"),
            String::from_str("Modern/Future General"),
            String::from_str("D&D 5e"),
            String::from_str("OSE"),
        ];
        let options = vec![
            vec![String::from_str("Dice Roller"), String::from_str("Markov Name Generator")],
            Vec::new(),
            Vec::new(),
            Vec::new(),
            Vec::new(),
        ];
        assert(texts(tabs@) =~= seq![
            "General"@,
            "Fantasy General"@,
            "Modern/Future General"@,
            "D&D 5e"@,
            "OSE"@,
        ]);
        assert(texts(options@[0]@) =~= seq!["Dice Roller"@, "Markov Name Generator"@]);
        App {
            input: String::new(),
            input_mode: InputMode::Tab,
            tabs,
            cur_tab: 0,
            options,
            cur_option: 0,
            dice_roller: DiceRoller::default(),
        }
    }
}

} // verus!
