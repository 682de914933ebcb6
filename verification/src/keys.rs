//! What the full-screen front end does on each key, and what it shows.

use crate::command;
use crate::command::parse_command;
use crate::command::UserCommand;
use crate::command::UserCommandView;
use crate::text;
use crate::text::byte_len;
use crate::text::cat2;
use crate::text::chars_of;
use crate::text::same_text;
use crate::text::trim;
use crate::tui;
use crate::tui::INPUT_KEPT;
use crate::tui::LOG_KEPT;
use crate::tui::TuiSecretFlow;
use crate::tui::TuiSecretFlowView;
use crate::tui::TuiState;
use crate::tui::TuiStateView;
use vstd::prelude::*;
use vstd::utf8::*;

verus! {

/// A key that was pressed.
#[derive(Debug, Clone, Copy, PartialEq, Eq)]
pub enum TuiKey {
    /// A character: `control` if it was typed with the control key, `plain` if with no other key
    /// but shift.
    Char { ch: char, control: bool, plain: bool },
    Esc,
    Backspace,
    Delete,
    Left,
    Right,
    Home,
    End,
    Up,
    Down,
    PageUp,
    PageDown,
    Enter,
    Other,
}

/// What is to be done after a key.
pub enum TuiAction {
    Nothing,
    /// Send a text to the active room.
    Send { text: String },
    /// Run a command.
    Run(UserCommand),
    /// Create an identity with a password.
    CreateIdentity { alias: String, password: String },
    /// Unlock an identity with a password.
    Login { alias: String, password: String },
    /// Leave the program.
    Quit,
}

/// The plain values held by a [`TuiAction`].
#[verifier::ext_equal]
pub enum TuiActionView {
    Nothing,
    Send { text: Seq<char> },
    Run(UserCommandView),
    CreateIdentity { alias: Seq<char>, password: Seq<char> },
    Login { alias: Seq<char>, password: Seq<char> },
    Quit,
}

impl View for TuiAction {
    type V = TuiActionView;

    open spec fn view(&self) -> TuiActionView {
        match *self {
            TuiAction::Nothing => TuiActionView::Nothing,
            TuiAction::Send { text } => TuiActionView::Send { text: text@ },
            TuiAction::Run(x0) => TuiActionView::Run(x0@),
            TuiAction::CreateIdentity { alias, password } => TuiActionView::CreateIdentity { alias: alias@, password: password@ },
            TuiAction::Login { alias, password } => TuiActionView::Login { alias: alias@, password: password@ },
            TuiAction::Quit => TuiActionView::Quit,
        }
    }
}

/// What stands for a state and what is to be done.
pub type TuiStep = (TuiStateView, TuiActionView);

/// A secret is entered.
pub open spec fn secret_entered(t: TuiStateView) -> TuiStep {
    let secret = t.input;
    let taken = tui::without_secret_flow(t);
    match t.secret_flow {
        None => (t, TuiActionView::Nothing),
        Some(TuiSecretFlowView::CreateIdentity { alias, first_password }) => match first_password {
            None => (
                TuiStateView {
                    secret_flow: Some(
                        TuiSecretFlowView::CreateIdentity { alias, first_password: Some(secret) },
                    ),
                    ..taken
                },
                TuiActionView::Nothing,
            ),
            Some(password) => if password == secret {
                (taken, TuiActionView::CreateIdentity { alias, password })
            } else {
                (tui::with_log(taken, "error: passwords do not match"@), TuiActionView::Nothing)
            },
        },
        Some(TuiSecretFlowView::Login { alias }) => (
            taken,
            TuiActionView::Login { alias, password: secret },
        ),
    }
}

/// A command is entered.
pub open spec fn command_entered(t: TuiStateView, line: Seq<char>, active: bool) -> TuiStep {
    match command::parsed_command(line) {
        Ok(UserCommandView::Quit) => (tui::with_log(t, "bye"@), TuiActionView::Quit),
        Ok(UserCommandView::Clear) => (tui::without_log(t), TuiActionView::Nothing),
        Ok(UserCommandView::IdentityCreate { alias }) => (
            tui::with_secret_flow(
                t,
                TuiSecretFlowView::CreateIdentity { alias, first_password: None },
            ),
            TuiActionView::Nothing,
        ),
        Ok(UserCommandView::Login { alias }) => if active {
            (
                tui::with_log(t, "error: an identity is already unlocked in this process"@),
                TuiActionView::Nothing,
            )
        } else {
            (tui::with_secret_flow(t, TuiSecretFlowView::Login { alias }), TuiActionView::Nothing)
        },
        Ok(command) => (t, TuiActionView::Run(command)),
        Err(e) => (tui::with_log(t, "parse error: "@ + command::parse_error_text(e)), TuiActionView::Nothing),
    }
}

/// The enter key: a secret, a command, or a text for the active room.
pub open spec fn entered(t: TuiStateView, active: bool) -> TuiStep {
    if t.secret_flow is Some {
        secret_entered(t)
    } else {
        let line = text::trimmed(t.input);
        let taken = tui::without_input(t, true);
        if line.len() == 0 {
            (taken, TuiActionView::Nothing)
        } else {
            let echoed = tui::with_log(taken, "> "@ + line);
            if line[0] != '/' {
                (echoed, TuiActionView::Send { text: line })
            } else {
                command_entered(echoed, line, active)
            }
        }
    }
}

/// What a key does.
pub open spec fn key_step(t: TuiStateView, key: TuiKey, active: bool) -> TuiStep {
    match key {
        TuiKey::Char { ch, control, plain } => if ch == 'c' && control {
            (tui::with_log(t, "^C ignored; use /quit"@), TuiActionView::Nothing)
        } else if plain {
            (tui::with_char(t, ch), TuiActionView::Nothing)
        } else {
            (t, TuiActionView::Nothing)
        },
        TuiKey::Esc => (
            tui::with_log(
                tui::without_secret_flow(t),
                if t.secret_flow is Some {
                    "secret input cancelled"@
                } else {
                    "ESC ignored; use /quit"@
                },
            ),
            TuiActionView::Nothing,
        ),
        TuiKey::Backspace => (tui::without_previous(t), TuiActionView::Nothing),
        TuiKey::Delete => (tui::without_next(t), TuiActionView::Nothing),
        TuiKey::Left => (tui::cursor_left(t), TuiActionView::Nothing),
        TuiKey::Right => (tui::cursor_right(t), TuiActionView::Nothing),
        TuiKey::Home => (TuiStateView { input_cursor: 0, ..t }, TuiActionView::Nothing),
        TuiKey::End => (tui::with_input(t, t.input), TuiActionView::Nothing),
        TuiKey::Up => (tui::history_before(t), TuiActionView::Nothing),
        TuiKey::Down => (tui::history_after(t), TuiActionView::Nothing),
        TuiKey::PageUp => (tui::scrolled_up(t), TuiActionView::Nothing),
        TuiKey::PageDown => (tui::scrolled_down(t), TuiActionView::Nothing),
        TuiKey::Enter => entered(t, active),
        TuiKey::Other => (t, TuiActionView::Nothing),
    }
}

impl TuiState {
    /// Enter a secret.
    fn enter_secret(&mut self) -> (res: TuiAction)
        ensures
            (final(self)@, res@) == secret_entered(old(self)@),
    {
        let ghost t = self@;
        let mut flow: Option<TuiSecretFlow> = None;
        std::mem::swap(&mut flow, &mut self.secret_flow);
        match flow {
            None => TuiAction::Nothing,
            Some(flow) => {
                let secret = self.take_input(false);
                assert(self@ =~= tui::without_secret_flow(t));
                match flow {
                    TuiSecretFlow::CreateIdentity { alias, first_password } => {
                        match first_password {
                            None => {
                                self.secret_flow = Some(
                                    TuiSecretFlow::CreateIdentity {
                                        alias,
                                        first_password: Some(secret),
                                    },
                                );
                                TuiAction::Nothing
                            },
                            Some(password) => if same_text(password.as_str(), secret.as_str()) {
                                TuiAction::CreateIdentity { alias, password }
                            } else {
                                self.push_log("error: passwords do not match".to_owned());
                                TuiAction::Nothing
                            },
                        }
                    },
                    TuiSecretFlow::Login { alias } => TuiAction::Login {
                        alias,
                        password: secret,
                    },
                }
            },
        }
    }

    /// Enter a command.
    fn enter_command(&mut self, line: &str, identity_active: bool) -> (res: TuiAction)
        ensures
            (final(self)@, res@) == command_entered(old(self)@, line@, identity_active),
    {
        match parse_command(line) {
            Ok(UserCommand::Quit) => {
                self.push_log("bye".to_owned());
                TuiAction::Quit
            },
            Ok(UserCommand::Clear) => {
                self.clear_log();
                TuiAction::Nothing
            },
            Ok(UserCommand::IdentityCreate { alias }) => {
                self.start_secret_flow(
                    TuiSecretFlow::CreateIdentity { alias, first_password: None },
                );
                TuiAction::Nothing
            },
            Ok(UserCommand::Login { alias }) => {
                if identity_active {
                    self.push_log(
                        "error: an identity is already unlocked in this process".to_owned(),
                    );
                } else {
                    self.start_secret_flow(TuiSecretFlow::Login { alias });
                }
                TuiAction::Nothing
            },
            Ok(command) => TuiAction::Run(command),
            Err(e) => {
                self.push_log(cat2("parse error: ", e.message().as_str()));
                TuiAction::Nothing
            },
        }
    }

    /// Enter the input line.
    fn enter_line(&mut self, identity_active: bool) -> (res: TuiAction)
        ensures
            (final(self)@, res@) == entered(old(self)@, identity_active),
    {
        if self.secret_flow.is_some() {
            return self.enter_secret();
        }
        let line = trim(self.input.as_str());
        self.commit_input(true);
        let chars = chars_of(line.as_str());
        if chars.len() == 0 {
            return TuiAction::Nothing;
        }
        self.push_log(cat2("> ", line.as_str()));
        if chars[0] != '/' {
            TuiAction::Send { text: line }
        } else {
            self.enter_command(line.as_str(), identity_active)
        }
    }

    /// Do what a key asks for.
    pub fn press(&mut self, key: TuiKey, identity_active: bool) -> (res: TuiAction)
        requires
            tui::tui_sound(old(self)@),
        ensures
            (final(self)@, res@) == key_step(old(self)@, key, identity_active),
            tui::tui_sound(final(self)@),
    {
        let ghost t = self@;
        proof {
            tui::lemma_ends(t);
        }
        match key {
            TuiKey::Char { ch, control, plain } => {
                if ch == 'c' && control {
                    self.push_log("^C ignored; use /quit".to_owned());
                } else if plain {
                    self.insert_char(ch);
                }
            },
            TuiKey::Esc => {
                if self.cancel_secret_flow() {
                    self.push_log("secret input cancelled".to_owned());
                } else {
                    self.push_log("ESC ignored; use /quit".to_owned());
                }
            },
            TuiKey::Backspace => self.backspace(),
            TuiKey::Delete => self.delete(),
            TuiKey::Left => self.move_cursor_left(),
            TuiKey::Right => self.move_cursor_right(),
            TuiKey::Home => {
                self.input_cursor = 0;
            },
            TuiKey::End => {
                self.input_cursor = byte_len(self.input.as_str());
            },
            TuiKey::Up => self.history_prev(),
            TuiKey::Down => self.history_next(),
            TuiKey::PageUp => self.scroll_up(),
            TuiKey::PageDown => self.scroll_down(),
            TuiKey::Enter => {
                let action = self.enter_line(identity_active);
                proof {
                    law_keys_keep_the_front_end_sound(t, key, identity_active);
                }
                return action;
            },
            TuiKey::Other => {},
        }
        proof {
            tui::lemma_cursor_sound(t);
            law_keys_keep_the_front_end_sound(t, key, identity_active);
        }
        TuiAction::Nothing
    }
}

/// Every key keeps the front end sound: the cursor never stands inside a character, and neither
/// the log nor the history outgrows its bound. The bytes of the new input line have to be
/// countable.
pub proof fn law_keys_keep_the_front_end_sound(t: TuiStateView, key: TuiKey, active: bool)
    requires
        tui::tui_sound(t),
        tui::width(key_step(t, key, active).0.input) <= usize::MAX,
    ensures
        tui::tui_sound(key_step(t, key, active).0),
{
    let after = key_step(t, key, active).0;
    tui::lemma_ends(t);
    tui::lemma_ends(after);
    match key {
        TuiKey::Char { ch, control, plain } => {
            tui::lemma_char_sound(t, ch);
            tui::lemma_log_sound(t, "^C ignored; use /quit"@);
        },
        TuiKey::Esc => {
            tui::lemma_input_sound(t);
            tui::lemma_log_sound(
                tui::without_secret_flow(t),
                if t.secret_flow is Some {
                    "secret input cancelled"@
                } else {
                    "ESC ignored; use /quit"@
                },
            );
        },
        TuiKey::Backspace | TuiKey::Delete | TuiKey::Left | TuiKey::Right => {
            tui::lemma_cursor_sound(t);
        },
        TuiKey::PageUp | TuiKey::PageDown | TuiKey::Other => {
            tui::lemma_scroll_sound(t);
        },
        TuiKey::Up | TuiKey::Down => {
            if after == t {
                assert(tui::cursor_at(after, tui::typed_before(t)));
            }
        },
        TuiKey::Home | TuiKey::End | TuiKey::Enter => {},
    }
}

/// While a secret is typed, no key puts anything into the history, and entering the secret
/// neither logs it nor leaves it in the input line.
pub proof fn law_secrets_leave_no_trace(t: TuiStateView, key: TuiKey, active: bool)
    requires
        t.secret_flow is Some,
    ensures
        key_step(t, key, active).0.input_history == t.input_history,
        key == TuiKey::Enter ==> {
            let after = key_step(t, key, active).0;
            &&& after.input == Seq::<char>::empty()
            &&& after.log == t.log || after.log == tui::with_log(
                t,
                "error: passwords do not match"@,
            ).log
        },
{
}

/// Typing a character and removing it again gives back the input and the place of the cursor.
pub proof fn law_backspace_undoes_typing(t: TuiStateView, ch: char)
    requires
        tui::tui_sound(t),
        tui::width(tui::with_char(t, ch).input) <= usize::MAX,
    ensures
        tui::without_previous(tui::with_char(t, ch)).input == t.input,
        tui::without_previous(tui::with_char(t, ch)).input_cursor == t.input_cursor,
{
    let n = tui::typed_before(t);
    assert(tui::cursor_at(t, n));
    let typed = tui::with_char(t, ch);
    let before = t.input.take(n).push(ch);
    text::lemma_utf8_concat(before, t.input.skip(n));
    tui::lemma_cursor_behind(typed, before, t.input.skip(n));
    tui::lemma_cursor_unique(typed, n + 1);
    text::lemma_utf8_len(before);
    assert(typed.input.take(n) =~= t.input.take(n));
    assert(typed.input.skip(n + 1) =~= t.input.skip(n));
    assert(t.input.take(n) + t.input.skip(n) =~= t.input);
}

/// A state of the front end with the same input line, history and secret, whatever its cursor.
pub open spec fn same_but_cursor(t: TuiStateView, after: TuiStateView) -> bool {
    &&& after.input == t.input
    &&& after.input_history == t.input_history
    &&& after.log == t.log
    &&& after.secret_flow == t.secret_flow
}

/// A state of the front end that differs in its input line alone.
pub open spec fn only_line_edited(t: TuiStateView, after: TuiStateView) -> bool {
    &&& after.input_history == t.input_history
    &&& after.log == t.log
    &&& after.secret_flow == t.secret_flow
}

/// The keys edit the line at the cursor, which stands behind the first `n` characters: a typed
/// character comes in there and the cursor behind it, backspace takes the character before it,
/// delete the one behind it, the arrows pass one character, and home and end go to the ends.
pub proof fn law_keys_edit_at_the_cursor(t: TuiStateView, ch: char, active: bool, n: int)
    requires
        tui::tui_sound(t),
        tui::cursor_at(t, n),
        tui::width(t.input.take(n).push(ch) + t.input.skip(n)) <= usize::MAX,
    ensures
        ({
            let typed = key_step(
                t,
                TuiKey::Char { ch, control: false, plain: true },
                active,
            );
            &&& typed.0.input == t.input.take(n).push(ch) + t.input.skip(n)
            &&& tui::cursor_at(typed.0, n + 1)
            &&& only_line_edited(t, typed.0)
            &&& typed.1 is Nothing
        }),
        ({
            let (after, action) = key_step(t, TuiKey::Backspace, active);
            &&& n > 0 ==> after.input == t.input.take(n - 1) + t.input.skip(n) && tui::cursor_at(
                after,
                n - 1,
            )
            &&& n == 0 ==> after.input == t.input && tui::cursor_at(after, 0)
            &&& only_line_edited(t, after)
            &&& action is Nothing
        }),
        ({
            let (after, action) = key_step(t, TuiKey::Delete, active);
            &&& n < t.input.len() ==> after.input == t.input.take(n) + t.input.skip(n + 1)
            &&& n == t.input.len() ==> after.input == t.input
            &&& tui::cursor_at(after, n)
            &&& only_line_edited(t, after)
            &&& action is Nothing
        }),
        ({
            let left = key_step(t, TuiKey::Left, active).0;
            let right = key_step(t, TuiKey::Right, active).0;
            let home = key_step(t, TuiKey::Home, active).0;
            let end = key_step(t, TuiKey::End, active).0;
            &&& same_but_cursor(t, left) && tui::cursor_at(
                left,
                if n > 0 {
                    n - 1
                } else {
                    0
                },
            )
            &&& same_but_cursor(t, right) && tui::cursor_at(
                right,
                if n < t.input.len() {
                    n + 1
                } else {
                    n
                },
            )
            &&& same_but_cursor(t, home) && tui::cursor_at(home, 0)
            &&& same_but_cursor(t, end) && tui::cursor_at(end, t.input.len() as int)
        }),
{
    tui::lemma_cursor_unique(t, n);
    tui::lemma_ends(t);
    let typed = tui::with_char(t, ch);
    let before = t.input.take(n).push(ch);
    text::lemma_utf8_concat(before, t.input.skip(n));
    tui::lemma_cursor_behind(typed, before, t.input.skip(n));
    assert(t.input =~= t.input.take(n) + t.input.skip(n));
    text::lemma_utf8_concat(t.input.take(n), t.input.skip(n));
    if n > 0 {
        tui::lemma_width_grows(t.input, 0, n);
        tui::lemma_width_grows(t.input, n - 1, n);
        let back = tui::without_previous(t);
        tui::lemma_cursor_behind(back, t.input.take(n - 1), t.input.skip(n));
    } else {
        assert(t.input.take(0) =~= Seq::empty());
    }
    if n < t.input.len() {
        tui::lemma_width_grows(t.input, n, t.input.len() as int);
        assert(t.input.take(t.input.len() as int) =~= t.input);
        let cut = tui::without_next(t);
        tui::lemma_cursor_behind(cut, t.input.take(n), t.input.skip(n + 1));
        let right = tui::cursor_right(t);
        assert(t.input =~= t.input.take(n + 1) + t.input.skip(n + 1));
        text::lemma_utf8_concat(t.input.take(n + 1), t.input.skip(n + 1));
        assert(tui::cursor_at(right, n + 1));
    } else {
        assert(t.input.take(n) =~= t.input);
    }
    let home = TuiStateView { input_cursor: 0, ..t };
    tui::lemma_ends(home);
    let end = tui::with_input(t, t.input);
    tui::lemma_ends(end);
}

/// The arrow up recalls the lines that were entered, the latest first, and the arrow down goes
/// the same way back. A recalled line stands in the input with the cursor at its end.
pub proof fn law_history_is_browsed(t: TuiStateView, active: bool)
    requires
        tui::tui_sound(t),
        t.input_history.len() > 0,
    ensures
        ({
            let up = key_step(t, TuiKey::Up, active).0;
            let down = key_step(t, TuiKey::Down, active).0;
            let last = t.input_history.len() - 1;
            &&& only_line_edited(t, up) && only_line_edited(t, down)
            &&& t.history_cursor is None ==> up.input == t.input_history[last] && up.history_cursor
                == Some(last as usize) && same_but_cursor(t, down)
            &&& t.history_cursor matches Some(i) ==> {
                let at = if i > 0 {
                    i - 1
                } else {
                    0
                };
                &&& up.history_cursor == Some(at as usize)
                &&& up.input == t.input_history[at]
                &&& i < last ==> down.history_cursor == Some((i + 1) as usize) && down.input
                    == t.input_history[i + 1]
                &&& i == last ==> down.history_cursor is None && down.input == Seq::<char>::empty()
            }
        }),
{
}

/// Enter sends a line as it was typed, without the space around it: an ordinary line goes to the
/// active room, a command is run, and a blank line does nothing. The line is taken away, echoed in
/// the log, and recorded unless it repeats the last one.
pub proof fn law_enter_does_what_the_line_says(t: TuiStateView, active: bool)
    requires
        tui::tui_sound(t),
        t.secret_flow is None,
    ensures
        ({
            let line = text::trimmed(t.input);
            let (after, action) = key_step(t, TuiKey::Enter, active);
            &&& after.input == Seq::<char>::empty()
            &&& line.len() == 0 ==> action is Nothing && after.log == t.log && after.input_history
                == t.input_history
            &&& line.len() > 0 ==> after.input_history.len() > 0 && after.input_history.last()
                == line
            &&& line.len() > 0 && line[0] != '/' ==> action == (TuiActionView::Send { text: line })
                && after.log.last() == "> "@ + line
            &&& line.len() > 0 && line[0] == '/' ==> match command::parsed_command(line) {
                Ok(UserCommandView::Quit) => action is Quit,
                Ok(UserCommandView::Clear) => action is Nothing && after.log.len() == 0,
                Ok(UserCommandView::IdentityCreate { alias }) => action is Nothing
                    && after.secret_flow == Some(
                    TuiSecretFlowView::CreateIdentity { alias, first_password: None },
                ),
                Ok(UserCommandView::Login { alias }) => action is Nothing && after.secret_flow
                    == if active {
                    None
                } else {
                    Some(TuiSecretFlowView::Login { alias })
                },
                Ok(command) => action == TuiActionView::Run(command) && after.log.last() == "> "@
                    + line,
                Err(e) => action is Nothing && after.log.last() == "parse error: "@
                    + command::parse_error_text(e),
            }
        }),
{
    let line = text::trimmed(t.input);
    if line.len() > 0 {
        let h = t.input_history;
        assert(tui::recorded(h, line).last() == line);
        let taken = tui::without_input(t, true);
        let echoed = tui::with_log(taken, "> "@ + line);
        assert(echoed.log.last() == "> "@ + line);
        if let Err(e) = command::parsed_command(line) {
            assert(tui::with_log(echoed, "parse error: "@ + command::parse_error_text(e)).log.last()
                == "parse error: "@ + command::parse_error_text(e));
        }
    }
}

/// A password is taken as it was typed: for a login at once, for a new identity when it was typed
/// twice in the same way.
pub proof fn law_passwords_are_taken_as_typed(t: TuiStateView, active: bool)
    requires
        t.secret_flow is Some,
    ensures
        ({
            let (after, action) = key_step(t, TuiKey::Enter, active);
            match t.secret_flow->0 {
                TuiSecretFlowView::Login { alias } => action == (TuiActionView::Login {
                    alias,
                    password: t.input,
                }) && after.secret_flow is None,
                TuiSecretFlowView::CreateIdentity { alias, first_password: None } => action
                    is Nothing && after.secret_flow == Some(
                    TuiSecretFlowView::CreateIdentity { alias, first_password: Some(t.input) },
                ),
                TuiSecretFlowView::CreateIdentity { alias, first_password: Some(first) } => {
                    &&& after.secret_flow is None
                    &&& first == t.input ==> action == (TuiActionView::CreateIdentity {
                        alias,
                        password: t.input,
                    })
                    &&& first != t.input ==> action is Nothing
                },
            }
        }),
        key_step(t, TuiKey::Esc, active).0.secret_flow is None,
        key_step(t, TuiKey::Esc, active).0.input == Seq::<char>::empty(),
        key_step(t, TuiKey::Esc, active).1 is Nothing,
{
}

/// Ctrl-C and keys without a meaning leave the line, the secret and the history alone; the page keys
/// scroll the log by eight lines within its bounds and change nothing else.
pub proof fn law_other_keys_do_no_harm(t: TuiStateView, ch: char, active: bool)
    requires
        tui::tui_sound(t),
    ensures
        ({
            let (after, action) = key_step(
                t,
                TuiKey::Char { ch: 'c', control: true, plain: false },
                active,
            );
            &&& action is Nothing
            &&& after.input == t.input && after.input_cursor == t.input_cursor
            &&& after.input_history == t.input_history && after.secret_flow == t.secret_flow
        }),
        ch != 'c' ==> key_step(t, TuiKey::Char { ch, control: true, plain: false }, active) == (
            t,
            TuiActionView::Nothing,
        ),
        key_step(t, TuiKey::Other, active) == (t, TuiActionView::Nothing),
        ({
            let (up, action) = key_step(t, TuiKey::PageUp, active);
            &&& action is Nothing
            &&& up == (TuiStateView { log_scroll: up.log_scroll, ..t })
            &&& t.log_scroll + 8 < t.log.len() ==> up.log_scroll == t.log_scroll + 8
            &&& t.log.len() > 0 && t.log_scroll + 8 >= t.log.len() ==> up.log_scroll == t.log.len()
                - 1
            &&& t.log.len() == 0 ==> up.log_scroll == 0
        }),
        ({
            let (down, action) = key_step(t, TuiKey::PageDown, active);
            &&& action is Nothing
            &&& down == (TuiStateView { log_scroll: down.log_scroll, ..t })
            &&& t.log_scroll >= 8 ==> down.log_scroll == t.log_scroll - 8
            &&& t.log_scroll < 8 ==> down.log_scroll == 0
        }),
        LOG_KEPT == 1000,
        INPUT_KEPT == 200,
{
}

} // verus!
