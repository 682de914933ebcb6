//! The state of the full-screen front end: the input line, its history, and the session log.

use crate::swarm;
use crate::text;
use crate::text::byte_len;
use crate::text::cat2;
use crate::text::chars_of;
use crate::text::same_text;
use crate::text::string_of;
use crate::text::trim;
use std::collections::VecDeque;
use vstd::prelude::*;
use vstd::utf8::*;

verus! {

/// What a secret that is being typed is for.
#[derive(Debug, Clone, PartialEq, Eq)]
pub enum TuiSecretFlow {
    CreateIdentity { alias: String, first_password: Option<String> },
    Login { alias: String },
}

/// The plain values held by a [`TuiSecretFlow`].
#[verifier::ext_equal]
pub enum TuiSecretFlowView {
    CreateIdentity { alias: Seq<char>, first_password: Option<Seq<char>> },
    Login { alias: Seq<char> },
}

impl View for TuiSecretFlow {
    type V = TuiSecretFlowView;

    open spec fn view(&self) -> TuiSecretFlowView {
        match *self {
            TuiSecretFlow::CreateIdentity { alias, first_password } => TuiSecretFlowView::CreateIdentity { alias: alias@, first_password: text::opt_text(first_password) },
            TuiSecretFlow::Login { alias } => TuiSecretFlowView::Login { alias: alias@ },
        }
    }
}

/// The state of the front end.
pub struct TuiState {
    pub input: String,
    /// The place of the cursor in bytes.
    pub input_cursor: usize,
    pub input_history: Vec<String>,
    pub history_cursor: Option<usize>,
    pub log: VecDeque<String>,
    pub log_scroll: usize,
    pub secret_flow: Option<TuiSecretFlow>,
}

/// The plain values held by a [`TuiState`].
#[verifier::ext_equal]
pub struct TuiStateView {
    pub input: Seq<char>,
    pub input_cursor: usize,
    pub input_history: Seq<Seq<char>>,
    pub history_cursor: Option<usize>,
    pub log: Seq<Seq<char>>,
    pub log_scroll: usize,
    pub secret_flow: Option<TuiSecretFlowView>,
}

impl View for TuiState {
    type V = TuiStateView;

    open spec fn view(&self) -> TuiStateView {
        TuiStateView {
            input: self.input@,
            input_cursor: self.input_cursor,
            input_history: text::texts(self.input_history@),
            history_cursor: self.history_cursor,
            log: text::texts(self.log@),
            log_scroll: self.log_scroll,
            secret_flow: match self.secret_flow {
                Some(flow) => Some(flow@),
                None => None,
            },
        }
    }
}

/// How many lines the session log keeps.
pub const LOG_KEPT: usize = 1000;

/// How many lines the input history keeps.
pub const INPUT_KEPT: usize = 200;

/// How many lines one scroll step passes.
pub const SCROLL_STEP: usize = 8;

/// The number of bytes of a text.
pub open spec fn width(s: Seq<char>) -> nat {
    encode_utf8(s).len()
}

/// The cursor stands behind the first characters of the input.
pub open spec fn cursor_at(t: TuiStateView, n: int) -> bool {
    0 <= n <= t.input.len() && width(t.input.take(n)) == t.input_cursor
}

/// How many characters stand before the cursor.
pub open spec fn typed_before(t: TuiStateView) -> int {
    choose|n: int| cursor_at(t, n)
}

/// What every reachable state keeps: the cursor stands between two characters, the place in the
/// history is in it, and the log and the history are bounded.
pub open spec fn tui_sound(t: TuiStateView) -> bool {
    &&& exists|n: int| cursor_at(t, n)
    &&& width(t.input) <= usize::MAX
    &&& match t.history_cursor {
        Some(i) => i < t.input_history.len(),
        None => true,
    }
    &&& t.input_history.len() <= INPUT_KEPT
    &&& t.log.len() <= LOG_KEPT
    &&& t.log_scroll <= t.log.len()
}

/// A longer beginning of a text has more bytes.
pub proof fn lemma_width_grows(s: Seq<char>, n: int, m: int)
    requires
        0 <= n < m <= s.len(),
    ensures
        width(s.take(n)) < width(s.take(m)),
{
    let more = s.subrange(n, m);
    assert(s.take(m) =~= s.take(n) + more);
    text::lemma_utf8_concat(s.take(n), more);
    text::lemma_utf8_len(more);
}

/// The cursor has one place.
pub proof fn lemma_cursor_unique(t: TuiStateView, n: int)
    requires
        cursor_at(t, n),
    ensures
        typed_before(t) == n,
{
    let m = typed_before(t);
    assert(cursor_at(t, m));
    if m < n {
        lemma_width_grows(t.input, m, n);
    } else if n < m {
        lemma_width_grows(t.input, n, m);
    }
}

/// The start and the end of the input are places for the cursor.
pub proof fn lemma_ends(t: TuiStateView)
    ensures
        width(Seq::<char>::empty()) == 0,
        t.input_cursor == 0 ==> cursor_at(t, 0) && typed_before(t) == 0,
        t.input_cursor == width(t.input) ==> cursor_at(t, t.input.len() as int) && typed_before(t)
            == t.input.len(),
        tui_sound(t) && t.input_cursor > 0 ==> typed_before(t) > 0,
        tui_sound(t) && t.input_cursor != width(t.input) ==> typed_before(t) < t.input.len(),
        tui_sound(t) ==> cursor_at(t, typed_before(t)) && t.input_cursor <= width(t.input),
{
    text::lemma_utf8_len(Seq::<char>::empty());
    assert(t.input.take(0) =~= Seq::empty());
    assert(t.input.take(t.input.len() as int) =~= t.input);
    if t.input_cursor == 0 {
        lemma_cursor_unique(t, 0);
    }
    if t.input_cursor == width(t.input) {
        lemma_cursor_unique(t, t.input.len() as int);
    }
    if tui_sound(t) {
        let n = typed_before(t);
        assert(cursor_at(t, n));
        if n < t.input.len() {
            lemma_width_grows(t.input, n, t.input.len() as int);
        }
    }
}

/// The front end before any key.
pub open spec fn fresh_tui() -> TuiStateView {
    TuiStateView {
        input: Seq::empty(),
        input_cursor: 0,
        input_history: Seq::empty(),
        history_cursor: None,
        log: Seq::empty(),
        log_scroll: 0,
        secret_flow: None,
    }
}

/// A line is appended to the log, which shows its end again.
pub open spec fn with_log(t: TuiStateView, line: Seq<char>) -> TuiStateView {
    TuiStateView { log: swarm::last_items(t.log.push(line), LOG_KEPT as nat), log_scroll: 0, ..t }
}

/// Lines are appended to the log.
pub open spec fn with_lines(t: TuiStateView, lines: Seq<Seq<char>>) -> TuiStateView
    decreases lines.len(),
{
    if lines.len() == 0 {
        t
    } else {
        with_log(with_lines(t, lines.drop_last()), lines.last())
    }
}

/// The log is emptied.
pub open spec fn without_log(t: TuiStateView) -> TuiStateView {
    TuiStateView { log: Seq::empty(), log_scroll: 0, ..t }
}

/// The input line is replaced, and the cursor stands at its end.
pub open spec fn with_input(t: TuiStateView, input: Seq<char>) -> TuiStateView {
    TuiStateView { input, input_cursor: width(input) as usize, ..t }
}

/// A character is typed.
pub open spec fn with_char(t: TuiStateView, ch: char) -> TuiStateView {
    let n = typed_before(t);
    let before = t.input.take(n).push(ch);
    TuiStateView {
        input: before + t.input.skip(n),
        input_cursor: width(before) as usize,
        history_cursor: None,
        ..t
    }
}

/// The character before the cursor is removed.
pub open spec fn without_previous(t: TuiStateView) -> TuiStateView {
    if t.input_cursor == 0 {
        t
    } else {
        let n = typed_before(t);
        let before = t.input.take(n - 1);
        TuiStateView {
            input: before + t.input.skip(n),
            input_cursor: width(before) as usize,
            history_cursor: None,
            ..t
        }
    }
}

/// The character behind the cursor is removed.
pub open spec fn without_next(t: TuiStateView) -> TuiStateView {
    if t.input_cursor >= width(t.input) {
        t
    } else {
        let n = typed_before(t);
        TuiStateView {
            input: t.input.take(n) + t.input.skip(n + 1),
            history_cursor: None,
            ..t
        }
    }
}

/// The cursor moves by one character to the left.
pub open spec fn cursor_left(t: TuiStateView) -> TuiStateView {
    if t.input_cursor == 0 {
        t
    } else {
        TuiStateView {
            input_cursor: width(t.input.take(typed_before(t) - 1)) as usize,
            ..t
        }
    }
}

/// The cursor moves by one character to the right.
pub open spec fn cursor_right(t: TuiStateView) -> TuiStateView {
    if t.input_cursor >= width(t.input) {
        t
    } else {
        TuiStateView {
            input_cursor: width(t.input.take(typed_before(t) + 1)) as usize,
            ..t
        }
    }
}

/// The history with one more line. A line that repeats the last one is not recorded, nor is an
/// empty line.
pub open spec fn recorded(history: Seq<Seq<char>>, line: Seq<char>) -> Seq<Seq<char>> {
    if line.len() == 0 || (history.len() > 0 && history.last() == line) {
        history
    } else {
        swarm::last_items(history.push(line), INPUT_KEPT as nat)
    }
}

/// The input line is taken away.
pub open spec fn without_input(t: TuiStateView, record: bool) -> TuiStateView {
    TuiStateView {
        input: Seq::empty(),
        input_cursor: 0,
        history_cursor: None,
        input_history: if record {
            recorded(t.input_history, text::trimmed(t.input))
        } else {
            t.input_history
        },
        ..t
    }
}

/// A secret is asked for.
pub open spec fn with_secret_flow(t: TuiStateView, flow: TuiSecretFlowView) -> TuiStateView {
    TuiStateView { secret_flow: Some(flow), ..without_input(t, false) }
}

/// No secret is asked for any more.
pub open spec fn without_secret_flow(t: TuiStateView) -> TuiStateView {
    if t.secret_flow is Some {
        TuiStateView { secret_flow: None, ..without_input(t, false) }
    } else {
        t
    }
}

/// The prompt for a secret.
pub open spec fn prompt_for_secret(flow: TuiSecretFlowView) -> Seq<char> {
    match flow {
        TuiSecretFlowView::CreateIdentity { first_password: Some(_), .. } =>
            "Confirm password: "@,
        _ => "Password: "@,
    }
}

/// The line before in the history is shown.
pub open spec fn history_before(t: TuiStateView) -> TuiStateView {
    if t.input_history.len() == 0 {
        t
    } else {
        let next: int = match t.history_cursor {
            Some(i) => if i > 0 {
                i - 1
            } else {
                0
            },
            None => t.input_history.len() - 1,
        };
        with_input(
            TuiStateView { history_cursor: Some(next as usize), ..t },
            t.input_history[next],
        )
    }
}

/// The line behind in the history is shown, or an empty line at its end.
pub open spec fn history_after(t: TuiStateView) -> TuiStateView {
    match t.history_cursor {
        None => t,
        Some(i) => if i + 1 >= t.input_history.len() {
            TuiStateView { history_cursor: None, input: Seq::empty(), input_cursor: 0, ..t }
        } else {
            with_input(
                TuiStateView { history_cursor: Some((i + 1) as usize), ..t },
                t.input_history[i + 1],
            )
        },
    }
}

/// The log is scrolled towards its start.
pub open spec fn scrolled_up(t: TuiStateView) -> TuiStateView {
    let most = if t.log.len() > 0 {
        t.log.len() - 1
    } else {
        0
    };
    TuiStateView {
        log_scroll: (if t.log_scroll + SCROLL_STEP < most {
            t.log_scroll + SCROLL_STEP
        } else {
            most
        }) as usize,
        ..t
    }
}

/// The log is scrolled towards its end.
pub open spec fn scrolled_down(t: TuiStateView) -> TuiStateView {
    TuiStateView {
        log_scroll: (if t.log_scroll > SCROLL_STEP {
            t.log_scroll - SCROLL_STEP
        } else {
            0
        }) as usize,
        ..t
    }
}

/// An input line has a place for the cursor behind any of its beginnings.
pub proof fn lemma_cursor_behind(t: TuiStateView, before: Seq<char>, after: Seq<char>)
    requires
        t.input == before + after,
        width(before) == t.input_cursor,
    ensures
        cursor_at(t, before.len() as int),
{
    assert(t.input.take(before.len() as int) =~= before);
}

/// Appending to the log keeps the front end sound, and so does emptying it.
pub proof fn lemma_log_sound(t: TuiStateView, line: Seq<char>)
    requires
        tui_sound(t),
    ensures
        tui_sound(with_log(t, line)),
        tui_sound(without_log(t)),
{
    let n = typed_before(t);
    assert(cursor_at(t, n));
    assert(cursor_at(with_log(t, line), n));
    assert(cursor_at(without_log(t), n));
}

/// Appending lines to the log keeps the front end sound.
pub proof fn lemma_lines_sound(t: TuiStateView, lines: Seq<Seq<char>>)
    requires
        tui_sound(t),
    ensures
        tui_sound(with_lines(t, lines)),
    decreases lines.len(),
{
    if lines.len() > 0 {
        lemma_lines_sound(t, lines.drop_last());
        lemma_log_sound(with_lines(t, lines.drop_last()), lines.last());
    }
}

/// Taking the input line away keeps the front end sound.
pub proof fn lemma_input_sound(t: TuiStateView)
    requires
        tui_sound(t),
    ensures
        tui_sound(without_input(t, true)),
        tui_sound(without_input(t, false)),
        tui_sound(without_secret_flow(t)),
        forall|flow: TuiSecretFlowView| tui_sound(#[trigger] with_secret_flow(t, flow)),
{
    lemma_ends(t);
    lemma_ends(without_input(t, true));
    lemma_ends(without_input(t, false));
    lemma_ends(without_secret_flow(t));
    assert forall|flow: TuiSecretFlowView| tui_sound(#[trigger] with_secret_flow(t, flow)) by {
        lemma_ends(with_secret_flow(t, flow));
    }
}

/// Typing a character keeps the front end sound, if its bytes can be counted.
pub proof fn lemma_char_sound(t: TuiStateView, ch: char)
    requires
        tui_sound(t),
    ensures
        width(with_char(t, ch).input) <= usize::MAX ==> tui_sound(with_char(t, ch)),
{
    let n = typed_before(t);
    assert(cursor_at(t, n));
    if width(with_char(t, ch).input) <= usize::MAX {
        let before = t.input.take(n).push(ch);
        text::lemma_utf8_concat(before, t.input.skip(n));
        lemma_cursor_behind(with_char(t, ch), before, t.input.skip(n));
    }
}

/// Removing a character and moving the cursor keep the front end sound.
pub proof fn lemma_cursor_sound(t: TuiStateView)
    requires
        tui_sound(t),
    ensures
        tui_sound(without_previous(t)),
        tui_sound(without_next(t)),
        tui_sound(cursor_left(t)),
        tui_sound(cursor_right(t)),
{
    lemma_ends(t);
    let n = typed_before(t);
    assert(t.input =~= t.input.take(n) + t.input.skip(n));
    text::lemma_utf8_concat(t.input.take(n), t.input.skip(n));
    if t.input_cursor > 0 {
        let before = t.input.take(n - 1);
        let lost = t.input.subrange(n - 1, n);
        text::lemma_utf8_concat(before, t.input.skip(n));
        text::lemma_utf8_concat(before, lost);
        assert(t.input.take(n) =~= before + lost);
        lemma_cursor_behind(without_previous(t), before, t.input.skip(n));
        lemma_width_grows(t.input, n - 1, n);
        assert(cursor_at(cursor_left(t), n - 1));
    }
    if t.input_cursor < width(t.input) {
        let lost = t.input.subrange(n, n + 1);
        text::lemma_utf8_concat(t.input.take(n), t.input.skip(n + 1));
        text::lemma_utf8_concat(lost, t.input.skip(n + 1));
        assert(t.input.skip(n) =~= lost + t.input.skip(n + 1));
        lemma_cursor_behind(without_next(t), t.input.take(n), t.input.skip(n + 1));
        if n + 1 < t.input.len() {
            lemma_width_grows(t.input, n + 1, t.input.len() as int);
        }
        assert(t.input.take(t.input.len() as int) =~= t.input);
        assert(cursor_at(cursor_right(t), n + 1));
    }
}

/// Scrolling keeps the front end sound.
pub proof fn lemma_scroll_sound(t: TuiStateView)
    requires
        tui_sound(t),
    ensures
        tui_sound(scrolled_up(t)),
        tui_sound(scrolled_down(t)),
{
    let n = typed_before(t);
    assert(cursor_at(t, n));
    assert(cursor_at(scrolled_up(t), n));
    assert(cursor_at(scrolled_down(t), n));
}

impl TuiState {
    /// The front end before any key.
    pub fn new() -> (res: TuiState)
        ensures
            res@ == fresh_tui(),
            tui_sound(res@),
    {
        let res = TuiState {
            input: String::new(),
            input_cursor: 0,
            input_history: Vec::new(),
            history_cursor: None,
            log: VecDeque::new(),
            log_scroll: 0,
            secret_flow: None,
        };
        proof {
            assert(res@ =~= fresh_tui());
            lemma_ends(res@);
        }
        res
    }

    /// Append a line to the log.
    pub fn push_log(&mut self, line: String)
        ensures
            final(self)@ == with_log(old(self)@, line@),
            tui_sound(old(self)@) ==> tui_sound(final(self)@),
    {
        let ghost t = self@;
        self.log.push_back(line);
        let ghost full = t.log.push(line@);
        assert(text::texts(self.log@) =~= full);
        let ghost want = swarm::last_items(full, LOG_KEPT as nat);
        while self.log.len() > LOG_KEPT
            invariant
                want == swarm::last_items(full, LOG_KEPT as nat),
                self.log@.len() <= full.len(),
                full.len() <= LOG_KEPT ==> self.log@.len() == full.len(),
                full.len() > LOG_KEPT ==> self.log@.len() >= LOG_KEPT,
                text::texts(self.log@) == full.subrange(full.len() - self.log@.len(), full.len() as int),
                self.input@ == t.input,
                self.input_cursor == t.input_cursor,
                text::texts(self.input_history@) == t.input_history,
                self.history_cursor == t.history_cursor,
                self@.secret_flow == t.secret_flow,
            decreases self.log@.len(),
        {
            let ghost before = text::texts(self.log@);
            let _ = self.log.pop_front();
            assert(text::texts(self.log@) =~= before.subrange(1, before.len() as int));
        }
        self.log_scroll = 0;
        assert(text::texts(self.log@) =~= want);
        assert(self@ =~= with_log(t, line@));
        proof {
            if tui_sound(t) {
                lemma_log_sound(t, line@);
            }
        }
    }

    /// Append lines to the log.
    pub fn push_lines(&mut self, lines: &Vec<String>)
        ensures
            final(self)@ == with_lines(old(self)@, text::texts(lines@)),
            tui_sound(old(self)@) ==> tui_sound(final(self)@),
    {
        let ghost t = self@;
        let ghost all = text::texts(lines@);
        let mut i: usize = 0;
        while i < lines.len()
            invariant
                i <= lines@.len(),
                all == text::texts(lines@),
                self@ == with_lines(t, all.take(i as int)),
            decreases lines.len() - i,
        {
            self.push_log(lines[i].clone());
            i = i + 1;
            assert(all.take(i as int).drop_last() =~= all.take(i - 1));
        }
        assert(all.take(i as int) =~= all);
        proof {
            if tui_sound(t) {
                lemma_lines_sound(t, all);
            }
        }
    }

    /// Empty the log.
    pub fn clear_log(&mut self)
        ensures
            final(self)@ == without_log(old(self)@),
            tui_sound(old(self)@) ==> tui_sound(final(self)@),
    {
        let ghost t = self@;
        self.log.clear();
        self.log_scroll = 0;
        assert(self@ =~= without_log(t));
        proof {
            if tui_sound(t) {
                lemma_log_sound(t, Seq::empty());
            }
        }
    }

    /// The characters of the input, and how many stand before the cursor.
    fn cursor_index(&self) -> (res: (Vec<char>, usize))
        requires
            tui_sound(self@),
        ensures
            res.0@ == self@.input,
            cursor_at(self@, res.1 as int),
            res.1 == typed_before(self@),
    {
        let chars = chars_of(self.input.as_str());
        let total: usize = chars.len();
        let ghost n = typed_before(self@);
        assert(cursor_at(self@, n));
        let mut i: usize = 0;
        while byte_len(string_of(&chars, 0, i).as_str()) != self.input_cursor
            invariant
                i <= n <= total == chars@.len(),
                chars@ == self@.input,
                cursor_at(self@, n),
            decreases n - i,
        {
            assert(chars@.subrange(0, i as int) =~= self@.input.take(i as int));
            i = i + 1;
        }
        proof {
            assert(chars@.subrange(0, i as int) =~= self@.input.take(i as int));
            lemma_cursor_unique(self@, i as int);
        }
        (chars, i)
    }

    /// How many characters stand before the cursor.
    pub fn typed(&self) -> (res: usize)
        requires
            tui_sound(self@),
        ensures
            res == typed_before(self@),
    {
        self.cursor_index().1
    }

    /// Type a character.
    pub fn insert_char(&mut self, ch: char)
        requires
            tui_sound(old(self)@),
        ensures
            final(self)@ == with_char(old(self)@, ch),
            tui_sound(final(self)@),
    {
        let ghost t = self@;
        let (chars, n) = self.cursor_index();
        let mut before = string_of(&chars, 0, n);
        before.push(ch);
        let after = string_of(&chars, n, chars.len());
        self.input = cat2(before.as_str(), after.as_str());
        proof {
            text::lemma_utf8_concat(before@, after@);
        }
        self.input_cursor = byte_len(self.input.as_str()) - byte_len(after.as_str());
        self.history_cursor = None;
        proof {
            assert(before@ =~= t.input.take(n as int).push(ch));
            assert(after@ =~= t.input.skip(n as int));
            assert(self@ =~= with_char(t, ch));
            lemma_char_sound(t, ch);
        }
    }

    /// Remove the character before the cursor.
    pub fn backspace(&mut self)
        requires
            tui_sound(old(self)@),
        ensures
            final(self)@ == without_previous(old(self)@),
            tui_sound(final(self)@),
    {
        let ghost t = self@;
        if self.input_cursor == 0 {
            return;
        }
        let (chars, n) = self.cursor_index();
        proof {
            lemma_ends(t);
        }
        let before = string_of(&chars, 0, n - 1);
        let after = string_of(&chars, n, chars.len());
        self.input = cat2(before.as_str(), after.as_str());
        self.input_cursor = byte_len(before.as_str());
        self.history_cursor = None;
        proof {
            assert(before@ =~= t.input.take(n - 1));
            assert(after@ =~= t.input.skip(n as int));
            assert(self@ =~= without_previous(t));
            lemma_cursor_sound(t);
        }
    }

    /// Remove the character behind the cursor.
    pub fn delete(&mut self)
        requires
            tui_sound(old(self)@),
        ensures
            final(self)@ == without_next(old(self)@),
            tui_sound(final(self)@),
    {
        let ghost t = self@;
        if self.input_cursor >= byte_len(self.input.as_str()) {
            return;
        }
        let (chars, n) = self.cursor_index();
        proof {
            lemma_ends(t);
        }
        let total: usize = chars.len();
        let before = string_of(&chars, 0, n);
        let after = string_of(&chars, n + 1, total);
        self.input = cat2(before.as_str(), after.as_str());
        self.history_cursor = None;
        proof {
            assert(before@ =~= t.input.take(n as int));
            assert(after@ =~= t.input.skip(n + 1));
            assert(self@ =~= without_next(t));
            lemma_cursor_sound(t);
        }
    }

    /// Move the cursor by one character to the left.
    pub fn move_cursor_left(&mut self)
        requires
            tui_sound(old(self)@),
        ensures
            final(self)@ == cursor_left(old(self)@),
            tui_sound(final(self)@),
    {
        let ghost t = self@;
        if self.input_cursor == 0 {
            return;
        }
        let (chars, n) = self.cursor_index();
        proof {
            lemma_ends(t);
        }
        self.input_cursor = byte_len(string_of(&chars, 0, n - 1).as_str());
        assert(chars@.subrange(0, n - 1) =~= t.input.take(n - 1));
        assert(self@ =~= cursor_left(t));
        proof {
            lemma_cursor_sound(t);
        }
    }

    /// Move the cursor by one character to the right.
    pub fn move_cursor_right(&mut self)
        requires
            tui_sound(old(self)@),
        ensures
            final(self)@ == cursor_right(old(self)@),
            tui_sound(final(self)@),
    {
        let ghost t = self@;
        if self.input_cursor >= byte_len(self.input.as_str()) {
            return;
        }
        let (chars, n) = self.cursor_index();
        proof {
            lemma_ends(t);
        }
        self.input_cursor = byte_len(string_of(&chars, 0, n + 1).as_str());
        assert(chars@.subrange(0, n + 1) =~= t.input.take(n + 1));
        assert(self@ =~= cursor_right(t));
        proof {
            lemma_cursor_sound(t);
        }
    }

    /// Take the input line away, and record it in the history if that is wanted.
    pub fn take_input(&mut self, record_history: bool) -> (res: String)
        ensures
            res@ == old(self)@.input,
            final(self)@ == without_input(old(self)@, record_history),
            tui_sound(old(self)@) ==> tui_sound(final(self)@),
    {
        let ghost t = self@;
        let line = trim(self.input.as_str());
        if record_history && chars_of(line.as_str()).len() > 0 {
            let total: usize = self.input_history.len();
            let repeated = total > 0 && same_text(
                self.input_history[total - 1].as_str(),
                line.as_str(),
            );
            if !repeated {
                let mut kept: Vec<String> = Vec::new();
                let from: usize = if total >= INPUT_KEPT {
                    total - (INPUT_KEPT - 1)
                } else {
                    0
                };
                let mut i: usize = from;
                while i < total
                    invariant
                        from <= i <= total == self.input_history@.len(),
                        kept@.len() == i - from,
                        forall|j: int|
                            0 <= j < i - from ==> (#[trigger] kept@[j])@
                                == self.input_history@[from + j]@,
                    decreases total - i,
                {
                    kept.push(self.input_history[i].clone());
                    i = i + 1;
                }
                kept.push(line);
                self.input_history = kept;
                assert(text::texts(kept@) =~= swarm::last_items(
                    t.input_history.push(line@),
                    INPUT_KEPT as nat,
                ));
            }
        }
        let input = self.input.clone();
        self.input = String::new();
        self.input_cursor = 0;
        self.history_cursor = None;
        assert(self@ =~= without_input(t, record_history));
        proof {
            if tui_sound(t) {
                lemma_input_sound(t);
            }
        }
        input
    }

    /// Drop the input line, and record it in the history if that is wanted.
    pub fn commit_input(&mut self, record_history: bool)
        ensures
            final(self)@ == without_input(old(self)@, record_history),
            tui_sound(old(self)@) ==> tui_sound(final(self)@),
    {
        let _ = self.take_input(record_history);
    }

    /// Ask for a secret.
    pub fn start_secret_flow(&mut self, flow: TuiSecretFlow)
        ensures
            final(self)@ == with_secret_flow(old(self)@, flow@),
            tui_sound(old(self)@) ==> tui_sound(final(self)@),
    {
        let ghost t = self@;
        self.input = String::new();
        self.input_cursor = 0;
        self.history_cursor = None;
        self.secret_flow = Some(flow);
        assert(self@ =~= with_secret_flow(t, flow@));
        proof {
            if tui_sound(t) {
                lemma_input_sound(t);
            }
        }
    }

    /// Ask for no secret any more. Tell whether one was asked for.
    pub fn cancel_secret_flow(&mut self) -> (res: bool)
        ensures
            res == (old(self)@.secret_flow is Some),
            final(self)@ == without_secret_flow(old(self)@),
            tui_sound(old(self)@) ==> tui_sound(final(self)@),
    {
        let ghost t = self@;
        if self.secret_flow.is_none() {
            return false;
        }
        self.secret_flow = None;
        self.input = String::new();
        self.input_cursor = 0;
        self.history_cursor = None;
        assert(self@ =~= without_secret_flow(t));
        proof {
            if tui_sound(t) {
                lemma_input_sound(t);
            }
        }
        true
    }

    /// The prompt for the secret that is asked for.
    pub fn secret_prompt(&self) -> (res: Option<&'static str>)
        ensures
            match res {
                Some(prompt) => self@.secret_flow is Some && prompt@ == prompt_for_secret(
                    self@.secret_flow->Some_0,
                ),
                None => self@.secret_flow is None,
            },
    {
        match &self.secret_flow {
            None => None,
            Some(TuiSecretFlow::CreateIdentity { alias: _, first_password }) => match first_password {
                Some(_) => Some("Confirm password: "),
                None => Some("Password: "),
            },
            Some(TuiSecretFlow::Login { alias: _ }) => Some("Password: "),
        }
    }

    /// Show the line before in the history.
    pub fn history_prev(&mut self)
        requires
            tui_sound(old(self)@),
        ensures
            final(self)@ == history_before(old(self)@),
            tui_sound(final(self)@),
    {
        let ghost t = self@;
        if self.input_history.len() == 0 {
            return;
        }
        let next: usize = match self.history_cursor {
            Some(i) => if i > 0 {
                i - 1
            } else {
                0
            },
            None => self.input_history.len() - 1,
        };
        self.history_cursor = Some(next);
        self.input = self.input_history[next].clone();
        self.input_cursor = byte_len(self.input.as_str());
        assert(self@.input == t.input_history[next as int]);
        assert(self@ =~= history_before(t));
        proof {
            lemma_ends(self@);
        }
    }

    /// Show the line behind in the history.
    pub fn history_next(&mut self)
        requires
            tui_sound(old(self)@),
        ensures
            final(self)@ == history_after(old(self)@),
            tui_sound(final(self)@),
    {
        let ghost t = self@;
        proof {
            lemma_ends(t);
        }
        let index: usize = match self.history_cursor {
            Some(i) => i,
            None => {
                return;
            },
        };
        if index + 1 >= self.input_history.len() {
            self.history_cursor = None;
            self.input = String::new();
            self.input_cursor = 0;
        } else {
            self.history_cursor = Some(index + 1);
            self.input = self.input_history[index + 1].clone();
            self.input_cursor = byte_len(self.input.as_str());
            assert(self@.input == t.input_history[index + 1]);
        }
        assert(self@ =~= history_after(t));
        proof {
            lemma_ends(self@);
        }
    }

    /// Scroll the log towards its start.
    pub fn scroll_up(&mut self)
        requires
            tui_sound(old(self)@),
        ensures
            final(self)@ == scrolled_up(old(self)@),
            tui_sound(final(self)@),
    {
        let ghost t = self@;
        let most: usize = if self.log.len() > 0 {
            self.log.len() - 1
        } else {
            0
        };
        let next: usize = self.log_scroll + SCROLL_STEP;
        self.log_scroll = if next < most {
            next
        } else {
            most
        };
        assert(self@ =~= scrolled_up(t));
        proof {
            lemma_scroll_sound(t);
        }
    }

    /// Scroll the log towards its end.
    pub fn scroll_down(&mut self)
        ensures
            final(self)@ == scrolled_down(old(self)@),
            tui_sound(old(self)@) ==> tui_sound(final(self)@),
    {
        let ghost t = self@;
        self.log_scroll = if self.log_scroll > SCROLL_STEP {
            self.log_scroll - SCROLL_STEP
        } else {
            0
        };
        assert(self@ =~= scrolled_down(t));
        proof {
            if tui_sound(t) {
                lemma_scroll_sound(t);
            }
        }
    }
}

/// The log keeps the latest lines in their order, as many as fit, and shows its end after each.
pub proof fn law_log_keeps_the_latest(t: TuiStateView, line: Seq<char>, k: int)
    requires
        tui_sound(t),
        0 <= k < with_log(t, line).log.len(),
    ensures
        ({
            let after = with_log(t, line);
            &&& after.log.last() == line
            &&& after.log_scroll == 0
            &&& after.log.len() == if t.log.len() < LOG_KEPT {
                t.log.len() + 1
            } else {
                LOG_KEPT as nat
            }
            &&& after.log[after.log.len() - 1 - k] == t.log.push(line)[t.log.len() - k]
            &&& after.input == t.input && after.input_history == t.input_history
                && after.secret_flow == t.secret_flow
        }),
{
}

/// The input history keeps the latest lines in their order, as many as fit, and no line twice in a
/// row.
pub proof fn law_input_history_keeps_the_latest(
    history: Seq<Seq<char>>,
    line: Seq<char>,
    k: int,
)
    requires
        history.len() <= INPUT_KEPT,
        line.len() > 0,
        0 <= k < recorded(history, line).len(),
    ensures
        recorded(history, line).last() == line,
        history.len() > 0 && history.last() == line ==> recorded(history, line) == history,
        history.len() == 0 || history.last() != line ==> recorded(history, line)[recorded(
            history,
            line,
        ).len() - 1 - k] == history.push(line)[history.len() - k] && recorded(history, line).len()
            == if history.len() < INPUT_KEPT {
            history.len() + 1
        } else {
            INPUT_KEPT as nat
        },
        recorded(history, Seq::empty()) == history,
{
}

} // verus!
