//! The line-oriented front end.

use crate::command;
use crate::command::parse_command;
use crate::command::parse_error_report;
use crate::command::UserCommand;
use crate::command::UserCommandView;
use crate::message;
use crate::message::preview_history;
use crate::network;
use crate::network::P2pError;
use crate::network::P2pErrorView;
use crate::peer;
use crate::peer::Multiaddr;
use crate::peer::MultiaddrView;
use crate::reply;
use crate::reply::Reply;
use crate::reply::ReplyView;
use crate::report;
use crate::session::AppState;
use crate::session::AppStateView;
use crate::storage::RoomHistoryEntry;
use crate::storage::RoomHistoryEntryView;
use crate::text;
use crate::text::bool_text;
use crate::text::cat2;
use crate::text::chars_of;
use crate::text::count_text;
use crate::text::Lines;
use crate::text::trim;
use vstd::prelude::*;

verus! {

/// What is shown when the shell starts.
pub open spec fn banner_lines(root: Seq<char>, state: AppStateView) -> Seq<Seq<char>> {
    seq![
        "dogel.bin v0.1 phase 16"@,
        "interactive shell + encrypted P2P messages + trust + online invites + relay/bootstrap + AutoNAT/DCUtR + TUI"@,
        "config root: "@ + root,
        "listen: "@ + peer::addr_text(state.listen_addr),
        "relay server: "@ + text::bool_word(state.relay_server),
        "bootstrap peers: "@ + text::decimal(state.bootstrap_peers.len()),
        "type /help for commands, /quit to exit"@,
        ""@,
    ]
}

/// Greet the user of the shell.
pub fn banner(root: &str, state: &AppState) -> (res: Lines)
    ensures
        res@ == banner_lines(root@, state@),
{
    let mut lines = Lines::new();
    lines.say("dogel.bin v0.1 phase 16");
    lines.say(
        "interactive shell + encrypted P2P messages + trust + online invites + relay/bootstrap + AutoNAT/DCUtR + TUI",
    );
    lines.add(cat2("config root: ", root));
    lines.add(cat2("listen: ", state.listen_addr.to_text().as_str()));
    lines.add(cat2("relay server: ", bool_text(state.relay_server)));
    lines.add(cat2("bootstrap peers: ", count_text(state.bootstrap_peers.len()).as_str()));
    lines.say("type /help for commands, /quit to exit");
    lines.say("");
    assert(lines@ =~= banner_lines(root@, state@));
    lines
}

/// What a line that was read asks for.
pub enum ShellStep {
    /// The line is empty.
    Nothing,
    /// Send a text to the active room.
    Send { text: String },
    /// Leave the program.
    Quit,
    /// Run a command, and record the line in the history if that is wanted.
    Run { command: UserCommand, line: String, record: bool },
    /// Show what is wrong, and record the line in the history.
    Refuse { lines: Vec<String>, line: String },
}

/// The plain values held by a [`ShellStep`].
#[verifier::ext_equal]
pub enum ShellStepView {
    Nothing,
    Send { text: Seq<char> },
    Quit,
    Run { command: UserCommandView, line: Seq<char>, record: bool },
    Refuse { lines: Seq<Seq<char>>, line: Seq<char> },
}

impl View for ShellStep {
    type V = ShellStepView;

    open spec fn view(&self) -> ShellStepView {
        match *self {
            ShellStep::Nothing => ShellStepView::Nothing,
            ShellStep::Send { text } => ShellStepView::Send { text: text@ },
            ShellStep::Quit => ShellStepView::Quit,
            ShellStep::Run { command, line, record } => ShellStepView::Run { command: command@, line: line@, record: record },
            ShellStep::Refuse { lines, line } => ShellStepView::Refuse { lines: text::texts(lines@), line: line@ },
        }
    }
}

/// What a line asks for. A message is not recorded in the history.
pub open spec fn shell_step(input: Seq<char>) -> ShellStepView {
    let line = text::trimmed(input);
    if line.len() == 0 {
        ShellStepView::Nothing
    } else if line[0] != '/' {
        ShellStepView::Send { text: line }
    } else {
        match command::parsed_command(line) {
            Ok(UserCommandView::Quit) => ShellStepView::Quit,
            Ok(command) => ShellStepView::Run { command, line, record: !(command is Message) },
            Err(e) => ShellStepView::Refuse { lines: command::parse_error_lines(e), line },
        }
    }
}

/// Read a line.
pub fn read_line(input: &str) -> (res: ShellStep)
    ensures
        res@ == shell_step(input@),
{
    let line = trim(input);
    let chars = chars_of(line.as_str());
    if chars.len() == 0 {
        return ShellStep::Nothing;
    }
    if chars[0] != '/' {
        return ShellStep::Send { text: line };
    }
    match parse_command(line.as_str()) {
        Ok(UserCommand::Quit) => ShellStep::Quit,
        Ok(command) => {
            let record = match &command {
                UserCommand::Message { text: _ } => false,
                _ => true,
            };
            ShellStep::Run { command, line, record }
        },
        Err(e) => ShellStep::Refuse { lines: parse_error_report(&e).into_strings(), line },
    }
}

/// What a dialed address is answered.
pub open spec fn dial_reply(addr: MultiaddrView, error: Option<P2pErrorView>) -> ReplyView {
    match error {
        Some(e) => reply::failed(network::p2p_error_text(e)),
        None => reply::printed(
            seq![
                "dial started:"@,
                "  "@ + peer::addr_text(addr),
                "connection result will appear as [p2p] event"@,
            ],
        ),
    }
}

/// Answer `/connect`.
pub fn finish_dial(addr: &Multiaddr, error: &Option<P2pError>) -> (res: Reply)
    ensures
        res@ == dial_reply(
            addr@,
            match *error {
                Some(e) => Some(e@),
                None => None,
            },
        ),
{
    match error {
        Some(e) => Reply::fail(e.message()),
        None => {
            let mut lines = Lines::new();
            lines.say("dial started:");
            lines.add(cat2("  ", addr.to_text().as_str()));
            lines.say("connection result will appear as [p2p] event");
            assert(lines@ =~= dial_reply(addr@, None).lines);
            Reply::print(lines)
        },
    }
}

/// What `/history on` is answered. There is no list where the history could not be read.
pub open spec fn history_reply(
    first: Seq<char>,
    history: Option<Seq<RoomHistoryEntryView>>,
) -> ReplyView {
    match history {
        Some(entries) => reply::printed(seq![first] + message::history_preview(entries)),
        None => ReplyView { lines: seq![first], error: Some(report::history_unreadable()) },
    }
}

/// Answer `/history on`.
pub fn finish_history(first: String, history: &Option<Vec<RoomHistoryEntry>>) -> (res: Reply)
    ensures
        res@ == history_reply(
            first@,
            match *history {
                Some(entries) => Some(message::entry_views(entries@)),
                None => None,
            },
        ),
{
    let mut lines = Lines::new();
    lines.add(first);
    assert(lines@ =~= seq![first@]);
    match history {
        Some(entries) => {
            lines.extend(&preview_history(entries));
            Reply::print(lines)
        },
        None => Reply {
            lines,
            error: Some("failed to load encrypted room history".to_owned()),
        },
    }
}

/// No line that is read is lost: it is sent, run, refused, or ends the program, unless it is
/// empty. Only what starts with a slash is taken for a command.
pub proof fn law_lines_without_slash_are_sent(input: Seq<char>)
    ensures
        shell_step(input) is Nothing <==> text::trimmed(input).len() == 0,
        shell_step(input) is Send <==> text::trimmed(input).len() > 0 && text::trimmed(input)[0] != '/',
        shell_step(input) is Send ==> shell_step(input) == (ShellStepView::Send {
            text: text::trimmed(input),
        }),
{
}

/// A line that starts with a slash does what the command in it says: it is run as it was read, it
/// ends the program, or it is refused. Every line but a message is kept for recall.
pub proof fn law_commands_are_run(input: Seq<char>)
    requires
        text::trimmed(input).len() > 0,
        text::trimmed(input)[0] == '/',
    ensures
        match command::parsed_command(text::trimmed(input)) {
            Ok(command) => if command is Quit {
                shell_step(input) is Quit
            } else {
                &&& shell_step(input) matches ShellStepView::Run { command: c, line, record }
                &&& c == command
                &&& line == text::trimmed(input)
                &&& record <==> !(command is Message)
            },
            Err(e) => shell_step(input) matches ShellStepView::Refuse { line, .. } && line
                == text::trimmed(input),
        },
{
}

/// The history of a room is shown behind the first line, down to the newest entry; where it could
/// not be read, that is said.
pub proof fn law_the_history_is_shown(first: Seq<char>, entries: Seq<RoomHistoryEntryView>, k: int)
    requires
        1 <= k <= entries.len(),
        k <= 20,
    ensures
        history_reply(first, None).error is Some,
        history_reply(first, None).lines == seq![first],
        ({
            let reply = history_reply(first, Some(entries));
            &&& reply.error is None
            &&& reply.lines.len() > k
            &&& reply.lines[0] == first
            &&& entries[entries.len() - k].body.is_suffix_of(reply.lines[reply.lines.len() - k])
        }),
{
    message::law_preview_shows_the_newest(entries, k);
    let reply = history_reply(first, Some(entries));
    let shown = message::history_preview(entries);
    assert(reply.lines[reply.lines.len() - k] == shown[shown.len() - k]);
}

/// A dialing that began names the address, and one that did not tells why.
pub proof fn law_dialing_is_told(addr: MultiaddrView, e: P2pErrorView)
    ensures
        dial_reply(addr, None).error is None,
        dial_reply(addr, None).lines.contains("  "@ + peer::addr_text(addr)),
        dial_reply(addr, Some(e)).error == Some(network::p2p_error_text(e)),
        dial_reply(addr, Some(e)).lines.len() == 0,
{
    assert(dial_reply(addr, None).lines[1] == "  "@ + peer::addr_text(addr));
}

/// What is shown at the start names where the program keeps its files, where it listens, whether it
/// is a relay and how many bootstrap peers it knows.
pub proof fn law_the_banner_tells_the_settings(root: Seq<char>, state: AppStateView)
    ensures
        banner_lines(root, state).contains("config root: "@ + root),
        banner_lines(root, state).contains("listen: "@ + peer::addr_text(state.listen_addr)),
        banner_lines(root, state).contains("relay server: "@ + text::bool_word(state.relay_server)),
        banner_lines(root, state).contains(
            "bootstrap peers: "@ + text::decimal(state.bootstrap_peers.len()),
        ),
{
    let lines = banner_lines(root, state);
    assert(lines[2] == "config root: "@ + root);
    assert(lines[3] == "listen: "@ + peer::addr_text(state.listen_addr));
    assert(lines[4] == "relay server: "@ + text::bool_word(state.relay_server));
    assert(lines[5] == "bootstrap peers: "@ + text::decimal(state.bootstrap_peers.len()));
}

} // verus!
