//! The commands of the interactive shell and their syntax.

use crate::primitives;
use crate::primitives::split_words;
use crate::text;
use crate::text::cat2;
use crate::text::cat4;
use crate::text::chars_of;
use crate::text::has_prefix;
use crate::text::Lines;
use crate::text::same_text;
use crate::text::string_of;
use crate::text::trim;
use vstd::prelude::*;

verus! {

/// A command of the user.
#[derive(Debug, Clone, PartialEq, Eq)]
pub enum UserCommand {
    IdentityCreate { alias: String },
    Login { alias: String },
    Whoami,
    Connect { multiaddr: String },
    ConnectPeer { query: String },
    ResolvePeer { query: String },
    Peers,
    Join { room_id: String, secret: String, ephemeral: bool },
    DirectMessage { peer_id: String, secret: String, ephemeral: bool },
    CreateRoom { room_id: Option<String>, ephemeral: bool },
    Invite { peer_id: String },
    Invites,
    AcceptInvite { invite_id: String },
    RejectInvite { invite_id: String },
    RoomAddPeer { peer_id: String },
    RoomPeers,
    Rooms,
    Message { text: String },
    History { enabled: bool },
    Trust { action: TrustCommand },
    Policy { action: PolicyCommand },
    Status,
    Doctor,
    Debug { enabled: bool },
    Clear,
    Help,
    Quit,
}

/// The plain values held by a [`UserCommand`].
#[verifier::ext_equal]
pub enum UserCommandView {
    IdentityCreate { alias: Seq<char> },
    Login { alias: Seq<char> },
    Whoami,
    Connect { multiaddr: Seq<char> },
    ConnectPeer { query: Seq<char> },
    ResolvePeer { query: Seq<char> },
    Peers,
    Join { room_id: Seq<char>, secret: Seq<char>, ephemeral: bool },
    DirectMessage { peer_id: Seq<char>, secret: Seq<char>, ephemeral: bool },
    CreateRoom { room_id: Option<Seq<char>>, ephemeral: bool },
    Invite { peer_id: Seq<char> },
    Invites,
    AcceptInvite { invite_id: Seq<char> },
    RejectInvite { invite_id: Seq<char> },
    RoomAddPeer { peer_id: Seq<char> },
    RoomPeers,
    Rooms,
    Message { text: Seq<char> },
    History { enabled: bool },
    Trust { action: TrustCommandView },
    Policy { action: PolicyCommandView },
    Status,
    Doctor,
    Debug { enabled: bool },
    Clear,
    Help,
    Quit,
}

impl View for UserCommand {
    type V = UserCommandView;

    open spec fn view(&self) -> UserCommandView {
        match *self {
            UserCommand::IdentityCreate { alias } => UserCommandView::IdentityCreate { alias: alias@ },
            UserCommand::Login { alias } => UserCommandView::Login { alias: alias@ },
            UserCommand::Whoami => UserCommandView::Whoami,
            UserCommand::Connect { multiaddr } => UserCommandView::Connect { multiaddr: multiaddr@ },
            UserCommand::ConnectPeer { query } => UserCommandView::ConnectPeer { query: query@ },
            UserCommand::ResolvePeer { query } => UserCommandView::ResolvePeer { query: query@ },
            UserCommand::Peers => UserCommandView::Peers,
            UserCommand::Join { room_id, secret, ephemeral } => UserCommandView::Join { room_id: room_id@, secret: secret@, ephemeral: ephemeral },
            UserCommand::DirectMessage { peer_id, secret, ephemeral } => UserCommandView::DirectMessage { peer_id: peer_id@, secret: secret@, ephemeral: ephemeral },
            UserCommand::CreateRoom { room_id, ephemeral } => UserCommandView::CreateRoom { room_id: text::opt_text(room_id), ephemeral: ephemeral },
            UserCommand::Invite { peer_id } => UserCommandView::Invite { peer_id: peer_id@ },
            UserCommand::Invites => UserCommandView::Invites,
            UserCommand::AcceptInvite { invite_id } => UserCommandView::AcceptInvite { invite_id: invite_id@ },
            UserCommand::RejectInvite { invite_id } => UserCommandView::RejectInvite { invite_id: invite_id@ },
            UserCommand::RoomAddPeer { peer_id } => UserCommandView::RoomAddPeer { peer_id: peer_id@ },
            UserCommand::RoomPeers => UserCommandView::RoomPeers,
            UserCommand::Rooms => UserCommandView::Rooms,
            UserCommand::Message { text } => UserCommandView::Message { text: text@ },
            UserCommand::History { enabled } => UserCommandView::History { enabled: enabled },
            UserCommand::Trust { action } => UserCommandView::Trust { action: action@ },
            UserCommand::Policy { action } => UserCommandView::Policy { action: action@ },
            UserCommand::Status => UserCommandView::Status,
            UserCommand::Doctor => UserCommandView::Doctor,
            UserCommand::Debug { enabled } => UserCommandView::Debug { enabled: enabled },
            UserCommand::Clear => UserCommandView::Clear,
            UserCommand::Help => UserCommandView::Help,
            UserCommand::Quit => UserCommandView::Quit,
        }
    }
}

/// What to do with the trust store.
#[derive(Debug, Clone, PartialEq, Eq)]
pub enum TrustCommand {
    Add { peer_id: String },
    List,
    Remove { peer_id: String },
}

/// The plain values held by a [`TrustCommand`].
#[verifier::ext_equal]
pub enum TrustCommandView {
    Add { peer_id: Seq<char> },
    List,
    Remove { peer_id: Seq<char> },
}

impl View for TrustCommand {
    type V = TrustCommandView;

    open spec fn view(&self) -> TrustCommandView {
        match *self {
            TrustCommand::Add { peer_id } => TrustCommandView::Add { peer_id: peer_id@ },
            TrustCommand::List => TrustCommandView::List,
            TrustCommand::Remove { peer_id } => TrustCommandView::Remove { peer_id: peer_id@ },
        }
    }
}

/// What to do with the message policy.
#[derive(Debug, Clone, PartialEq, Eq)]
pub enum PolicyCommand {
    Show,
    Strict,
    Relaxed,
}

/// The plain values held by a [`PolicyCommand`].
#[verifier::ext_equal]
pub enum PolicyCommandView {
    Show,
    Strict,
    Relaxed,
}

impl View for PolicyCommand {
    type V = PolicyCommandView;

    open spec fn view(&self) -> PolicyCommandView {
        match *self {
            PolicyCommand::Show => PolicyCommandView::Show,
            PolicyCommand::Strict => PolicyCommandView::Strict,
            PolicyCommand::Relaxed => PolicyCommandView::Relaxed,
        }
    }
}

/// Why a line is not a command.
#[derive(Debug, Clone, PartialEq, Eq)]
pub enum CommandParseError {
    Empty,
    MissingSlash,
    ShellWords(String),
    UnknownCommand(String),
    MissingArgument(&'static str),
    UnexpectedArgument(String),
    MissingFlag(&'static str),
    InvalidValue { field: &'static str, value: String },
}

/// The plain values held by a [`CommandParseError`].
#[verifier::ext_equal]
pub enum CommandParseErrorView {
    Empty,
    MissingSlash,
    ShellWords(Seq<char>),
    UnknownCommand(Seq<char>),
    MissingArgument(Seq<char>),
    UnexpectedArgument(Seq<char>),
    MissingFlag(Seq<char>),
    InvalidValue { field: Seq<char>, value: Seq<char> },
}

impl View for CommandParseError {
    type V = CommandParseErrorView;

    open spec fn view(&self) -> CommandParseErrorView {
        match *self {
            CommandParseError::Empty => CommandParseErrorView::Empty,
            CommandParseError::MissingSlash => CommandParseErrorView::MissingSlash,
            CommandParseError::ShellWords(x0) => CommandParseErrorView::ShellWords(x0@),
            CommandParseError::UnknownCommand(x0) => CommandParseErrorView::UnknownCommand(x0@),
            CommandParseError::MissingArgument(x0) => CommandParseErrorView::MissingArgument(x0@),
            CommandParseError::UnexpectedArgument(x0) => CommandParseErrorView::UnexpectedArgument(x0@),
            CommandParseError::MissingFlag(x0) => CommandParseErrorView::MissingFlag(x0@),
            CommandParseError::InvalidValue { field, value } => CommandParseErrorView::InvalidValue { field: field@, value: value@ },
        }
    }
}

/// What a parse error says.
pub open spec fn parse_error_text(e: CommandParseErrorView) -> Seq<char> {
    match e {
        CommandParseErrorView::Empty => "empty command"@,
        CommandParseErrorView::MissingSlash => "commands must start with '/'"@,
        CommandParseErrorView::ShellWords(reason) => "failed to parse shell-like input: "@ + reason,
        CommandParseErrorView::UnknownCommand(command) => "unknown command: "@ + command,
        CommandParseErrorView::MissingArgument(name) => "missing argument: "@ + name,
        CommandParseErrorView::UnexpectedArgument(value) => "unexpected argument: "@ + value,
        CommandParseErrorView::MissingFlag(name) => "missing required flag "@ + name,
        CommandParseErrorView::InvalidValue { field, value } => "invalid value for "@ + field + ": "@
            + value,
    }
}

impl CommandParseError {
    /// What this error says.
    pub fn message(&self) -> (res: String)
        ensures
            res@ == parse_error_text(self@),
    {
        match self {
            CommandParseError::Empty => "empty command".to_owned(),
            CommandParseError::MissingSlash => "commands must start with '/'".to_owned(),
            CommandParseError::ShellWords(reason) => cat2(
                "failed to parse shell-like input: ",
                reason.as_str(),
            ),
            CommandParseError::UnknownCommand(command) => cat2(
                "unknown command: ",
                command.as_str(),
            ),
            CommandParseError::MissingArgument(name) => cat2("missing argument: ", name),
            CommandParseError::UnexpectedArgument(value) => cat2(
                "unexpected argument: ",
                value.as_str(),
            ),
            CommandParseError::MissingFlag(name) => cat2("missing required flag ", name),
            CommandParseError::InvalidValue { field, value } => cat4(
                "invalid value for ",
                field,
                ": ",
                value.as_str(),
            ),
        }
    }
}

/// The command that a line denotes, or why it denotes none.
pub type ParseOutcome = Result<UserCommandView, CommandParseErrorView>;

/// A command without arguments.
pub open spec fn bare_command(tokens: Seq<Seq<char>>, command: UserCommandView) -> ParseOutcome {
    if tokens.len() == 1 {
        Ok(command)
    } else {
        Err(CommandParseErrorView::UnexpectedArgument(tokens[1]))
    }
}

/// The one argument of a command, or why there is not just one.
pub open spec fn one_argument(tokens: Seq<Seq<char>>, name: Seq<char>) -> Result<
    Seq<char>,
    CommandParseErrorView,
> {
    if tokens.len() == 1 {
        Err(CommandParseErrorView::MissingArgument(name))
    } else if tokens.len() == 2 {
        Ok(tokens[1])
    } else {
        Err(CommandParseErrorView::UnexpectedArgument(tokens[2]))
    }
}

/// `/identity create <alias>`.
pub open spec fn identity_command(tokens: Seq<Seq<char>>) -> ParseOutcome {
    if tokens.len() == 1 {
        Err(CommandParseErrorView::MissingArgument("create <alias>"@))
    } else if tokens[1] == "create"@ && tokens.len() == 3 {
        Ok(UserCommandView::IdentityCreate { alias: tokens[2] })
    } else if tokens[1] == "create"@ && tokens.len() > 3 {
        Err(CommandParseErrorView::UnexpectedArgument(tokens[3]))
    } else {
        Err(
            CommandParseErrorView::InvalidValue {
                field: "identity subcommand"@,
                value: tokens[1],
            },
        )
    }
}

/// The `--secret` and `--ephemeral` flags from a position on: the last secret, if any, and
/// whether the room is ephemeral.
pub open spec fn room_flags(
    tokens: Seq<Seq<char>>,
    i: int,
    secret: Option<Seq<char>>,
    ephemeral: bool,
) -> Result<(Option<Seq<char>>, bool), CommandParseErrorView>
    decreases tokens.len() - i,
{
    if i >= tokens.len() {
        Ok((secret, ephemeral))
    } else if tokens[i] == "--secret"@ {
        if i + 1 < tokens.len() {
            room_flags(tokens, i + 2, Some(tokens[i + 1]), ephemeral)
        } else {
            Err(CommandParseErrorView::MissingArgument("secret value"@))
        }
    } else if tokens[i] == "--ephemeral"@ {
        room_flags(tokens, i + 1, secret, true)
    } else {
        Err(CommandParseErrorView::UnexpectedArgument(tokens[i]))
    }
}

/// A command with a target, a required secret and an optional `--ephemeral`.
pub open spec fn secret_arguments(tokens: Seq<Seq<char>>, name: Seq<char>) -> Result<
    (Seq<char>, Seq<char>, bool),
    CommandParseErrorView,
> {
    if tokens.len() < 2 {
        Err(CommandParseErrorView::MissingArgument(name))
    } else {
        match room_flags(tokens, 2, None, false) {
            Err(e) => Err(e),
            Ok((None, _)) => Err(CommandParseErrorView::MissingFlag("--secret"@)),
            Ok((Some(secret), ephemeral)) => Ok((tokens[1], secret, ephemeral)),
        }
    }
}

/// `/join <room_id> --secret <passphrase> [--ephemeral]`.
pub open spec fn join_command(tokens: Seq<Seq<char>>) -> ParseOutcome {
    match secret_arguments(tokens, "room_id"@) {
        Ok((room_id, secret, ephemeral)) => Ok(
            UserCommandView::Join { room_id, secret, ephemeral },
        ),
        Err(e) => Err(e),
    }
}

/// `/dm <peer_id> --secret <passphrase> [--ephemeral]`.
pub open spec fn dm_command(tokens: Seq<Seq<char>>) -> ParseOutcome {
    match secret_arguments(tokens, "peer_id"@) {
        Ok((peer_id, secret, ephemeral)) => Ok(
            UserCommandView::DirectMessage { peer_id, secret, ephemeral },
        ),
        Err(e) => Err(e),
    }
}

/// `/create-room [room_id] [--ephemeral]` from a position on.
pub open spec fn create_room_command(
    tokens: Seq<Seq<char>>,
    i: int,
    room_id: Option<Seq<char>>,
    ephemeral: bool,
) -> ParseOutcome
    decreases tokens.len() - i,
{
    if i >= tokens.len() {
        Ok(UserCommandView::CreateRoom { room_id, ephemeral })
    } else if tokens[i] == "--ephemeral"@ {
        create_room_command(tokens, i + 1, room_id, true)
    } else if !"--"@.is_prefix_of(tokens[i]) && room_id is None {
        create_room_command(tokens, i + 1, Some(tokens[i]), ephemeral)
    } else {
        Err(CommandParseErrorView::UnexpectedArgument(tokens[i]))
    }
}

/// `/room add-peer <peer_id>` and `/room peers`.
pub open spec fn room_command(tokens: Seq<Seq<char>>) -> ParseOutcome {
    if tokens.len() == 1 {
        Err(CommandParseErrorView::MissingArgument("room subcommand"@))
    } else if tokens[1] == "add-peer"@ && tokens.len() == 3 {
        Ok(UserCommandView::RoomAddPeer { peer_id: tokens[2] })
    } else if tokens[1] == "add-peer"@ && tokens.len() > 3 {
        Err(CommandParseErrorView::UnexpectedArgument(tokens[3]))
    } else if tokens[1] == "peers"@ && tokens.len() == 2 {
        Ok(UserCommandView::RoomPeers)
    } else if tokens[1] == "peers"@ {
        Err(CommandParseErrorView::UnexpectedArgument(tokens[2]))
    } else {
        Err(CommandParseErrorView::InvalidValue { field: "room subcommand"@, value: tokens[1] })
    }
}

/// A switch that is `on` or `off`.
pub open spec fn switch_argument(tokens: Seq<Seq<char>>, name: Seq<char>) -> Result<
    bool,
    CommandParseErrorView,
> {
    if tokens.len() == 1 {
        Err(CommandParseErrorView::MissingArgument("on|off"@))
    } else if tokens.len() > 2 {
        Err(CommandParseErrorView::UnexpectedArgument(tokens[2]))
    } else if tokens[1] == "on"@ {
        Ok(true)
    } else if tokens[1] == "off"@ {
        Ok(false)
    } else {
        Err(CommandParseErrorView::InvalidValue { field: name, value: tokens[1] })
    }
}

/// `/history on|off`.
pub open spec fn history_command(tokens: Seq<Seq<char>>) -> ParseOutcome {
    match switch_argument(tokens, "history"@) {
        Ok(enabled) => Ok(UserCommandView::History { enabled }),
        Err(e) => Err(e),
    }
}

/// `/debug on|off`.
pub open spec fn debug_command(tokens: Seq<Seq<char>>) -> ParseOutcome {
    match switch_argument(tokens, "debug"@) {
        Ok(enabled) => Ok(UserCommandView::Debug { enabled }),
        Err(e) => Err(e),
    }
}

/// `/trust <peer_id>`, `/trust list` and `/trust remove <peer_id>`.
pub open spec fn trust_command(tokens: Seq<Seq<char>>) -> ParseOutcome {
    if tokens.len() == 1 {
        Err(CommandParseErrorView::MissingArgument("peer_id|list|remove <peer_id>"@))
    } else if tokens[1] == "list"@ {
        if tokens.len() == 2 {
            Ok(UserCommandView::Trust { action: TrustCommandView::List })
        } else {
            Err(CommandParseErrorView::UnexpectedArgument(tokens[2]))
        }
    } else if tokens[1] == "remove"@ {
        if tokens.len() == 2 {
            Err(CommandParseErrorView::MissingArgument("peer_id"@))
        } else if tokens.len() == 3 {
            Ok(UserCommandView::Trust { action: TrustCommandView::Remove { peer_id: tokens[2] } })
        } else {
            Err(CommandParseErrorView::UnexpectedArgument(tokens[3]))
        }
    } else if tokens.len() == 2 {
        Ok(UserCommandView::Trust { action: TrustCommandView::Add { peer_id: tokens[1] } })
    } else {
        Err(CommandParseErrorView::UnexpectedArgument(tokens[2]))
    }
}

/// `/policy`, `/policy strict` and `/policy relaxed`.
pub open spec fn policy_command(tokens: Seq<Seq<char>>) -> ParseOutcome {
    if tokens.len() == 1 {
        Ok(UserCommandView::Policy { action: PolicyCommandView::Show })
    } else if tokens.len() > 2 {
        Err(CommandParseErrorView::UnexpectedArgument(tokens[2]))
    } else if tokens[1] == "strict"@ {
        Ok(UserCommandView::Policy { action: PolicyCommandView::Strict })
    } else if tokens[1] == "relaxed"@ {
        Ok(UserCommandView::Policy { action: PolicyCommandView::Relaxed })
    } else {
        Err(CommandParseErrorView::InvalidValue { field: "policy"@, value: tokens[1] })
    }
}

/// The command that a list of tokens denotes.
pub open spec fn parsed_tokens(tokens: Seq<Seq<char>>) -> ParseOutcome {
    if tokens.len() == 0 {
        Err(CommandParseErrorView::Empty)
    } else if tokens[0] == "/identity"@ {
        identity_command(tokens)
    } else if tokens[0] == "/login"@ {
        match one_argument(tokens, "alias"@) {
            Ok(alias) => Ok(UserCommandView::Login { alias }),
            Err(e) => Err(e),
        }
    } else if tokens[0] == "/connect"@ {
        match one_argument(tokens, "multiaddr"@) {
            Ok(multiaddr) => Ok(UserCommandView::Connect { multiaddr }),
            Err(e) => Err(e),
        }
    } else if tokens[0] == "/connect-peer"@ {
        match one_argument(tokens, "peer_id|alias"@) {
            Ok(query) => Ok(UserCommandView::ConnectPeer { query }),
            Err(e) => Err(e),
        }
    } else if tokens[0] == "/resolve-peer"@ {
        match one_argument(tokens, "peer_id|alias"@) {
            Ok(query) => Ok(UserCommandView::ResolvePeer { query }),
            Err(e) => Err(e),
        }
    } else if tokens[0] == "/invite"@ {
        match one_argument(tokens, "peer_id"@) {
            Ok(peer_id) => Ok(UserCommandView::Invite { peer_id }),
            Err(e) => Err(e),
        }
    } else if tokens[0] == "/accept-invite"@ {
        match one_argument(tokens, "invite_id"@) {
            Ok(invite_id) => Ok(UserCommandView::AcceptInvite { invite_id }),
            Err(e) => Err(e),
        }
    } else if tokens[0] == "/reject-invite"@ {
        match one_argument(tokens, "invite_id"@) {
            Ok(invite_id) => Ok(UserCommandView::RejectInvite { invite_id }),
            Err(e) => Err(e),
        }
    } else if tokens[0] == "/join"@ {
        join_command(tokens)
    } else if tokens[0] == "/dm"@ {
        dm_command(tokens)
    } else if tokens[0] == "/create-room"@ {
        create_room_command(tokens, 1, None, false)
    } else if tokens[0] == "/room"@ {
        room_command(tokens)
    } else if tokens[0] == "/history"@ {
        history_command(tokens)
    } else if tokens[0] == "/trust"@ {
        trust_command(tokens)
    } else if tokens[0] == "/policy"@ {
        policy_command(tokens)
    } else if tokens[0] == "/debug"@ {
        debug_command(tokens)
    } else if tokens[0] == "/whoami"@ {
        bare_command(tokens, UserCommandView::Whoami)
    } else if tokens[0] == "/peers"@ {
        bare_command(tokens, UserCommandView::Peers)
    } else if tokens[0] == "/invites"@ {
        bare_command(tokens, UserCommandView::Invites)
    } else if tokens[0] == "/rooms"@ {
        bare_command(tokens, UserCommandView::Rooms)
    } else if tokens[0] == "/status"@ {
        bare_command(tokens, UserCommandView::Status)
    } else if tokens[0] == "/doctor"@ {
        bare_command(tokens, UserCommandView::Doctor)
    } else if tokens[0] == "/clear"@ {
        bare_command(tokens, UserCommandView::Clear)
    } else if tokens[0] == "/help"@ {
        bare_command(tokens, UserCommandView::Help)
    } else if tokens[0] == "/quit"@ {
        bare_command(tokens, UserCommandView::Quit)
    } else if tokens[0] == "/exit"@ {
        bare_command(tokens, UserCommandView::Quit)
    } else {
        Err(CommandParseErrorView::UnknownCommand(tokens[0]))
    }
}

/// The command that a line denotes.
pub open spec fn parsed_command(input: Seq<char>) -> ParseOutcome {
    let line = text::trimmed(input);
    if line.len() == 0 {
        Err(CommandParseErrorView::Empty)
    } else if line[0] != '/' {
        Err(CommandParseErrorView::MissingSlash)
    } else if line == "/help"@ {
        Ok(UserCommandView::Help)
    } else if line == "/quit"@ || line == "/exit"@ {
        Ok(UserCommandView::Quit)
    } else if "/msg"@.is_prefix_of(line) {
        let text = text::trimmed(line.subrange(4, line.len() as int));
        if text.len() == 0 {
            Err(CommandParseErrorView::MissingArgument("text"@))
        } else {
            Ok(UserCommandView::Message { text })
        }
    } else {
        match primitives::shell_words(line) {
            Some(tokens) => parsed_tokens(tokens),
            None => Err(CommandParseErrorView::ShellWords("missing closing quote"@)),
        }
    }
}

/// Parse one line of the shell.
///
/// The text of `/msg` is taken as it stands, without shell quoting.
pub fn parse_command(input: &str) -> (res: Result<UserCommand, CommandParseError>)
    ensures
        match res {
            Ok(command) => parsed_command(input@) == ParseOutcome::Ok(command@),
            Err(e) => parsed_command(input@) == ParseOutcome::Err(e@),
        },
{
    let line = trim(input);
    let chars = chars_of(line.as_str());
    if chars.len() == 0 {
        return Err(CommandParseError::Empty);
    }
    if chars[0] != '/' {
        return Err(CommandParseError::MissingSlash);
    }
    if same_text(line.as_str(), "/help") {
        return Ok(UserCommand::Help);
    }
    if same_text(line.as_str(), "/quit") || same_text(line.as_str(), "/exit") {
        return Ok(UserCommand::Quit);
    }
    if has_prefix(line.as_str(), "/msg") {
        proof {
            reveal_strlit("/msg");
        }
        let rest = string_of(&chars, 4, chars.len());
        let text = trim(rest.as_str());
        if chars_of(text.as_str()).len() == 0 {
            return Err(CommandParseError::MissingArgument("text"));
        }
        return Ok(UserCommand::Message { text });
    }
    match split_words(line.as_str()) {
        Ok(tokens) => parse_tokens(&tokens),
        Err(reason) => Err(CommandParseError::ShellWords(reason)),
    }
}

/// Parse a list of tokens.
pub fn parse_tokens(tokens: &Vec<String>) -> (res: Result<UserCommand, CommandParseError>)
    ensures
        match res {
            Ok(command) => parsed_tokens(text::texts(tokens@)) == ParseOutcome::Ok(command@),
            Err(e) => parsed_tokens(text::texts(tokens@)) == ParseOutcome::Err(e@),
        },
{
    let ghost all = text::texts(tokens@);
    assert(all.len() == tokens@.len());
    assert(forall|i: int| 0 <= i < tokens@.len() ==> all[i] == #[trigger] tokens@[i]@);
    if tokens.len() == 0 {
        return Err(CommandParseError::Empty);
    }
    let command = tokens[0].as_str();
    if same_text(command, "/identity") {
        parse_identity(tokens)
    } else if same_text(command, "/login") {
        match expect_one_arg(tokens, "alias") {
            Ok(alias) => Ok(UserCommand::Login { alias }),
            Err(e) => Err(e),
        }
    } else if same_text(command, "/connect") {
        match expect_one_arg(tokens, "multiaddr") {
            Ok(multiaddr) => Ok(UserCommand::Connect { multiaddr }),
            Err(e) => Err(e),
        }
    } else if same_text(command, "/connect-peer") {
        match expect_one_arg(tokens, "peer_id|alias") {
            Ok(query) => Ok(UserCommand::ConnectPeer { query }),
            Err(e) => Err(e),
        }
    } else if same_text(command, "/resolve-peer") {
        match expect_one_arg(tokens, "peer_id|alias") {
            Ok(query) => Ok(UserCommand::ResolvePeer { query }),
            Err(e) => Err(e),
        }
    } else if same_text(command, "/invite") {
        match expect_one_arg(tokens, "peer_id") {
            Ok(peer_id) => Ok(UserCommand::Invite { peer_id }),
            Err(e) => Err(e),
        }
    } else if same_text(command, "/accept-invite") {
        match expect_one_arg(tokens, "invite_id") {
            Ok(invite_id) => Ok(UserCommand::AcceptInvite { invite_id }),
            Err(e) => Err(e),
        }
    } else if same_text(command, "/reject-invite") {
        match expect_one_arg(tokens, "invite_id") {
            Ok(invite_id) => Ok(UserCommand::RejectInvite { invite_id }),
            Err(e) => Err(e),
        }
    } else if same_text(command, "/join") {
        parse_join(tokens)
    } else if same_text(command, "/dm") {
        parse_dm(tokens)
    } else if same_text(command, "/create-room") {
        parse_create_room(tokens)
    } else if same_text(command, "/room") {
        parse_room(tokens)
    } else if same_text(command, "/history") {
        parse_history(tokens)
    } else if same_text(command, "/trust") {
        parse_trust(tokens)
    } else if same_text(command, "/policy") {
        parse_policy(tokens)
    } else if same_text(command, "/debug") {
        parse_debug(tokens)
    } else if same_text(command, "/whoami") {
        expect_no_args(tokens, UserCommand::Whoami)
    } else if same_text(command, "/peers") {
        expect_no_args(tokens, UserCommand::Peers)
    } else if same_text(command, "/invites") {
        expect_no_args(tokens, UserCommand::Invites)
    } else if same_text(command, "/rooms") {
        expect_no_args(tokens, UserCommand::Rooms)
    } else if same_text(command, "/status") {
        expect_no_args(tokens, UserCommand::Status)
    } else if same_text(command, "/doctor") {
        expect_no_args(tokens, UserCommand::Doctor)
    } else if same_text(command, "/clear") {
        expect_no_args(tokens, UserCommand::Clear)
    } else if same_text(command, "/help") {
        expect_no_args(tokens, UserCommand::Help)
    } else if same_text(command, "/quit") {
        expect_no_args(tokens, UserCommand::Quit)
    } else if same_text(command, "/exit") {
        expect_no_args(tokens, UserCommand::Quit)
    } else {
        Err(CommandParseError::UnknownCommand(command.to_owned()))
    }
}

/// Refuse arguments.
fn expect_no_args(tokens: &Vec<String>, command: UserCommand) -> (res: Result<
    UserCommand,
    CommandParseError,
>)
    requires
        tokens@.len() >= 1,
    ensures
        match res {
            Ok(parsed) => bare_command(text::texts(tokens@), command@) == ParseOutcome::Ok(parsed@),
            Err(e) => bare_command(text::texts(tokens@), command@) == ParseOutcome::Err(e@),
        },
{
    assert(text::texts(tokens@).len() == tokens@.len());
    if tokens.len() == 1 {
        Ok(command)
    } else {
        assert(text::texts(tokens@)[1] == tokens@[1]@);
        Err(CommandParseError::UnexpectedArgument(tokens[1].clone()))
    }
}

/// Take the one argument of a command.
fn expect_one_arg(tokens: &Vec<String>, name: &'static str) -> (res: Result<
    String,
    CommandParseError,
>)
    requires
        tokens@.len() >= 1,
    ensures
        match res {
            Ok(value) => one_argument(text::texts(tokens@), name@) == Ok::<
                Seq<char>,
                CommandParseErrorView,
            >(value@),
            Err(e) => one_argument(text::texts(tokens@), name@) == Err::<
                Seq<char>,
                CommandParseErrorView,
            >(e@),
        },
{
    let ghost all = text::texts(tokens@);
    assert(all.len() == tokens@.len());
    if tokens.len() == 1 {
        Err(CommandParseError::MissingArgument(name))
    } else if tokens.len() == 2 {
        assert(all[1] == tokens@[1]@);
        Ok(tokens[1].clone())
    } else {
        assert(all[2] == tokens@[2]@);
        Err(CommandParseError::UnexpectedArgument(tokens[2].clone()))
    }
}

fn parse_identity(tokens: &Vec<String>) -> (res: Result<UserCommand, CommandParseError>)
    requires
        tokens@.len() >= 1,
    ensures
        match res {
            Ok(command) => identity_command(text::texts(tokens@)) == ParseOutcome::Ok(command@),
            Err(e) => identity_command(text::texts(tokens@)) == ParseOutcome::Err(e@),
        },
{
    let ghost all = text::texts(tokens@);
    assert(all.len() == tokens@.len());
    assert(forall|i: int| 0 <= i < tokens@.len() ==> all[i] == #[trigger] tokens@[i]@);
    if tokens.len() == 1 {
        return Err(CommandParseError::MissingArgument("create <alias>"));
    }
    let create = same_text(tokens[1].as_str(), "create");
    if create && tokens.len() == 3 {
        Ok(UserCommand::IdentityCreate { alias: tokens[2].clone() })
    } else if create && tokens.len() > 3 {
        Err(CommandParseError::UnexpectedArgument(tokens[3].clone()))
    } else {
        Err(
            CommandParseError::InvalidValue {
                field: "identity subcommand",
                value: tokens[1].clone(),
            },
        )
    }
}

/// Read the arguments of `/join` and `/dm`.
fn parse_secret_arguments(tokens: &Vec<String>, name: &'static str) -> (res: Result<
    (String, String, bool),
    CommandParseError,
>)
    ensures
        match res {
            Ok(v) => secret_arguments(text::texts(tokens@), name@) == Ok::<
                (Seq<char>, Seq<char>, bool),
                CommandParseErrorView,
            >((v.0@, v.1@, v.2)),
            Err(e) => secret_arguments(text::texts(tokens@), name@) == Err::<
                (Seq<char>, Seq<char>, bool),
                CommandParseErrorView,
            >(e@),
        },
{
    let ghost all = text::texts(tokens@);
    assert(all.len() == tokens@.len());
    assert(forall|i: int| 0 <= i < tokens@.len() ==> all[i] == #[trigger] tokens@[i]@);
    let n: usize = tokens.len();
    if n < 2 {
        return Err(CommandParseError::MissingArgument(name));
    }
    let mut secret: Option<String> = None;
    let mut ephemeral = false;
    let mut i: usize = 2;
    while i < n
        invariant
            n == tokens@.len() == all.len(),
            n >= 2,
            all == text::texts(tokens@),
            forall|i: int| 0 <= i < tokens@.len() ==> all[i] == #[trigger] tokens@[i]@,
            room_flags(all, 2, None, false) == room_flags(
                all,
                i as int,
                text::opt_text(secret),
                ephemeral,
            ),
        decreases n - i,
    {
        let token = tokens[i].as_str();
        if same_text(token, "--secret") {
            if n - i < 2 {
                return Err(CommandParseError::MissingArgument("secret value"));
            }
            secret = Some(tokens[i + 1].clone());
            if n - i == 2 {
                i = n;
            } else {
                i = i + 2;
            }
        } else if same_text(token, "--ephemeral") {
            ephemeral = true;
            i = i + 1;
        } else {
            return Err(CommandParseError::UnexpectedArgument(token.to_owned()));
        }
    }
    match secret {
        Some(secret) => Ok((tokens[1].clone(), secret, ephemeral)),
        None => Err(CommandParseError::MissingFlag("--secret")),
    }
}

fn parse_join(tokens: &Vec<String>) -> (res: Result<UserCommand, CommandParseError>)
    ensures
        match res {
            Ok(command) => join_command(text::texts(tokens@)) == ParseOutcome::Ok(command@),
            Err(e) => join_command(text::texts(tokens@)) == ParseOutcome::Err(e@),
        },
{
    match parse_secret_arguments(tokens, "room_id") {
        Ok((room_id, secret, ephemeral)) => Ok(UserCommand::Join { room_id, secret, ephemeral }),
        Err(e) => Err(e),
    }
}

fn parse_dm(tokens: &Vec<String>) -> (res: Result<UserCommand, CommandParseError>)
    ensures
        match res {
            Ok(command) => dm_command(text::texts(tokens@)) == ParseOutcome::Ok(command@),
            Err(e) => dm_command(text::texts(tokens@)) == ParseOutcome::Err(e@),
        },
{
    match parse_secret_arguments(tokens, "peer_id") {
        Ok((peer_id, secret, ephemeral)) => Ok(
            UserCommand::DirectMessage { peer_id, secret, ephemeral },
        ),
        Err(e) => Err(e),
    }
}

fn parse_create_room(tokens: &Vec<String>) -> (res: Result<UserCommand, CommandParseError>)
    requires
        tokens@.len() >= 1,
    ensures
        match res {
            Ok(command) => create_room_command(text::texts(tokens@), 1, None, false) == ParseOutcome::Ok(
                command@,
            ),
            Err(e) => create_room_command(text::texts(tokens@), 1, None, false) == ParseOutcome::Err(e@),
        },
        res matches Ok(UserCommand::CreateRoom { ephemeral, .. }) ==> (ephemeral <==> exists|k: int|
            1 <= k < tokens@.len() && #[trigger] tokens@[k]@ == "--ephemeral"@),
        res is Ok ==> res->Ok_0 is CreateRoom,
{
    let ghost all = text::texts(tokens@);
    assert(all.len() == tokens@.len());
    let n: usize = tokens.len();
    let mut room_id: Option<String> = None;
    let mut ephemeral = false;
    let mut i: usize = 1;
    while i < n
        invariant
            n == tokens@.len() == all.len(),
            all == text::texts(tokens@),
            1 <= i <= n,
            create_room_command(all, 1, None, false) == create_room_command(
                all,
                i as int,
                text::opt_text(room_id),
                ephemeral,
            ),
            ephemeral <==> exists|k: int|
                1 <= k < i && #[trigger] tokens@[k]@ == "--ephemeral"@,
        decreases n - i,
    {
        assert(all[i as int] == tokens@[i as int]@);
        let token = tokens[i].as_str();
        if same_text(token, "--ephemeral") {
            ephemeral = true;
            i = i + 1;
            assert(tokens@[i - 1]@ == "--ephemeral"@);
        } else if !has_prefix(token, "--") && room_id.is_none() {
            room_id = Some(token.to_owned());
            i = i + 1;
        } else {
            return Err(CommandParseError::UnexpectedArgument(token.to_owned()));
        }
    }
    Ok(UserCommand::CreateRoom { room_id, ephemeral })
}

fn parse_room(tokens: &Vec<String>) -> (res: Result<UserCommand, CommandParseError>)
    requires
        tokens@.len() >= 1,
    ensures
        match res {
            Ok(command) => room_command(text::texts(tokens@)) == ParseOutcome::Ok(command@),
            Err(e) => room_command(text::texts(tokens@)) == ParseOutcome::Err(e@),
        },
{
    let ghost all = text::texts(tokens@);
    assert(all.len() == tokens@.len());
    assert(forall|i: int| 0 <= i < tokens@.len() ==> all[i] == #[trigger] tokens@[i]@);
    if tokens.len() == 1 {
        return Err(CommandParseError::MissingArgument("room subcommand"));
    }
    let subcommand = tokens[1].as_str();
    let add_peer = same_text(subcommand, "add-peer");
    let peers = same_text(subcommand, "peers");
    if add_peer && tokens.len() == 3 {
        Ok(UserCommand::RoomAddPeer { peer_id: tokens[2].clone() })
    } else if add_peer && tokens.len() > 3 {
        Err(CommandParseError::UnexpectedArgument(tokens[3].clone()))
    } else if peers && tokens.len() == 2 {
        Ok(UserCommand::RoomPeers)
    } else if peers {
        Err(CommandParseError::UnexpectedArgument(tokens[2].clone()))
    } else {
        Err(
            CommandParseError::InvalidValue {
                field: "room subcommand",
                value: subcommand.to_owned(),
            },
        )
    }
}

/// Read a switch that is `on` or `off`.
fn parse_switch(tokens: &Vec<String>, name: &'static str) -> (res: Result<bool, CommandParseError>)
    requires
        tokens@.len() >= 1,
    ensures
        match res {
            Ok(enabled) => switch_argument(text::texts(tokens@), name@) == Ok::<
                bool,
                CommandParseErrorView,
            >(enabled),
            Err(e) => switch_argument(text::texts(tokens@), name@) == Err::<bool, CommandParseErrorView>(
                e@,
            ),
        },
{
    let ghost all = text::texts(tokens@);
    assert(all.len() == tokens@.len());
    assert(forall|i: int| 0 <= i < tokens@.len() ==> all[i] == #[trigger] tokens@[i]@);
    if tokens.len() == 1 {
        return Err(CommandParseError::MissingArgument("on|off"));
    }
    if tokens.len() > 2 {
        return Err(CommandParseError::UnexpectedArgument(tokens[2].clone()));
    }
    let value = tokens[1].as_str();
    if same_text(value, "on") {
        Ok(true)
    } else if same_text(value, "off") {
        Ok(false)
    } else {
        Err(CommandParseError::InvalidValue { field: name, value: value.to_owned() })
    }
}

fn parse_history(tokens: &Vec<String>) -> (res: Result<UserCommand, CommandParseError>)
    requires
        tokens@.len() >= 1,
    ensures
        match res {
            Ok(command) => history_command(text::texts(tokens@)) == ParseOutcome::Ok(command@),
            Err(e) => history_command(text::texts(tokens@)) == ParseOutcome::Err(e@),
        },
{
    match parse_switch(tokens, "history") {
        Ok(enabled) => Ok(UserCommand::History { enabled }),
        Err(e) => Err(e),
    }
}

fn parse_debug(tokens: &Vec<String>) -> (res: Result<UserCommand, CommandParseError>)
    requires
        tokens@.len() >= 1,
    ensures
        match res {
            Ok(command) => debug_command(text::texts(tokens@)) == ParseOutcome::Ok(command@),
            Err(e) => debug_command(text::texts(tokens@)) == ParseOutcome::Err(e@),
        },
{
    match parse_switch(tokens, "debug") {
        Ok(enabled) => Ok(UserCommand::Debug { enabled }),
        Err(e) => Err(e),
    }
}

fn parse_trust(tokens: &Vec<String>) -> (res: Result<UserCommand, CommandParseError>)
    requires
        tokens@.len() >= 1,
    ensures
        match res {
            Ok(command) => trust_command(text::texts(tokens@)) == ParseOutcome::Ok(command@),
            Err(e) => trust_command(text::texts(tokens@)) == ParseOutcome::Err(e@),
        },
{
    let ghost all = text::texts(tokens@);
    assert(all.len() == tokens@.len());
    assert(forall|i: int| 0 <= i < tokens@.len() ==> all[i] == #[trigger] tokens@[i]@);
    let n: usize = tokens.len();
    if n == 1 {
        return Err(CommandParseError::MissingArgument("peer_id|list|remove <peer_id>"));
    }
    let value = tokens[1].as_str();
    if same_text(value, "list") {
        if n == 2 {
            Ok(UserCommand::Trust { action: TrustCommand::List })
        } else {
            Err(CommandParseError::UnexpectedArgument(tokens[2].clone()))
        }
    } else if same_text(value, "remove") {
        if n == 2 {
            Err(CommandParseError::MissingArgument("peer_id"))
        } else if n == 3 {
            Ok(UserCommand::Trust { action: TrustCommand::Remove { peer_id: tokens[2].clone() } })
        } else {
            Err(CommandParseError::UnexpectedArgument(tokens[3].clone()))
        }
    } else if n == 2 {
        Ok(UserCommand::Trust { action: TrustCommand::Add { peer_id: value.to_owned() } })
    } else {
        Err(CommandParseError::UnexpectedArgument(tokens[2].clone()))
    }
}

fn parse_policy(tokens: &Vec<String>) -> (res: Result<UserCommand, CommandParseError>)
    requires
        tokens@.len() >= 1,
    ensures
        match res {
            Ok(command) => policy_command(text::texts(tokens@)) == ParseOutcome::Ok(command@),
            Err(e) => policy_command(text::texts(tokens@)) == ParseOutcome::Err(e@),
        },
{
    let ghost all = text::texts(tokens@);
    assert(all.len() == tokens@.len());
    assert(forall|i: int| 0 <= i < tokens@.len() ==> all[i] == #[trigger] tokens@[i]@);
    if tokens.len() == 1 {
        return Ok(UserCommand::Policy { action: PolicyCommand::Show });
    }
    if tokens.len() > 2 {
        return Err(CommandParseError::UnexpectedArgument(tokens[2].clone()));
    }
    let value = tokens[1].as_str();
    if same_text(value, "strict") {
        Ok(UserCommand::Policy { action: PolicyCommand::Strict })
    } else if same_text(value, "relaxed") {
        Ok(UserCommand::Policy { action: PolicyCommand::Relaxed })
    } else {
        Err(CommandParseError::InvalidValue { field: "policy", value: value.to_owned() })
    }
}

/// What is printed for a line that is not a command.
pub open spec fn parse_error_lines(e: CommandParseErrorView) -> Seq<Seq<char>> {
    let first = "error: "@ + parse_error_text(e);
    match e {
        CommandParseErrorView::MissingFlag(name) if name == "--secret"@ => seq![
            first,
            ""@,
            "usage:"@,
            "  /join <room_id> --secret <passphrase> [--ephemeral]"@,
            "  /dm <peer_id> --secret <passphrase> [--ephemeral]"@,
        ],
        CommandParseErrorView::MissingSlash => seq![
            first,
            ""@,
            "hint:"@,
            "  commands start with '/', for example /help"@,
        ],
        _ => seq![first],
    }
}

/// Report a line that is not a command.
pub fn parse_error_report(err: &CommandParseError) -> (res: Lines)
    ensures
        res@ == parse_error_lines(err@),
{
    let mut lines = Lines::new();
    lines.add(cat2("error: ", err.message().as_str()));
    match err {
        CommandParseError::MissingFlag(name) => {
            if same_text(name, "--secret") {
                lines.say("");
                lines.say("usage:");
                lines.say("  /join <room_id> --secret <passphrase> [--ephemeral]");
                lines.say("  /dm <peer_id> --secret <passphrase> [--ephemeral]");
            }
        },
        CommandParseError::MissingSlash => {
            lines.say("");
            lines.say("hint:");
            lines.say("  commands start with '/', for example /help");
        },
        _ => {},
    }
    assert(lines@ =~= parse_error_lines(err@));
    lines
}

/// A line that is not blank and does not start with a slash is never taken for a command.
pub proof fn law_commands_start_with_slash(input: Seq<char>)
    requires
        parsed_command(input) is Ok,
    ensures
        text::trimmed(input).len() > 0,
        text::trimmed(input)[0] == '/',
{
}

/// From a position on, the flags of `/create-room`.
proof fn lemma_create_room(
    tokens: Seq<Seq<char>>,
    i: int,
    room_id: Option<Seq<char>>,
    ephemeral: bool,
)
    requires
        0 <= i,
    ensures
        create_room_command(tokens, i, room_id, ephemeral) matches Ok(command) ==> {
            &&& command is CreateRoom
            &&& command->CreateRoom_ephemeral <==> ephemeral || exists|k: int|
                i <= k < tokens.len() && #[trigger] tokens[k] == "--ephemeral"@
            &&& command->CreateRoom_room_id is None <==> room_id is None && forall|k: int|
                i <= k < tokens.len() ==> #[trigger] tokens[k] == "--ephemeral"@
            &&& room_id is Some ==> command->CreateRoom_room_id == room_id
            &&& forall|k: int|
                i <= k < tokens.len() ==> #[trigger] tokens[k] == "--ephemeral"@ || (room_id is None
                    && command->CreateRoom_room_id == Some(tokens[k]))
        },
    decreases tokens.len() - i,
{
    if i < tokens.len() {
        if tokens[i] == "--ephemeral"@ {
            lemma_create_room(tokens, i + 1, room_id, true);
        } else {
            lemma_create_room(tokens, i + 1, Some(tokens[i]), ephemeral);
        }
    }
}

/// `/create-room` is accepted with at most one argument that is not `--ephemeral`, which then is
/// the room id. It asks for an ephemeral room if and only if one of its arguments is
/// `--ephemeral`, wherever it stands.
pub proof fn law_create_room_arguments(tokens: Seq<Seq<char>>)
    requires
        tokens.len() > 0,
        tokens[0] == "/create-room"@,
    ensures
        parsed_tokens(tokens) matches Ok(command) ==> {
            &&& command is CreateRoom
            &&& command->CreateRoom_ephemeral <==> exists|k: int|
                1 <= k < tokens.len() && #[trigger] tokens[k] == "--ephemeral"@
            &&& command->CreateRoom_room_id is None <==> forall|k: int|
                1 <= k < tokens.len() ==> #[trigger] tokens[k] == "--ephemeral"@
            &&& forall|k: int|
                1 <= k < tokens.len() && #[trigger] tokens[k] != "--ephemeral"@
                    ==> command->CreateRoom_room_id == Some(tokens[k])
        },
        tokens.len() == 1 ==> parsed_tokens(tokens) == ParseOutcome::Ok(
            UserCommandView::CreateRoom { room_id: None, ephemeral: false },
        ),
        tokens.len() == 2 && tokens[1] == "--ephemeral"@ ==> parsed_tokens(tokens)
            == ParseOutcome::Ok(UserCommandView::CreateRoom { room_id: None, ephemeral: true }),
        tokens.len() == 2 && !"--"@.is_prefix_of(tokens[1]) ==> parsed_tokens(tokens)
            == ParseOutcome::Ok(
            UserCommandView::CreateRoom { room_id: Some(tokens[1]), ephemeral: false },
        ),
        tokens.len() == 3 && !"--"@.is_prefix_of(tokens[1]) && tokens[2] == "--ephemeral"@
            ==> parsed_tokens(tokens) == ParseOutcome::Ok(
            UserCommandView::CreateRoom { room_id: Some(tokens[1]), ephemeral: true },
        ),
        tokens.len() == 3 && tokens[1] == "--ephemeral"@ && !"--"@.is_prefix_of(tokens[2])
            ==> parsed_tokens(tokens) == ParseOutcome::Ok(
            UserCommandView::CreateRoom { room_id: Some(tokens[2]), ephemeral: true },
        ),
{
    lemma_words_differ();
    lemma_create_room(tokens, 1, None, false);
    assert("--"@.is_prefix_of("--ephemeral"@)) by {
        reveal_strlit("--");
        reveal_strlit("--ephemeral");
        assert("--ephemeral"@.subrange(0, 2) =~= "--"@);
    }
    reveal_with_fuel(create_room_command, 4);
}

/// No token behind a `--secret` is itself a flag.
pub open spec fn plain_secrets(tokens: Seq<Seq<char>>) -> bool {
    forall|k: int|
        2 <= k && k + 1 < tokens.len() && #[trigger] tokens[k] == "--secret"@ ==> tokens[k + 1]
            != "--secret"@ && tokens[k + 1] != "--ephemeral"@
}

/// From a position on, the flags of `/join` and `/dm`.
proof fn lemma_room_flags(
    tokens: Seq<Seq<char>>,
    i: int,
    secret: Option<Seq<char>>,
    ephemeral: bool,
)
    requires
        2 <= i,
        plain_secrets(tokens),
    ensures
        room_flags(tokens, i, secret, ephemeral) matches Ok(flags) ==> {
            &&& flags.1 <==> ephemeral || exists|k: int|
                i <= k < tokens.len() && #[trigger] tokens[k] == "--ephemeral"@
            &&& flags.0 is Some <==> secret is Some || exists|k: int|
                i <= k < tokens.len() && #[trigger] tokens[k] == "--secret"@
            &&& flags.0 != secret ==> exists|k: int|
                i <= k && k + 1 < tokens.len() && #[trigger] tokens[k] == "--secret"@
                    && flags.0 == Some(tokens[k + 1])
            &&& forall|k: int|
                {
                    &&& i <= k && k + 1 < tokens.len()
                    &&& #[trigger] tokens[k] == "--secret"@
                    &&& forall|m: int| k < m < tokens.len() ==> #[trigger] tokens[m] != "--secret"@
                } ==> flags.0 == Some(tokens[k + 1])
        },
    decreases tokens.len() - i,
{
    lemma_words_differ();
    if i < tokens.len() {
        if tokens[i] == "--secret"@ {
            if i + 1 < tokens.len() {
                lemma_room_flags(tokens, i + 2, Some(tokens[i + 1]), ephemeral);
                if let Ok(flags) = room_flags(tokens, i, secret, ephemeral) {
                    assert forall|k: int|
                        {
                            &&& i <= k && k + 1 < tokens.len()
                            &&& #[trigger] tokens[k] == "--secret"@
                            &&& forall|m: int|
                                k < m < tokens.len() ==> #[trigger] tokens[m] != "--secret"@
                        } implies flags.0 == Some(tokens[k + 1]) by {
                        if k == i {
                            if flags.0 != Some(tokens[i + 1]) {
                                let m = choose|m: int|
                                    i + 2 <= m && m + 1 < tokens.len() && #[trigger] tokens[m]
                                        == "--secret"@ && flags.0 == Some(tokens[m + 1]);
                                assert(tokens[m] == "--secret"@);
                            }
                        } else {
                            assert(k != i + 1);
                        }
                    }
                    if flags.0 != secret && flags.0 == Some(tokens[i + 1]) {
                        assert(tokens[i] == "--secret"@);
                    }
                }
            }
        } else if tokens[i] == "--ephemeral"@ {
            lemma_room_flags(tokens, i + 1, secret, true);
        }
    }
}

/// `/join` and `/dm` take their first argument as the target. Where no secret is itself a flag,
/// they ask for an ephemeral room if and only if `--ephemeral` is among the arguments, and the
/// secret is what stands behind the last `--secret`; without one they are refused.
pub proof fn law_secret_arguments(tokens: Seq<Seq<char>>)
    requires
        tokens.len() > 0,
        tokens[0] == "/join"@ || tokens[0] == "/dm"@,
        plain_secrets(tokens),
    ensures
        parsed_tokens(tokens) matches Ok(command) ==> {
            let (target, secret, ephemeral) = match command {
                UserCommandView::Join { room_id, secret, ephemeral } => (room_id, secret, ephemeral),
                UserCommandView::DirectMessage { peer_id, secret, ephemeral } => (
                    peer_id,
                    secret,
                    ephemeral,
                ),
                _ => arbitrary(),
            };
            &&& command is Join <==> tokens[0] == "/join"@
            &&& command is DirectMessage <==> tokens[0] == "/dm"@
            &&& tokens.len() > 1 && target == tokens[1]
            &&& ephemeral <==> exists|k: int|
                2 <= k < tokens.len() && #[trigger] tokens[k] == "--ephemeral"@
            &&& exists|k: int|
                2 <= k && k + 1 < tokens.len() && #[trigger] tokens[k] == "--secret"@ && secret
                    == tokens[k + 1]
            &&& forall|k: int|
                {
                    &&& 2 <= k && k + 1 < tokens.len()
                    &&& #[trigger] tokens[k] == "--secret"@
                    &&& forall|m: int| k < m < tokens.len() ==> #[trigger] tokens[m] != "--secret"@
                } ==> secret == tokens[k + 1]
        },
{
    lemma_words_differ();
    lemma_room_flags(tokens, 2, None, false);
}

/// A room is joined under a secret, for good or not, wherever `--ephemeral` stands.
pub proof fn law_join_and_dm_are_accepted(target: Seq<char>, secret: Seq<char>)
    ensures
        parsed_tokens(seq!["/join"@, target, "--secret"@, secret]) == ParseOutcome::Ok(
            UserCommandView::Join { room_id: target, secret, ephemeral: false },
        ),
        parsed_tokens(seq!["/join"@, target, "--secret"@, secret, "--ephemeral"@])
            == ParseOutcome::Ok(
            UserCommandView::Join { room_id: target, secret, ephemeral: true },
        ),
        parsed_tokens(seq!["/join"@, target, "--ephemeral"@, "--secret"@, secret])
            == ParseOutcome::Ok(
            UserCommandView::Join { room_id: target, secret, ephemeral: true },
        ),
        parsed_tokens(seq!["/dm"@, target, "--secret"@, secret]) == ParseOutcome::Ok(
            UserCommandView::DirectMessage { peer_id: target, secret, ephemeral: false },
        ),
        parsed_tokens(seq!["/dm"@, target, "--secret"@, secret, "--ephemeral"@])
            == ParseOutcome::Ok(
            UserCommandView::DirectMessage { peer_id: target, secret, ephemeral: true },
        ),
        parsed_tokens(seq!["/dm"@, target, "--ephemeral"@, "--secret"@, secret])
            == ParseOutcome::Ok(
            UserCommandView::DirectMessage { peer_id: target, secret, ephemeral: true },
        ),
        parsed_tokens(seq!["/join"@, target]) == ParseOutcome::Err(
            CommandParseErrorView::MissingFlag("--secret"@),
        ),
        parsed_tokens(seq!["/dm"@, target, "--ephemeral"@]) == ParseOutcome::Err(
            CommandParseErrorView::MissingFlag("--secret"@),
        ),
{
    lemma_words_differ();
    reveal_with_fuel(room_flags, 4);
}

/// The words of the commands differ in their length or in a character.
proof fn lemma_words_differ()
    ensures
        "/identity"@.len() == 9 && "/identity"@[1] == 'i' && "/identity"@[2] == 'd',
        "/login"@.len() == 6 && "/login"@[1] == 'l' && "/login"@[2] == 'o',
        "/connect"@.len() == 8 && "/connect"@[1] == 'c' && "/connect"@[2] == 'o',
        "/connect-peer"@.len() == 13 && "/connect-peer"@[1] == 'c' && "/connect-peer"@[2] == 'o',
        "/resolve-peer"@.len() == 13 && "/resolve-peer"@[1] == 'r' && "/resolve-peer"@[2] == 'e',
        "/invite"@.len() == 7 && "/invite"@[1] == 'i' && "/invite"@[2] == 'n',
        "/accept-invite"@.len() == 14 && "/accept-invite"@[1] == 'a' && "/accept-invite"@[2] == 'c',
        "/reject-invite"@.len() == 14 && "/reject-invite"@[1] == 'r' && "/reject-invite"@[2] == 'e',
        "/join"@.len() == 5 && "/join"@[1] == 'j' && "/join"@[2] == 'o',
        "/dm"@.len() == 3 && "/dm"@[1] == 'd' && "/dm"@[2] == 'm',
        "/create-room"@.len() == 12 && "/create-room"@[1] == 'c' && "/create-room"@[2] == 'r',
        "/room"@.len() == 5 && "/room"@[1] == 'r' && "/room"@[2] == 'o',
        "/history"@.len() == 8 && "/history"@[1] == 'h' && "/history"@[2] == 'i',
        "/trust"@.len() == 6 && "/trust"@[1] == 't' && "/trust"@[2] == 'r',
        "/policy"@.len() == 7 && "/policy"@[1] == 'p' && "/policy"@[2] == 'o',
        "/debug"@.len() == 6 && "/debug"@[1] == 'd' && "/debug"@[2] == 'e',
        "/whoami"@.len() == 7 && "/whoami"@[1] == 'w' && "/whoami"@[2] == 'h',
        "/peers"@.len() == 6 && "/peers"@[1] == 'p' && "/peers"@[2] == 'e',
        "/invites"@.len() == 8 && "/invites"@[1] == 'i' && "/invites"@[2] == 'n',
        "/rooms"@.len() == 6 && "/rooms"@[1] == 'r' && "/rooms"@[2] == 'o',
        "/status"@.len() == 7 && "/status"@[1] == 's' && "/status"@[2] == 't',
        "/doctor"@.len() == 7 && "/doctor"@[1] == 'd' && "/doctor"@[2] == 'o',
        "/clear"@.len() == 6 && "/clear"@[1] == 'c' && "/clear"@[2] == 'l',
        "/help"@.len() == 5 && "/help"@[1] == 'h' && "/help"@[2] == 'e',
        "/quit"@.len() == 5 && "/quit"@[1] == 'q' && "/quit"@[2] == 'u',
        "/exit"@.len() == 5 && "/exit"@[1] == 'e' && "/exit"@[2] == 'x',
        "--secret"@.len() == 8,
        "--ephemeral"@.len() == 11,
{
    reveal_strlit("/identity");
    reveal_strlit("/login");
    reveal_strlit("/connect");
    reveal_strlit("/connect-peer");
    reveal_strlit("/resolve-peer");
    reveal_strlit("/invite");
    reveal_strlit("/accept-invite");
    reveal_strlit("/reject-invite");
    reveal_strlit("/join");
    reveal_strlit("/dm");
    reveal_strlit("/create-room");
    reveal_strlit("/room");
    reveal_strlit("/history");
    reveal_strlit("/trust");
    reveal_strlit("/policy");
    reveal_strlit("/debug");
    reveal_strlit("/whoami");
    reveal_strlit("/peers");
    reveal_strlit("/invites");
    reveal_strlit("/rooms");
    reveal_strlit("/status");
    reveal_strlit("/doctor");
    reveal_strlit("/clear");
    reveal_strlit("/help");
    reveal_strlit("/quit");
    reveal_strlit("/exit");
    reveal_strlit("--secret");
    reveal_strlit("--ephemeral");
}

/// Each command with one argument is recognised by its word, and by nothing else, and carries its
/// argument.
pub proof fn law_commands_with_one_argument(tokens: Seq<Seq<char>>, x: Seq<char>)
    ensures
        parsed_tokens(tokens) == ParseOutcome::Ok(UserCommandView::Login { alias: x }) <==> tokens
            =~= seq!["/login"@, x],
        parsed_tokens(tokens) == ParseOutcome::Ok(UserCommandView::Connect { multiaddr: x }) <==> tokens
            =~= seq!["/connect"@, x],
        parsed_tokens(tokens) == ParseOutcome::Ok(UserCommandView::ConnectPeer { query: x }) <==> tokens
            =~= seq!["/connect-peer"@, x],
        parsed_tokens(tokens) == ParseOutcome::Ok(UserCommandView::ResolvePeer { query: x }) <==> tokens
            =~= seq!["/resolve-peer"@, x],
        parsed_tokens(tokens) == ParseOutcome::Ok(UserCommandView::Invite { peer_id: x }) <==> tokens
            =~= seq!["/invite"@, x],
        parsed_tokens(tokens) == ParseOutcome::Ok(UserCommandView::AcceptInvite { invite_id: x }) <==> tokens
            =~= seq!["/accept-invite"@, x],
        parsed_tokens(tokens) == ParseOutcome::Ok(UserCommandView::RejectInvite { invite_id: x }) <==> tokens
            =~= seq!["/reject-invite"@, x],
        parsed_tokens(tokens) == ParseOutcome::Ok(UserCommandView::IdentityCreate { alias: x })
            <==> tokens =~= seq!["/identity"@, "create"@, x],
        parsed_tokens(tokens) == ParseOutcome::Ok(UserCommandView::RoomAddPeer { peer_id: x })
            <==> tokens =~= seq!["/room"@, "add-peer"@, x],
        parsed_tokens(tokens) == ParseOutcome::Ok(
            UserCommandView::Trust { action: TrustCommandView::Remove { peer_id: x } },
        ) <==> tokens =~= seq!["/trust"@, "remove"@, x],
        parsed_tokens(tokens) == ParseOutcome::Ok(
            UserCommandView::Trust { action: TrustCommandView::Add { peer_id: x } },
        ) <==> tokens =~= seq!["/trust"@, x] && x != "list"@ && x != "remove"@,
{
    lemma_words_differ();
    lemma_options_differ();
    lemma_other_shapes(tokens);
}

/// Each command without an argument of its own is recognised by its words, and by nothing else.
pub proof fn law_commands_without_arguments(tokens: Seq<Seq<char>>)
    ensures
        parsed_tokens(tokens) == ParseOutcome::Ok(UserCommandView::Whoami) <==> tokens =~= seq!["/whoami"@],
        parsed_tokens(tokens) == ParseOutcome::Ok(UserCommandView::Peers) <==> tokens =~= seq!["/peers"@],
        parsed_tokens(tokens) == ParseOutcome::Ok(UserCommandView::Invites) <==> tokens =~= seq!["/invites"@],
        parsed_tokens(tokens) == ParseOutcome::Ok(UserCommandView::Rooms) <==> tokens =~= seq!["/rooms"@],
        parsed_tokens(tokens) == ParseOutcome::Ok(UserCommandView::Status) <==> tokens =~= seq!["/status"@],
        parsed_tokens(tokens) == ParseOutcome::Ok(UserCommandView::Doctor) <==> tokens =~= seq!["/doctor"@],
        parsed_tokens(tokens) == ParseOutcome::Ok(UserCommandView::Clear) <==> tokens =~= seq!["/clear"@],
        parsed_tokens(tokens) == ParseOutcome::Ok(UserCommandView::Help) <==> tokens =~= seq!["/help"@],
        parsed_tokens(tokens) == ParseOutcome::Ok(UserCommandView::Quit) <==> tokens =~= seq![
            "/quit"@,
        ] || tokens =~= seq!["/exit"@],
        parsed_tokens(tokens) == ParseOutcome::Ok(UserCommandView::RoomPeers) <==> tokens =~= seq![
            "/room"@,
            "peers"@,
        ],
        parsed_tokens(tokens) == ParseOutcome::Ok(
            UserCommandView::Trust { action: TrustCommandView::List },
        ) <==> tokens =~= seq!["/trust"@, "list"@],
        parsed_tokens(tokens) == ParseOutcome::Ok(
            UserCommandView::Policy { action: PolicyCommandView::Show },
        ) <==> tokens =~= seq!["/policy"@],
        parsed_tokens(tokens) == ParseOutcome::Ok(
            UserCommandView::Policy { action: PolicyCommandView::Strict },
        ) <==> tokens =~= seq!["/policy"@, "strict"@],
        parsed_tokens(tokens) == ParseOutcome::Ok(
            UserCommandView::Policy { action: PolicyCommandView::Relaxed },
        ) <==> tokens =~= seq!["/policy"@, "relaxed"@],
        parsed_tokens(tokens) == ParseOutcome::Ok(UserCommandView::History { enabled: true })
            <==> tokens =~= seq!["/history"@, "on"@],
        parsed_tokens(tokens) == ParseOutcome::Ok(UserCommandView::History { enabled: false })
            <==> tokens =~= seq!["/history"@, "off"@],
        parsed_tokens(tokens) == ParseOutcome::Ok(UserCommandView::Debug { enabled: true })
            <==> tokens =~= seq!["/debug"@, "on"@],
        parsed_tokens(tokens) == ParseOutcome::Ok(UserCommandView::Debug { enabled: false })
            <==> tokens =~= seq!["/debug"@, "off"@],
{
    lemma_words_differ();
    lemma_options_differ();
    lemma_other_shapes(tokens);
}

/// The words behind the commands differ.
proof fn lemma_options_differ()
    ensures
        "on"@.len() == 2,
        "off"@.len() == 3,
        "list"@.len() == 4,
        "remove"@.len() == 6,
        "strict"@.len() == 6,
        "relaxed"@.len() == 7,
        "create"@.len() == 6,
        "add-peer"@.len() == 8,
        "peers"@.len() == 5,
{
    reveal_strlit("on");
    reveal_strlit("off");
    reveal_strlit("list");
    reveal_strlit("remove");
    reveal_strlit("strict");
    reveal_strlit("relaxed");
    reveal_strlit("create");
    reveal_strlit("add-peer");
    reveal_strlit("peers");
}

/// What `/create-room`, `/join` and `/dm` give is of their own kind.
proof fn lemma_other_shapes(tokens: Seq<Seq<char>>)
    ensures
        create_room_command(tokens, 1, None, false) matches Ok(command) ==> command is CreateRoom,
        join_command(tokens) matches Ok(command) ==> command is Join,
        dm_command(tokens) matches Ok(command) ==> command is DirectMessage,
{
    lemma_create_room(tokens, 1, None, false);
}

/// An argument that `/create-room` knows: the flag, or a room id, which does not look like a flag.
pub open spec fn room_argument(token: Seq<char>) -> bool {
    token == "--ephemeral"@ || !"--"@.is_prefix_of(token)
}

/// What the rest of a `/create-room` line is accepted with.
proof fn lemma_create_room_accepted(
    tokens: Seq<Seq<char>>,
    i: int,
    room_id: Option<Seq<char>>,
    ephemeral: bool,
)
    requires
        0 <= i <= tokens.len(),
    ensures
        create_room_command(tokens, i, room_id, ephemeral) is Ok <==> {
            &&& forall|k: int| i <= k < tokens.len() ==> room_argument(#[trigger] tokens[k])
            &&& forall|k: int, m: int|
                i <= k < m < tokens.len() && #[trigger] tokens[k] != "--ephemeral"@
                    && #[trigger] tokens[m] != "--ephemeral"@ ==> false
            &&& room_id is Some ==> forall|k: int|
                i <= k < tokens.len() ==> #[trigger] tokens[k] == "--ephemeral"@
        },
    decreases tokens.len() - i,
{
    if i < tokens.len() {
        if tokens[i] == "--ephemeral"@ {
            lemma_create_room_accepted(tokens, i + 1, room_id, true);
        } else if !"--"@.is_prefix_of(tokens[i]) && room_id is None {
            lemma_create_room_accepted(tokens, i + 1, Some(tokens[i]), ephemeral);
        }
    }
}

/// A `/create-room` line is accepted exactly if every argument is the flag or a room id, and at most
/// one is a room id.
pub proof fn law_which_create_room_lines_are_accepted(tokens: Seq<Seq<char>>)
    requires
        tokens.len() > 0,
        tokens[0] == "/create-room"@,
    ensures
        parsed_tokens(tokens) is Ok <==> {
            &&& forall|k: int| 1 <= k < tokens.len() ==> room_argument(#[trigger] tokens[k])
            &&& forall|k: int, m: int|
                1 <= k < m < tokens.len() && #[trigger] tokens[k] != "--ephemeral"@
                    && #[trigger] tokens[m] != "--ephemeral"@ ==> false
        },
{
    lemma_words_differ();
    lemma_create_room_accepted(tokens, 1, None, false);
}

/// What the flags of a room are accepted with, where `--secret` never has a flag for its value.
proof fn lemma_flags_accepted(
    tokens: Seq<Seq<char>>,
    i: int,
    secret: Option<Seq<char>>,
    ephemeral: bool,
    bad: int,
)
    requires
        2 <= i <= bad < tokens.len(),
        tokens[bad] != "--secret"@,
        tokens[bad] != "--ephemeral"@,
        bad == i || tokens[bad - 1] != "--secret"@,
    ensures
        room_flags(tokens, i, secret, ephemeral) is Err,
    decreases tokens.len() - i,
{
    if i < bad {
        if tokens[i] == "--secret"@ && i + 1 < tokens.len() {
            if i + 1 == bad {
            } else {
                lemma_flags_accepted(tokens, i + 2, Some(tokens[i + 1]), ephemeral, bad);
            }
        } else if tokens[i] == "--ephemeral"@ {
            lemma_flags_accepted(tokens, i + 1, secret, true, bad);
        }
    }
}

/// A `/join` or `/dm` line with a word behind its target that is neither a flag nor a secret is
/// refused, and so is one that ends with `--secret`.
pub proof fn law_unexpected_words_are_refused(tokens: Seq<Seq<char>>, bad: int)
    requires
        tokens.len() > 0,
        tokens[0] == "/join"@ || tokens[0] == "/dm"@,
        2 <= bad < tokens.len(),
        tokens[bad] != "--secret"@,
        tokens[bad] != "--ephemeral"@,
        tokens[bad - 1] != "--secret"@ || bad == 2,
    ensures
        parsed_tokens(tokens) is Err,
{
    lemma_words_differ();
    lemma_flags_accepted(tokens, 2, None, false, bad);
}

/// A line is read as a command: `/msg` takes the rest of the line for its text, `/help`, `/quit` and
/// `/exit` stand alone, and every other line is split into words first.
pub proof fn law_lines_are_read(input: Seq<char>, text: Seq<char>, tokens: Seq<Seq<char>>)
    ensures
        text::trimmed(input).len() == 0 ==> parsed_command(input) is Err,
        text::trimmed(input).len() > 0 && text::trimmed(input)[0] != '/' ==> parsed_command(input) is Err,
        text::trimmed(input) == "/msg "@ + text && text::trimmed(text) == text && text.len() > 0
            ==> parsed_command(input) == ParseOutcome::Ok(UserCommandView::Message { text }),
        text::trimmed(input) == "/msg"@ ==> parsed_command(input) is Err,
        text::trimmed(input) == "/help"@ ==> parsed_command(input) == ParseOutcome::Ok(
            UserCommandView::Help,
        ),
        text::trimmed(input) == "/quit"@ || text::trimmed(input) == "/exit"@ ==> parsed_command(input)
            == ParseOutcome::Ok(UserCommandView::Quit),
        ({
            let line = text::trimmed(input);
            &&& line.len() > 0 && line[0] == '/'
            &&& !"/msg"@.is_prefix_of(line)
            &&& line != "/help"@ && line != "/quit"@ && line != "/exit"@
        }) ==> {
            &&& primitives::shell_words(text::trimmed(input)) == Some(tokens) ==> parsed_command(input)
                == parsed_tokens(tokens)
            &&& primitives::shell_words(text::trimmed(input)) is None ==> parsed_command(input) is Err
        },
{
    reveal_strlit("/msg ");
    reveal_strlit("/msg");
    reveal_strlit("/help");
    reveal_strlit("/quit");
    reveal_strlit("/exit");
    let line = text::trimmed(input);
    if line == "/msg "@ + text && text::trimmed(text) == text && text.len() > 0 {
        assert(line[1] == 'm');
        assert("/help"@[1] == 'h');
        assert("/quit"@[1] == 'q');
        assert("/exit"@[1] == 'e');
        assert(line.subrange(0, 4) =~= "/msg"@);
        let rest = line.subrange(4, line.len() as int);
        assert(rest =~= seq![' '] + text);
        lemma_leading_space(text);
    }
    if line == "/msg"@ {
        assert("/help"@[1] == 'h');
        assert("/quit"@[1] == 'q');
        assert("/exit"@[1] == 'e');
        assert(line.subrange(0, 4) =~= "/msg"@);
        assert(line.subrange(4, 4) =~= Seq::empty());
        text::law_trimming_cuts_only_white_space(Seq::empty());
    }
    if line == "/quit"@ {
        assert("/help"@[1] == 'h' && "/quit"@[1] == 'q');
    }
    if line == "/exit"@ {
        assert("/help"@[1] == 'h' && "/exit"@[1] == 'e');
    }
}

/// A space in front is cut.
proof fn lemma_leading_space(text: Seq<char>)
    ensures
        text::trimmed(seq![' '] + text) == text::trimmed(text),
{
    let longer = seq![' '] + text;
    assert(longer.drop_first() =~= text);
}

/// What is said of a line that is refused begins with what is wrong, which names the word that is.
pub proof fn law_refusals_name_the_word(e: CommandParseErrorView, word: Seq<char>)
    ensures
        parse_error_lines(e).len() > 0,
        parse_error_lines(e)[0] == "error: "@ + parse_error_text(e),
        e == CommandParseErrorView::UnknownCommand(word) || e
            == CommandParseErrorView::MissingArgument(word) || e
            == CommandParseErrorView::UnexpectedArgument(word) || e
            == CommandParseErrorView::MissingFlag(word) || e == CommandParseErrorView::ShellWords(
            word,
        ) ==> word.is_suffix_of(parse_error_text(e)),
        e matches CommandParseErrorView::InvalidValue { value, .. } ==> value.is_suffix_of(
            parse_error_text(e),
        ),
{
    let text = parse_error_text(e);
    match e {
        CommandParseErrorView::InvalidValue { value, .. } => {
            assert(text.subrange(text.len() - value.len(), text.len() as int) =~= value);
        },
        CommandParseErrorView::UnknownCommand(w) => {
            assert(text.subrange(text.len() - w.len(), text.len() as int) =~= w);
        },
        CommandParseErrorView::MissingArgument(w) => {
            assert(text.subrange(text.len() - w.len(), text.len() as int) =~= w);
        },
        CommandParseErrorView::UnexpectedArgument(w) => {
            assert(text.subrange(text.len() - w.len(), text.len() as int) =~= w);
        },
        CommandParseErrorView::MissingFlag(w) => {
            assert(text.subrange(text.len() - w.len(), text.len() as int) =~= w);
        },
        CommandParseErrorView::ShellWords(w) => {
            assert(text.subrange(text.len() - w.len(), text.len() as int) =~= w);
        },
        _ => {},
    }
}

} // verus!
