//! What a command answers.

use crate::text;
use crate::text::cat2;
use crate::text::Lines;
use vstd::prelude::*;

verus! {

/// Lines to print, and an error, if the command failed.
pub struct Reply {
    pub lines: Lines,
    pub error: Option<String>,
}

/// The plain values held by a [`Reply`].
#[verifier::ext_equal]
pub struct ReplyView {
    pub lines: Seq<Seq<char>>,
    pub error: Option<Seq<char>>,
}

impl View for Reply {
    type V = ReplyView;

    open spec fn view(&self) -> ReplyView {
        ReplyView { lines: self.lines@, error: text::opt_text(self.error) }
    }
}

/// An answer that consists of lines.
pub open spec fn printed(lines: Seq<Seq<char>>) -> ReplyView {
    ReplyView { lines, error: None }
}

/// An answer that consists of an error.
pub open spec fn failed(error: Seq<char>) -> ReplyView {
    ReplyView { lines: Seq::empty(), error: Some(error) }
}

impl Reply {
    /// An answer that consists of lines.
    pub fn print(lines: Lines) -> (res: Reply)
        ensures
            res@ == printed(lines@),
    {
        Reply { lines, error: None }
    }

    /// An answer that consists of an error.
    pub fn fail(error: String) -> (res: Reply)
        ensures
            res@ == failed(error@),
    {
        Reply { lines: Lines::new(), error: Some(error) }
    }
}

/// An error line with a hint of one line.
pub open spec fn hinted(error: Seq<char>, hint: Seq<char>) -> ReplyView {
    printed(seq![error, ""@, "hint:"@, hint])
}

/// An error line with a hint of one line.
pub fn hint_reply(error: &str, hint: &str) -> (res: Reply)
    ensures
        res@ == hinted(error@, hint@),
{
    let mut lines = Lines::new();
    lines.say(error);
    lines.say("");
    lines.say("hint:");
    lines.say(hint);
    assert(lines@ =~= seq![error@, ""@, "hint:"@, hint@]);
    Reply::print(lines)
}

/// The answer where no identity is unlocked.
pub open spec fn no_identity() -> ReplyView {
    hinted("error: no active identity"@, "  /login <alias>"@)
}

/// The answer where the network is not running.
pub open spec fn no_runtime() -> ReplyView {
    hinted("error: p2p runtime is not started"@, "  /login <alias>"@)
}

/// The answer where a peer is not connected.
pub open spec fn not_connected() -> ReplyView {
    hinted("error: peer is not connected"@, "  use /connect <multiaddr> first"@)
}

/// The answer where no room is active.
pub open spec fn no_room() -> ReplyView {
    hinted("error: no active room"@, "  /join 123 --secret \"shared phrase\""@)
}

/// The answer where no identity is unlocked.
pub fn no_identity_reply() -> (res: Reply)
    ensures
        res@ == no_identity(),
{
    hint_reply("error: no active identity", "  /login <alias>")
}

/// The answer where the network is not running.
pub fn no_runtime_reply() -> (res: Reply)
    ensures
        res@ == no_runtime(),
{
    hint_reply("error: p2p runtime is not started", "  /login <alias>")
}

/// The answer where a peer is not connected.
pub fn not_connected_reply() -> (res: Reply)
    ensures
        res@ == not_connected(),
{
    hint_reply("error: peer is not connected", "  use /connect <multiaddr> first")
}

/// The answer where no room is active.
pub fn no_room_reply() -> (res: Reply)
    ensures
        res@ == no_room(),
{
    hint_reply("error: no active room", "  /join 123 --secret \"shared phrase\"")
}

/// The error where the active room has no session.
pub open spec fn room_missing(room_id: Seq<char>) -> Seq<char> {
    "active room points to missing room state: "@ + room_id
}

/// The error where the active room has no session.
pub fn room_missing_text(room_id: &str) -> (res: String)
    ensures
        res@ == room_missing(room_id@),
{
    cat2("active room points to missing room state: ", room_id)
}

} // verus!
