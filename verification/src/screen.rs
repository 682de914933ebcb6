//! What the full-screen front end shows.

use crate::network::append_strings;
use crate::network::P2pError;
use crate::peer;
use crate::policy;
use crate::policy::PolicyMode;
use crate::reply::Reply;
use crate::reply::ReplyView;
use crate::report;
use crate::report::Diagnosis;
use crate::report::public_text;
use crate::room;
use crate::session;
use crate::session::AppState;
use crate::session::AppStateView;
use crate::session::marked_room;
use crate::swarm::P2pDiagnostics;
use crate::text;
use crate::text::bool_text;
use crate::text::byte_len;
use crate::text::cat2;
use crate::text::chars_of;
use crate::text::count_text;
use crate::text::has_prefix;
use crate::text::Lines;
use crate::text::split_lines;
use crate::tui;
use crate::tui::LOG_KEPT;
use crate::tui::TuiState;
use crate::tui::TuiStateView;
use vstd::prelude::*;
use vstd::utf8::*;

verus! {

/// How a line of the log is shown.
#[derive(Debug, Clone, Copy, PartialEq, Eq, Structural)]
pub enum LineStyle {
    Error,
    Echo,
    Plain,
}

/// How a line of the log is shown.
pub open spec fn style_of(line: Seq<char>) -> LineStyle {
    if "error:"@.is_prefix_of(line) || "parse error:"@.is_prefix_of(line) {
        LineStyle::Error
    } else if ">"@.is_prefix_of(line) {
        LineStyle::Echo
    } else {
        LineStyle::Plain
    }
}

/// How a line of the log is shown.
pub fn line_style(line: &str) -> (res: LineStyle)
    ensures
        res == style_of(line@),
{
    if has_prefix(line, "error:") || has_prefix(line, "parse error:") {
        LineStyle::Error
    } else if has_prefix(line, ">") {
        LineStyle::Echo
    } else {
        LineStyle::Plain
    }
}

/// A difference, or nothing.
pub open spec fn less(a: nat, b: nat) -> nat {
    if a > b {
        (a - b) as nat
    } else {
        0
    }
}

/// The part of the log that is shown in a frame of some height, of which two lines are border.
pub open spec fn log_window(t: TuiStateView, height: u16) -> Seq<Seq<char>> {
    let end = less(t.log.len(), t.log_scroll as nat);
    t.log.subrange(less(end, less(height as nat, 2)) as int, end as int)
}

/// The title of the log.
pub open spec fn log_title(t: TuiStateView) -> Seq<char> {
    if t.log_scroll == 0 {
        " session "@
    } else {
        " session scrolled "@
    }
}

/// The input line as it is shown: a secret is masked.
pub open spec fn shown_input(t: TuiStateView) -> Seq<char> {
    if t.secret_flow is Some {
        Seq::new(t.input.len(), |i: int| '*')
    } else {
        t.input
    }
}

/// A sum, or the greatest value.
pub open spec fn capped(a: int, b: int) -> int {
    if a + b > u16::MAX {
        u16::MAX as int
    } else {
        a + b
    }
}

/// The column of the cursor in a frame at some column, behind a prompt.
pub open spec fn cursor_column(t: TuiStateView, x: u16, prompt: Seq<char>) -> int {
    capped(
        capped(capped(x as int, 1), tui::width(prompt) as u16 as int),
        tui::typed_before(t) as u16 as int,
    )
}

/// Where the cursor is shown, if it is inside the frame.
pub open spec fn cursor_place(
    t: TuiStateView,
    x: u16,
    y: u16,
    frame_width: u16,
    prompt: Seq<char>,
) -> Option<(u16, u16)> {
    let column = cursor_column(t, x, prompt);
    if column < capped(x as int, less(frame_width as nat, 1) as int) {
        Some((column as u16, capped(y as int, 1) as u16))
    } else {
        None
    }
}

impl TuiState {
    /// The part of the log that is shown.
    pub fn visible_log(&self, height: u16) -> (res: Vec<String>)
        ensures
            text::texts(res@) == log_window(self@, height),
    {
        let visible: usize = height.saturating_sub(2) as usize;
        let end: usize = self.log.len().saturating_sub(self.log_scroll);
        let start: usize = end.saturating_sub(visible);
        let mut res: Vec<String> = Vec::new();
        let mut i: usize = start;
        while i < end
            invariant
                start <= i <= end <= self.log@.len(),
                res@.len() == i - start,
                forall|j: int| 0 <= j < i - start ==> (#[trigger] res@[j])@ == self.log@[start + j]@,
            decreases end - i,
        {
            res.push(self.log[i].clone());
            i = i + 1;
        }
        assert(text::texts(res@) =~= log_window(self@, height));
        res
    }

    /// The title of the log.
    pub fn title(&self) -> (res: &'static str)
        ensures
            res@ == log_title(self@),
    {
        if self.log_scroll == 0 {
            " session "
        } else {
            " session scrolled "
        }
    }

    /// The input line as it is shown.
    pub fn visible_input(&self) -> (res: String)
        ensures
            res@ == shown_input(self@),
    {
        if self.secret_flow.is_none() {
            return self.input.clone();
        }
        let n: usize = chars_of(self.input.as_str()).len();
        let mut res = String::new();
        let mut i: usize = 0;
        while i < n
            invariant
                i <= n,
                res@ == Seq::new(i as nat, |j: int| '*'),
            decreases n - i,
        {
            res.push('*');
            i = i + 1;
            assert(res@ =~= Seq::new(i as nat, |j: int| '*'));
        }
        assert(res@ =~= shown_input(self@));
        res
    }

    /// Where the cursor is shown.
    pub fn cursor_position(&self, x: u16, y: u16, frame_width: u16, prompt: &str) -> (res: Option<
        (u16, u16),
    >)
        requires
            tui::tui_sound(self@),
        ensures
            res == cursor_place(self@, x, y, frame_width, prompt@),
    {
        let before: usize = self.typed();
        let shown: usize = byte_len(prompt);
        let column: u16 = x.saturating_add(1).saturating_add(shown as u16).saturating_add(
            before as u16,
        );
        if column < x.saturating_add(frame_width.saturating_sub(1)) {
            Some((column, y.saturating_add(1)))
        } else {
            None
        }
    }

    /// Greet the user of the front end.
    pub fn greet(&mut self)
        ensures
            final(self)@ == tui::with_lines(old(self)@, greeting_lines()),
            tui::tui_sound(old(self)@) ==> tui::tui_sound(final(self)@),
    {
        self.push_log("dogel.bin v0.1 phase 16 TUI".to_owned());
        self.push_log(
            "type /help, /doctor, /quit; ordinary text sends to active room".to_owned(),
        );
        self.push_log("PgUp/PgDn scroll log, Up/Down browse input history".to_owned());
        proof {
            let all = greeting_lines();
            reveal_with_fuel(tui::with_lines, 4);
            assert(all.drop_last() =~= all.take(2));
            assert(all.take(2).drop_last() =~= all.take(1));
            assert(all.take(1).drop_last() =~= Seq::<Seq<char>>::empty());
        }
    }

    /// Show what a command answered.
    pub fn push_reply(&mut self, reply: &Reply)
        ensures
            final(self)@ == with_reply(old(self)@, reply@),
            tui::tui_sound(old(self)@) ==> tui::tui_sound(final(self)@),
    {
        let lines = captured_lines(&reply.lines);
        self.push_lines(&lines);
        if let Some(e) = &reply.error {
            self.push_log(cat2("error: ", e.as_str()));
        }
    }
}

/// What is shown when the front end starts.
pub open spec fn greeting_lines() -> Seq<Seq<char>> {
    seq![
        "dogel.bin v0.1 phase 16 TUI"@,
        "type /help, /doctor, /quit; ordinary text sends to active room"@,
        "PgUp/PgDn scroll log, Up/Down browse input history"@,
    ]
}

/// Printed lines without line feeds: what holds one is shown as several lines.
pub open spec fn captured(lines: Seq<Seq<char>>) -> Seq<Seq<char>>
    decreases lines.len(),
{
    if lines.len() == 0 {
        Seq::empty()
    } else {
        captured(lines.drop_last()) + text::split_on(lines.last(), '\n')
    }
}

/// Cut printed lines at line feeds.
pub fn captured_lines(lines: &Lines) -> (res: Vec<String>)
    ensures
        text::texts(res@) == captured(lines@),
{
    let items = lines.strings();
    let ghost all = lines@;
    let mut res: Vec<String> = Vec::new();
    let mut i: usize = 0;
    assert(text::texts(res@) =~= captured(all.take(0)));
    while i < items.len()
        invariant
            i <= items@.len(),
            all == text::texts(items@),
            text::texts(res@) == captured(all.take(i as int)),
        decreases items.len() - i,
    {
        append_strings(&mut res, &split_lines(items[i].as_str()));
        i = i + 1;
        assert(all.take(i as int).drop_last() =~= all.take(i - 1));
    }
    assert(all.take(i as int) =~= all);
    res
}

/// What a command answered is shown, and its error at the end.
pub open spec fn with_reply(t: TuiStateView, reply: ReplyView) -> TuiStateView {
    let shown = tui::with_lines(t, captured(reply.lines));
    match reply.error {
        Some(e) => tui::with_log(shown, "error: "@ + e),
        None => shown,
    }
}

/// What the front end shows of the state.
pub struct TuiSnapshot {
    pub alias: String,
    pub room: String,
    pub room_count: usize,
    pub peer_count: usize,
    pub trust_count: usize,
    pub invite_count: usize,
    pub relay_server: bool,
    pub relay_reservations: usize,
    pub relayed_addrs: usize,
    pub bootstrap_peers: usize,
    pub nat_status: String,
    pub public_address: String,
    pub dcutr_events: usize,
    pub policy: String,
    pub debug: bool,
}

/// The plain values held by a [`TuiSnapshot`].
#[verifier::ext_equal]
pub struct TuiSnapshotView {
    pub alias: Seq<char>,
    pub room: Seq<char>,
    pub room_count: usize,
    pub peer_count: usize,
    pub trust_count: usize,
    pub invite_count: usize,
    pub relay_server: bool,
    pub relay_reservations: usize,
    pub relayed_addrs: usize,
    pub bootstrap_peers: usize,
    pub nat_status: Seq<char>,
    pub public_address: Seq<char>,
    pub dcutr_events: usize,
    pub policy: Seq<char>,
    pub debug: bool,
}

impl View for TuiSnapshot {
    type V = TuiSnapshotView;

    open spec fn view(&self) -> TuiSnapshotView {
        TuiSnapshotView {
            alias: self.alias@,
            room: self.room@,
            room_count: self.room_count,
            peer_count: self.peer_count,
            trust_count: self.trust_count,
            invite_count: self.invite_count,
            relay_server: self.relay_server,
            relay_reservations: self.relay_reservations,
            relayed_addrs: self.relayed_addrs,
            bootstrap_peers: self.bootstrap_peers,
            nat_status: self.nat_status@,
            public_address: self.public_address@,
            dcutr_events: self.dcutr_events,
            policy: self.policy@,
            debug: self.debug,
        }
    }
}

/// What the front end shows of the state. Without a network node, or without its answer, nothing
/// is known of the network.
pub open spec fn tui_snapshot(state: AppStateView, net: Diagnosis) -> TuiSnapshotView {
    let offline = TuiSnapshotView {
        alias: match state.active_identity {
            Some(identity) => identity.alias,
            None => "no-identity"@,
        },
        room: match room::active_session(state.rooms) {
            Some(room) => session::room_mark(room),
            None => "no-room"@,
        },
        room_count: state.rooms.rooms.len() as usize,
        peer_count: 0,
        trust_count: state.trust.observed.len() as usize,
        invite_count: state.invites.pending.len() as usize,
        relay_server: state.relay_server,
        relay_reservations: 0,
        relayed_addrs: 0,
        bootstrap_peers: state.bootstrap_peers.len() as usize,
        nat_status: "unknown"@,
        public_address: "none"@,
        dcutr_events: 0,
        policy: policy::mode_word(state.message_policy.mode),
        debug: state.debug_enabled,
    };
    match (state.p2p, net) {
        (Some(_), Ok(d)) => TuiSnapshotView {
            peer_count: d.connected_peers.len() as usize,
            relay_reservations: d.relay_reservations.len() as usize,
            relayed_addrs: d.relayed_addrs.len() as usize,
            nat_status: d.nat_status,
            public_address: report::public_word(d.public_address),
            dcutr_events: d.dcutr_events.len() as usize,
            ..offline
        },
        _ => offline,
    }
}

/// Collect what the front end shows of the state.
pub fn build_tui_snapshot(state: &AppState, net: &Result<P2pDiagnostics, P2pError>) -> (res:
    TuiSnapshot)
    ensures
        res@ == tui_snapshot(state@, report::diagnosis(*net)),
{
    let mut res = TuiSnapshot {
        alias: match &state.active_identity {
            Some(identity) => identity.alias.clone(),
            None => "no-identity".to_owned(),
        },
        room: match state.rooms.active() {
            Some(room) => marked_room(room),
            None => "no-room".to_owned(),
        },
        room_count: state.rooms.rooms.len(),
        peer_count: 0,
        trust_count: state.trust.observed.len(),
        invite_count: state.invites.pending.len(),
        relay_server: state.relay_server,
        relay_reservations: 0,
        relayed_addrs: 0,
        bootstrap_peers: state.bootstrap_peers.len(),
        nat_status: "unknown".to_owned(),
        public_address: "none".to_owned(),
        dcutr_events: 0,
        policy: state.message_policy.mode_name().to_owned(),
        debug: state.debug_enabled,
    };
    if state.p2p.is_some() {
        if let Ok(d) = net {
            res.peer_count = d.connected_peers.len();
            res.relay_reservations = d.relay_reservations.len();
            res.relayed_addrs = d.relayed_addrs.len();
            res.nat_status = d.nat_status.clone();
            res.public_address = public_text(&d.public_address);
            res.dcutr_events = d.dcutr_events.len();
        }
    }
    res
}

/// A row of the sidebar.
pub struct SidebarRow {
    pub text: String,
    pub heading: bool,
}

/// The plain values held by a [`SidebarRow`].
#[verifier::ext_equal]
pub struct SidebarRowView {
    pub text: Seq<char>,
    pub heading: bool,
}

impl View for SidebarRow {
    type V = SidebarRowView;

    open spec fn view(&self) -> SidebarRowView {
        SidebarRowView {
            text: self.text@,
            heading: self.heading,
        }
    }
}

/// A heading of the sidebar.
pub open spec fn heading(text: Seq<char>) -> SidebarRowView {
    SidebarRowView { text, heading: true }
}

/// An ordinary row of the sidebar.
pub open spec fn row(text: Seq<char>) -> SidebarRowView {
    SidebarRowView { text, heading: false }
}

/// The rows of the sidebar.
pub open spec fn sidebar_rows(s: TuiSnapshotView) -> Seq<SidebarRowView> {
    seq![
        heading("Network"@),
        row("peers: "@ + text::decimal(s.peer_count as nat)),
        row("bootstrap: "@ + text::decimal(s.bootstrap_peers as nat)),
        row("relay server: "@ + text::bool_word(s.relay_server)),
        row("reservations: "@ + text::decimal(s.relay_reservations as nat)),
        row("relayed addrs: "@ + text::decimal(s.relayed_addrs as nat)),
        row("nat: "@ + s.nat_status),
        row("public: "@ + s.public_address),
        row("dcutr events: "@ + text::decimal(s.dcutr_events as nat)),
        row(""@),
        heading("State"@),
        row("rooms: "@ + text::decimal(s.room_count as nat)),
        row("invites: "@ + text::decimal(s.invite_count as nat)),
        row("trust: "@ + text::decimal(s.trust_count as nat)),
        row("debug: "@ + text::bool_word(s.debug)),
        row(""@),
        heading("Commands"@),
        row("/login <alias>"@),
        row("/whoami"@),
        row("/connect <addr>"@),
        row("/create-room --ephemeral"@),
        row("/invite <peer>"@),
        row("/doctor"@),
    ]
}

/// The views of a list of rows.
pub open spec fn row_views(rows: Seq<SidebarRow>) -> Seq<SidebarRowView> {
    rows.map_values(|x: SidebarRow| x@)
}

/// Append a row.
fn add_row(rows: &mut Vec<SidebarRow>, text: String)
    ensures
        row_views(final(rows)@) == row_views(old(rows)@).push(row(text@)),
{
    let ghost before = rows@;
    rows.push(SidebarRow { text, heading: false });
    assert(row_views(rows@) =~= row_views(before).push(row(text@)));
}

/// Append a heading.
fn add_heading(rows: &mut Vec<SidebarRow>, text: &str)
    ensures
        row_views(final(rows)@) == row_views(old(rows)@).push(heading(text@)),
{
    let ghost before = rows@;
    rows.push(SidebarRow { text: text.to_owned(), heading: true });
    assert(row_views(rows@) =~= row_views(before).push(heading(text@)));
}

/// The rows of the sidebar.
pub fn sidebar(s: &TuiSnapshot) -> (res: Vec<SidebarRow>)
    ensures
        row_views(res@) == sidebar_rows(s@),
{
    let mut rows: Vec<SidebarRow> = Vec::new();
    assert(row_views(rows@) =~= Seq::empty());
    add_heading(&mut rows, "Network");
    add_row(&mut rows, cat2("peers: ", count_text(s.peer_count).as_str()));
    add_row(&mut rows, cat2("bootstrap: ", count_text(s.bootstrap_peers).as_str()));
    add_row(&mut rows, cat2("relay server: ", bool_text(s.relay_server)));
    add_row(&mut rows, cat2("reservations: ", count_text(s.relay_reservations).as_str()));
    add_row(&mut rows, cat2("relayed addrs: ", count_text(s.relayed_addrs).as_str()));
    add_row(&mut rows, cat2("nat: ", s.nat_status.as_str()));
    add_row(&mut rows, cat2("public: ", s.public_address.as_str()));
    add_row(&mut rows, cat2("dcutr events: ", count_text(s.dcutr_events).as_str()));
    add_row(&mut rows, "".to_owned());
    add_heading(&mut rows, "State");
    add_row(&mut rows, cat2("rooms: ", count_text(s.room_count).as_str()));
    add_row(&mut rows, cat2("invites: ", count_text(s.invite_count).as_str()));
    add_row(&mut rows, cat2("trust: ", count_text(s.trust_count).as_str()));
    add_row(&mut rows, cat2("debug: ", bool_text(s.debug)));
    add_row(&mut rows, "".to_owned());
    add_heading(&mut rows, "Commands");
    add_row(&mut rows, "/login <alias>".to_owned());
    add_row(&mut rows, "/whoami".to_owned());
    add_row(&mut rows, "/connect <addr>".to_owned());
    add_row(&mut rows, "/create-room --ephemeral".to_owned());
    add_row(&mut rows, "/invite <peer>".to_owned());
    add_row(&mut rows, "/doctor".to_owned());
    assert(row_views(rows@) =~= sidebar_rows(s@));
    rows
}

/// A secret that is being typed is never shown: what is shown depends on its length alone.
pub proof fn law_secrets_are_masked(a: TuiStateView, b: TuiStateView)
    requires
        a.secret_flow is Some,
        b.secret_flow is Some,
        a.input.len() == b.input.len(),
    ensures
        shown_input(a) == shown_input(b),
{
}

/// The log is shown up to its end where it is not scrolled, and as many lines before as fit: the
/// k-th shown line from the bottom is the k-th newest. Scrolling by some lines leaves out as many
/// of the newest.
pub proof fn law_the_end_of_the_log_is_shown(t: TuiStateView, height: u16, k: int)
    requires
        tui::tui_sound(t),
        1 <= k <= log_window(t, height).len(),
    ensures
        ({
            let shown = log_window(t, height);
            &&& shown[shown.len() - k] == t.log[t.log.len() - t.log_scroll - k]
            &&& shown.len() <= height - 2
        }),
{
}

/// As much of the log is shown as fits.
pub proof fn law_the_frame_is_filled(t: TuiStateView, height: u16)
    requires
        tui::tui_sound(t),
        height >= 2,
    ensures
        log_window(t, height).len() == if t.log.len() - t.log_scroll < height - 2 {
            t.log.len() - t.log_scroll
        } else {
            height - 2
        },
{
}

/// A line that is not secret is shown as it is, and a secret with a star for each character.
pub proof fn law_input_is_shown(t: TuiStateView)
    ensures
        t.secret_flow is None ==> shown_input(t) == t.input,
        t.secret_flow is Some ==> shown_input(t).len() == t.input.len() && forall|i: int|
            0 <= i < t.input.len() ==> #[trigger] shown_input(t)[i] == '*',
{
}

/// Nothing that a command answers is lost: its lines are those of the log, cut at line feeds, and
/// an error comes last.
pub proof fn law_replies_are_shown(t: TuiStateView, reply: ReplyView)
    ensures
        reply.error matches Some(e) ==> with_reply(t, reply).log.last() == "error: "@ + e,
        reply.error is None && reply.lines.len() > 0 ==> with_reply(t, reply).log.len() > 0
            && with_reply(t, reply).log.last() == text::split_on(reply.lines.last(), '\n').last(),
        with_reply(t, reply).input == t.input,
        with_reply(t, reply).input_history == t.input_history,
        with_reply(t, reply).secret_flow == t.secret_flow,
{
    let cut = captured(reply.lines);
    lemma_lines_kept(t, cut);
    let shown = tui::with_lines(t, cut);
    if reply.lines.len() > 0 {
        let last = text::split_on(reply.lines.last(), '\n');
        text::lemma_split_nonempty(reply.lines.last(), '\n');
        assert(cut.last() == last.last());
    }
    if let Some(e) = reply.error {
        assert(tui::with_log(shown, "error: "@ + e).log.last() == "error: "@ + e);
    }
}

/// Appending lines changes the log alone, which then ends with the last of them.
proof fn lemma_lines_kept(t: TuiStateView, lines: Seq<Seq<char>>)
    ensures
        tui::with_lines(t, lines).input == t.input,
        tui::with_lines(t, lines).input_history == t.input_history,
        tui::with_lines(t, lines).secret_flow == t.secret_flow,
        lines.len() > 0 ==> tui::with_lines(t, lines).log.len() > 0 && tui::with_lines(t, lines).log.last()
            == lines.last(),
    decreases lines.len(),
{
    if lines.len() > 0 {
        lemma_lines_kept(t, lines.drop_last());
    }
}

/// The state that the front end shows is the one there is: who is unlocked, the active room, and
/// how many rooms, invites and seen keys there are; of the network what the node told, if one runs.
pub proof fn law_the_snapshot_tells_the_state(state: AppStateView, net: Diagnosis)
    requires
        state.rooms.rooms.len() <= usize::MAX,
        state.trust.observed.len() <= usize::MAX,
        state.invites.pending.len() <= usize::MAX,
        state.bootstrap_peers.len() <= usize::MAX,
        net matches Ok(d) ==> d.connected_peers.len() <= usize::MAX && d.relay_reservations.len()
            <= usize::MAX && d.relayed_addrs.len() <= usize::MAX && d.dcutr_events.len()
            <= usize::MAX,
    ensures
        ({
            let s = tui_snapshot(state, net);
            &&& state.active_identity matches Some(identity) ==> s.alias == identity.alias
            &&& s.room_count == state.rooms.rooms.len()
            &&& s.invite_count == state.invites.pending.len()
            &&& s.trust_count == state.trust.observed.len()
            &&& s.bootstrap_peers == state.bootstrap_peers.len()
            &&& s.relay_server == state.relay_server
            &&& s.debug == state.debug_enabled
            &&& state.p2p is Some && net is Ok ==> {
                let d = net->Ok_0;
                &&& s.peer_count == d.connected_peers.len()
                &&& s.relay_reservations == d.relay_reservations.len()
                &&& s.relayed_addrs == d.relayed_addrs.len()
                &&& s.dcutr_events == d.dcutr_events.len()
                &&& s.nat_status == d.nat_status
            }
            &&& state.p2p is None || net is Err ==> s.peer_count == 0 && s.relay_reservations == 0
                && s.relayed_addrs == 0 && s.dcutr_events == 0
        }),
{
}

/// Lines that are appended stand at the end of the log in their order, as far as it reaches.
proof fn lemma_lines_logged(t: TuiStateView, lines: Seq<Seq<char>>, k: int)
    requires
        1 <= k <= lines.len(),
        k <= LOG_KEPT,
    ensures
        tui::with_lines(t, lines).log.len() >= k,
        tui::with_lines(t, lines).log[tui::with_lines(t, lines).log.len() - k] == lines[lines.len() - k],
    decreases lines.len(),
{
    let init = lines.drop_last();
    let before = tui::with_lines(t, init);
    let after = tui::with_lines(t, lines);
    if k > 1 {
        lemma_lines_logged(t, init, k - 1);
        assert(init[init.len() - (k - 1)] == lines[lines.len() - k]);
    }
}

/// Every line that a command answers is shown, in order, each in pieces where it holds line feeds:
/// the last ones stand at the end of the log, before an error if there is one.
pub proof fn law_every_reply_line_is_shown(t: TuiStateView, reply: ReplyView, k: int)
    requires
        1 <= k <= captured(reply.lines).len(),
        k < LOG_KEPT,
    ensures
        ({
            let after = with_reply(t, reply);
            let shown = captured(reply.lines);
            let n = after.log.len() - if reply.error is Some {
                1int
            } else {
                0int
            };
            &&& n >= k
            &&& after.log[n - k] == shown[shown.len() - k]
        }),
{
    lemma_lines_logged(t, captured(reply.lines), k);
}

/// Lines are captured one after another, and one without a line feed as it is.
pub proof fn law_lines_are_captured_in_order(lines: Seq<Seq<char>>, line: Seq<char>)
    ensures
        captured(Seq::empty()).len() == 0,
        captured(lines.push(line)) == captured(lines) + text::split_on(line, '\n'),
        !line.contains('\n') ==> captured(lines.push(line)) == captured(lines).push(line),
{
    assert(lines.push(line).drop_last() =~= lines);
    if !line.contains('\n') {
        let empty = Seq::<char>::empty();
        text::lemma_split_more(empty, line, '\n');
        assert(empty + line =~= line);
        let none = text::split_on(empty, '\n');
        assert(none.last() + line =~= line);
        assert(text::split_on(line, '\n') =~= seq![line]);
        assert(captured(lines) + seq![line] =~= captured(lines).push(line));
    }
}

/// The sidebar shows the snapshot: of the network and of the state, each number behind its label.
pub proof fn law_the_sidebar_shows_the_snapshot(s: TuiSnapshotView)
    ensures
        ({
            let rows = sidebar_rows(s);
            &&& rows.contains(row("peers: "@ + text::decimal(s.peer_count as nat)))
            &&& rows.contains(row("bootstrap: "@ + text::decimal(s.bootstrap_peers as nat)))
            &&& rows.contains(row("relay server: "@ + text::bool_word(s.relay_server)))
            &&& rows.contains(row("reservations: "@ + text::decimal(s.relay_reservations as nat)))
            &&& rows.contains(row("relayed addrs: "@ + text::decimal(s.relayed_addrs as nat)))
            &&& rows.contains(row("nat: "@ + s.nat_status))
            &&& rows.contains(row("public: "@ + s.public_address))
            &&& rows.contains(row("dcutr events: "@ + text::decimal(s.dcutr_events as nat)))
            &&& rows.contains(row("rooms: "@ + text::decimal(s.room_count as nat)))
            &&& rows.contains(row("invites: "@ + text::decimal(s.invite_count as nat)))
            &&& rows.contains(row("trust: "@ + text::decimal(s.trust_count as nat)))
            &&& rows.contains(row("debug: "@ + text::bool_word(s.debug)))
        }),
        forall|text: Seq<char>| #![trigger row(text)] row(text).text == text && !row(text).heading,
{
    let rows = sidebar_rows(s);
    assert(rows[1] == row("peers: "@ + text::decimal(s.peer_count as nat)));
    assert(rows[2] == row("bootstrap: "@ + text::decimal(s.bootstrap_peers as nat)));
    assert(rows[3] == row("relay server: "@ + text::bool_word(s.relay_server)));
    assert(rows[4] == row("reservations: "@ + text::decimal(s.relay_reservations as nat)));
    assert(rows[5] == row("relayed addrs: "@ + text::decimal(s.relayed_addrs as nat)));
    assert(rows[6] == row("nat: "@ + s.nat_status));
    assert(rows[7] == row("public: "@ + s.public_address));
    assert(rows[8] == row("dcutr events: "@ + text::decimal(s.dcutr_events as nat)));
    assert(rows[11] == row("rooms: "@ + text::decimal(s.room_count as nat)));
    assert(rows[12] == row("invites: "@ + text::decimal(s.invite_count as nat)));
    assert(rows[13] == row("trust: "@ + text::decimal(s.trust_count as nat)));
    assert(rows[14] == row("debug: "@ + text::bool_word(s.debug)));
}

/// The snapshot names the active room, with a star where it is ephemeral, the policy and the public
/// address.
pub proof fn law_the_snapshot_names_the_room(state: AppStateView, net: Diagnosis)
    ensures
        ({
            let s = tui_snapshot(state, net);
            &&& state.active_identity is None ==> s.alias == "no-identity"@
            &&& room::active_session(state.rooms) is None ==> s.room == "no-room"@
            &&& room::active_session(state.rooms) matches Some(room) ==> s.room == room.room_id
                + if room.ephemeral {
                "*"@
            } else {
                ""@
            }
            &&& s.policy == if state.message_policy.mode == PolicyMode::Strict {
                "strict"@
            } else {
                "relaxed"@
            }
            &&& state.p2p is Some && net is Ok ==> s.public_address
                == match net->Ok_0.public_address {
                Some(addr) => peer::addr_text(addr),
                None => "none"@,
            }
            &&& state.p2p is None || net is Err ==> s.nat_status == "unknown"@
                && s.public_address == "none"@
        }),
{
}

/// Errors and echoed input stand out in the log.
pub proof fn law_lines_are_styled(rest: Seq<char>)
    ensures
        style_of("error:"@ + rest) == LineStyle::Error,
        style_of("parse error:"@ + rest) == LineStyle::Error,
        style_of(">"@ + rest) == LineStyle::Echo,
        forall|line: Seq<char>|
            line.len() > 0 && line[0] != 'e' && line[0] != 'p' && line[0] != '>' ==> #[trigger]
            style_of(line) == LineStyle::Plain,
{
    reveal_strlit("error:");
    reveal_strlit("parse error:");
    reveal_strlit(">");
    let a = "error:"@ + rest;
    assert(a.subrange(0, 6) =~= "error:"@);
    let b = "parse error:"@ + rest;
    assert(b.subrange(0, 12) =~= "parse error:"@);
    let c = ">"@ + rest;
    assert(c.subrange(0, 1) =~= ">"@);
    assert(c[0] == '>');
    assert forall|line: Seq<char>|
        line.len() > 0 && line[0] != 'e' && line[0] != 'p' && line[0] != '>' implies #[trigger]
        style_of(line) == LineStyle::Plain by {
        if "error:"@.is_prefix_of(line) {
            assert(line.subrange(0, 6)[0] == 'e');
        }
        if "parse error:"@.is_prefix_of(line) {
            assert(line.subrange(0, 12)[0] == 'p');
        }
        if ">"@.is_prefix_of(line) {
            assert(line.subrange(0, 1)[0] == '>');
        }
    }
    if "error:"@.is_prefix_of(c) {
        assert(c.subrange(0, 6)[0] == 'e');
    }
    if "parse error:"@.is_prefix_of(c) {
        assert(c.subrange(0, 12)[0] == 'p');
    }
}

/// The cursor stands one column inside the frame, behind the prompt and the characters before it, as
/// long as that fits into the frame.
pub proof fn law_the_cursor_follows_the_input(
    t: TuiStateView,
    x: u16,
    y: u16,
    frame_width: u16,
    prompt: Seq<char>,
    n: int,
)
    requires
        tui::tui_sound(t),
        tui::cursor_at(t, n),
        y < u16::MAX,
        x + 1 + tui::width(prompt) + n < x + frame_width - 1,
        x + frame_width <= u16::MAX,
    ensures
        cursor_place(t, x, y, frame_width, prompt) == Some(
            ((x + 1 + tui::width(prompt) + n) as u16, (y + 1) as u16),
        ),
{
    tui::lemma_cursor_unique(t, n);
}

/// A cursor that would stand on the frame or outside it is not shown, and the title of the log tells
/// whether its end is in sight.
pub proof fn law_no_cursor_outside_the_frame(
    t: TuiStateView,
    x: u16,
    y: u16,
    frame_width: u16,
    prompt: Seq<char>,
    n: int,
)
    requires
        tui::tui_sound(t),
        tui::cursor_at(t, n),
        x + 1 + tui::width(prompt) + n >= x + frame_width - 1,
        tui::width(prompt) <= u16::MAX,
        n <= u16::MAX,
    ensures
        frame_width > 0 ==> cursor_place(t, x, y, frame_width, prompt) is None,
        log_title(t) == " session "@ <==> t.log_scroll == 0,
{
    tui::lemma_cursor_unique(t, n);
    reveal_strlit(" session ");
    reveal_strlit(" session scrolled ");
    assert(" session "@.len() == 9);
    assert(" session scrolled "@.len() == 18);
}

} // verus!
