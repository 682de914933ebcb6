//! The arguments of the program.

use crate::crypto;
use crate::peer;
use crate::peer::Multiaddr;
use crate::peer::MultiaddrView;
use crate::primitives;
use crate::text;
use crate::text::cat2;
use crate::text::Lines;
use crate::text::same_text;
use vstd::prelude::*;

verus! {

/// How the program is started.
pub struct StartupConfig {
    pub listen_addr: Multiaddr,
    pub bootstrap_peers: Vec<Multiaddr>,
    pub relay_server: bool,
    pub external_addrs: Vec<Multiaddr>,
    pub tui: bool,
}

/// The plain values held by a [`StartupConfig`].
#[verifier::ext_equal]
pub struct StartupConfigView {
    pub listen_addr: MultiaddrView,
    pub bootstrap_peers: Seq<MultiaddrView>,
    pub relay_server: bool,
    pub external_addrs: Seq<MultiaddrView>,
    pub tui: bool,
}

impl View for StartupConfig {
    type V = StartupConfigView;

    open spec fn view(&self) -> StartupConfigView {
        StartupConfigView {
            listen_addr: self.listen_addr@,
            bootstrap_peers: self.bootstrap_peers@.map_values(|x: Multiaddr| x@),
            relay_server: self.relay_server,
            external_addrs: self.external_addrs@.map_values(|x: Multiaddr| x@),
            tui: self.tui,
        }
    }
}

/// What can be wrong with the arguments.
#[derive(Debug, Clone, PartialEq, Eq)]
pub enum StartupError {
    ListenValueMissing,
    BootstrapValueMissing,
    ExternalValueMissing,
    InvalidListen(String),
    InvalidBootstrap(String),
    InvalidExternal(String),
    BootstrapWithoutPeer(String),
    UnknownArgument(String),
}

/// The plain values held by a [`StartupError`].
#[verifier::ext_equal]
pub enum StartupErrorView {
    ListenValueMissing,
    BootstrapValueMissing,
    ExternalValueMissing,
    InvalidListen(Seq<char>),
    InvalidBootstrap(Seq<char>),
    InvalidExternal(Seq<char>),
    BootstrapWithoutPeer(Seq<char>),
    UnknownArgument(Seq<char>),
}

impl View for StartupError {
    type V = StartupErrorView;

    open spec fn view(&self) -> StartupErrorView {
        match *self {
            StartupError::ListenValueMissing => StartupErrorView::ListenValueMissing,
            StartupError::BootstrapValueMissing => StartupErrorView::BootstrapValueMissing,
            StartupError::ExternalValueMissing => StartupErrorView::ExternalValueMissing,
            StartupError::InvalidListen(x0) => StartupErrorView::InvalidListen(x0@),
            StartupError::InvalidBootstrap(x0) => StartupErrorView::InvalidBootstrap(x0@),
            StartupError::InvalidExternal(x0) => StartupErrorView::InvalidExternal(x0@),
            StartupError::BootstrapWithoutPeer(x0) => StartupErrorView::BootstrapWithoutPeer(x0@),
            StartupError::UnknownArgument(x0) => StartupErrorView::UnknownArgument(x0@),
        }
    }
}

/// What a startup error says.
pub open spec fn startup_error_text(e: StartupErrorView) -> Seq<char> {
    match e {
        StartupErrorView::ListenValueMissing => "--listen requires a multiaddr value"@,
        StartupErrorView::BootstrapValueMissing =>
            "--bootstrap requires a full multiaddr value"@,
        StartupErrorView::ExternalValueMissing =>
            "--external-addr requires a multiaddr value"@,
        StartupErrorView::InvalidListen(value) => "invalid listen multiaddr: "@ + value,
        StartupErrorView::InvalidBootstrap(value) => "invalid bootstrap multiaddr: "@ + value,
        StartupErrorView::InvalidExternal(value) => "invalid external multiaddr: "@ + value,
        StartupErrorView::BootstrapWithoutPeer(value) =>
            "--bootstrap multiaddr must include /p2p/<peer_id>: "@ + value,
        StartupErrorView::UnknownArgument(arg) => "unknown startup argument: "@ + arg,
    }
}

impl StartupError {
    /// What this error says.
    pub fn message(&self) -> (res: String)
        ensures
            res@ == startup_error_text(self@),
    {
        match self {
            StartupError::ListenValueMissing => "--listen requires a multiaddr value".to_owned(),
            StartupError::BootstrapValueMissing =>
                "--bootstrap requires a full multiaddr value".to_owned(),
            StartupError::ExternalValueMissing =>
                "--external-addr requires a multiaddr value".to_owned(),
            StartupError::InvalidListen(value) => cat2(
                "invalid listen multiaddr: ",
                value.as_str(),
            ),
            StartupError::InvalidBootstrap(value) => cat2(
                "invalid bootstrap multiaddr: ",
                value.as_str(),
            ),
            StartupError::InvalidExternal(value) => cat2(
                "invalid external multiaddr: ",
                value.as_str(),
            ),
            StartupError::BootstrapWithoutPeer(value) => cat2(
                "--bootstrap multiaddr must include /p2p/<peer_id>: ",
                value.as_str(),
            ),
            StartupError::UnknownArgument(arg) => cat2(
                "unknown startup argument: ",
                arg.as_str(),
            ),
        }
    }
}

/// What the arguments ask for.
pub enum Startup {
    /// Start the program.
    Run(StartupConfig),
    /// Show the usage and exit.
    Usage,
}

/// The plain values held by a [`Startup`].
#[verifier::ext_equal]
pub enum StartupView {
    Run(StartupConfigView),
    Usage,
}

impl View for Startup {
    type V = StartupView;

    open spec fn view(&self) -> StartupView {
        match *self {
            Startup::Run(x0) => StartupView::Run(x0@),
            Startup::Usage => StartupView::Usage,
        }
    }
}

/// What has been read of the arguments.
struct Draft {
    listen: String,
    bootstraps: Vec<Multiaddr>,
    externals: Vec<Multiaddr>,
    relay_server: bool,
    tui: bool,
}

/// The plain values of what has been read of the arguments.
#[verifier::ext_equal]
pub struct DraftView {
    pub listen: Seq<char>,
    pub bootstraps: Seq<MultiaddrView>,
    pub externals: Seq<MultiaddrView>,
    pub relay_server: bool,
    pub tui: bool,
}

impl View for Draft {
    type V = DraftView;

    closed spec fn view(&self) -> DraftView {
        DraftView {
            listen: self.listen@,
            bootstraps: peer::addr_views(self.bootstraps@),
            externals: peer::addr_views(self.externals@),
            relay_server: self.relay_server,
            tui: self.tui,
        }
    }
}

/// What reading the arguments gives.
pub type StartupOutcome = Result<StartupView, StartupErrorView>;

/// Where a node listens if nothing else is said.
pub open spec fn default_listen_addr() -> Seq<char> {
    "/ip4/0.0.0.0/tcp/7777"@
}

/// Nothing has been read yet.
pub open spec fn empty_draft() -> DraftView {
    DraftView {
        listen: default_listen_addr(),
        bootstraps: Seq::empty(),
        externals: Seq::empty(),
        relay_server: false,
        tui: false,
    }
}

/// All arguments have been read.
pub open spec fn draft_done(draft: DraftView) -> StartupOutcome {
    match primitives::multiaddr_parts(draft.listen) {
        Some(listen_addr) => Ok(
            StartupView::Run(
                StartupConfigView {
                    listen_addr,
                    bootstrap_peers: draft.bootstraps,
                    relay_server: draft.relay_server,
                    external_addrs: draft.externals,
                    tui: draft.tui,
                },
            ),
        ),
        None => Err(StartupErrorView::InvalidListen(draft.listen)),
    }
}

/// What the arguments ask for, in addition to what has been read.
pub open spec fn startup_from(args: Seq<Seq<char>>, draft: DraftView) -> StartupOutcome
    decreases args.len(),
{
    if args.len() == 0 {
        draft_done(draft)
    } else if args[0] == "--listen"@ {
        if args.len() < 2 {
            Err(StartupErrorView::ListenValueMissing)
        } else {
            startup_from(args.skip(2), DraftView { listen: args[1], ..draft })
        }
    } else if args[0] == "--bootstrap"@ {
        if args.len() < 2 {
            Err(StartupErrorView::BootstrapValueMissing)
        } else {
            match primitives::multiaddr_parts(args[1]) {
                None => Err(StartupErrorView::InvalidBootstrap(args[1])),
                Some(addr) => if peer::addr_peer(addr) is None {
                    Err(StartupErrorView::BootstrapWithoutPeer(args[1]))
                } else {
                    startup_from(
                        args.skip(2),
                        DraftView { bootstraps: draft.bootstraps.push(addr), ..draft },
                    )
                },
            }
        }
    } else if args[0] == "--relay-server"@ {
        startup_from(args.skip(1), DraftView { relay_server: true, ..draft })
    } else if args[0] == "--external-addr"@ {
        if args.len() < 2 {
            Err(StartupErrorView::ExternalValueMissing)
        } else {
            match primitives::multiaddr_parts(args[1]) {
                None => Err(StartupErrorView::InvalidExternal(args[1])),
                Some(addr) => startup_from(
                    args.skip(2),
                    DraftView { externals: draft.externals.push(addr), ..draft },
                ),
            }
        }
    } else if args[0] == "--tui"@ {
        startup_from(args.skip(1), DraftView { tui: true, ..draft })
    } else if args[0] == "--help"@ || args[0] == "-h"@ {
        Ok(StartupView::Usage)
    } else {
        Err(StartupErrorView::UnknownArgument(args[0]))
    }
}

/// Append an address.
fn push_addr(addrs: &mut Vec<Multiaddr>, addr: Multiaddr)
    ensures
        peer::addr_views(final(addrs)@) == peer::addr_views(old(addrs)@).push(addr@),
{
    let ghost before = addrs@;
    addrs.push(addr);
    assert(peer::addr_views(addrs@) =~= peer::addr_views(before).push(addr@));
}

/// Read the arguments of the program.
pub fn parse_startup_config_from(args: &Vec<String>) -> (res: Result<Startup, StartupError>)
    ensures
        match res {
            Ok(startup) => startup_from(text::texts(args@), empty_draft()) == StartupOutcome::Ok(
                startup@,
            ),
            Err(e) => startup_from(text::texts(args@), empty_draft()) == StartupOutcome::Err(e@),
        },
{
    let ghost all = text::texts(args@);
    let mut draft = Draft {
        listen: "/ip4/0.0.0.0/tcp/7777".to_owned(),
        bootstraps: Vec::new(),
        externals: Vec::new(),
        relay_server: false,
        tui: false,
    };
    let mut i: usize = 0;
    proof {
        assert(draft@ =~= empty_draft());
        assert(all.skip(0) =~= all);
    }
    while i < args.len()
        invariant
            i <= args@.len(),
            all == text::texts(args@),
            startup_from(all.skip(i as int), draft@) == startup_from(all, empty_draft()),
        decreases args.len() - i,
    {
        let arg = args[i].as_str();
        let has_value = args.len() - i >= 2;
        proof {
            let rest = all.skip(i as int);
            assert(rest[0] == arg@);
            assert(rest.skip(1) =~= all.skip(i + 1));
            if has_value {
                assert(rest[1] == args@[i + 1]@);
                assert(rest.skip(2) =~= all.skip(i + 2));
            }
        }
        if same_text(arg, "--listen") {
            if !has_value {
                return Err(StartupError::ListenValueMissing);
            }
            draft.listen = args[i + 1].clone();
            i = i + 2;
        } else if same_text(arg, "--bootstrap") {
            if !has_value {
                return Err(StartupError::BootstrapValueMissing);
            }
            match Multiaddr::parse(args[i + 1].as_str()) {
                Some(addr) => {
                    if addr.peer().is_none() {
                        return Err(StartupError::BootstrapWithoutPeer(args[i + 1].clone()));
                    }
                    push_addr(&mut draft.bootstraps, addr);
                },
                None => {
                    return Err(StartupError::InvalidBootstrap(args[i + 1].clone()));
                },
            }
            i = i + 2;
        } else if same_text(arg, "--relay-server") {
            draft.relay_server = true;
            i = i + 1;
        } else if same_text(arg, "--external-addr") {
            if !has_value {
                return Err(StartupError::ExternalValueMissing);
            }
            match Multiaddr::parse(args[i + 1].as_str()) {
                Some(addr) => {
                    push_addr(&mut draft.externals, addr);
                },
                None => {
                    return Err(StartupError::InvalidExternal(args[i + 1].clone()));
                },
            }
            i = i + 2;
        } else if same_text(arg, "--tui") {
            draft.tui = true;
            i = i + 1;
        } else if same_text(arg, "--help") || same_text(arg, "-h") {
            return Ok(Startup::Usage);
        } else {
            return Err(StartupError::UnknownArgument(arg.to_owned()));
        }
    }
    match Multiaddr::parse(draft.listen.as_str()) {
        Some(listen_addr) => Ok(
            Startup::Run(
                StartupConfig {
                    listen_addr,
                    bootstrap_peers: draft.bootstraps,
                    relay_server: draft.relay_server,
                    external_addrs: draft.externals,
                    tui: draft.tui,
                },
            ),
        ),
        None => Err(StartupError::InvalidListen(draft.listen)),
    }
}

/// Every address of a list names a peer.
pub open spec fn all_name_peers(addrs: Seq<MultiaddrView>) -> bool {
    forall|i: int| 0 <= i < addrs.len() ==> peer::addr_peer(#[trigger] addrs[i]) is Some
}

/// A program that starts knows a peer id for each of its bootstrap peers, and a relay stays a
/// relay whatever follows.
pub proof fn law_bootstrap_peers_are_named(args: Seq<Seq<char>>, draft: DraftView)
    requires
        all_name_peers(draft.bootstraps),
    ensures
        match startup_from(args, draft) {
            Ok(StartupView::Run(config)) => all_name_peers(config.bootstrap_peers) && (
            draft.relay_server ==> config.relay_server),
            _ => true,
        },
    decreases args.len(),
{
    if args.len() == 0 {
    } else if args[0] == "--listen"@ {
        if args.len() >= 2 {
            law_bootstrap_peers_are_named(
                args.skip(2),
                DraftView { listen: args[1], ..draft },
            );
        }
    } else if args[0] == "--bootstrap"@ {
        if args.len() >= 2 {
            if let Some(addr) = primitives::multiaddr_parts(args[1]) {
                if peer::addr_peer(addr) is Some {
                    law_bootstrap_peers_are_named(
                        args.skip(2),
                        DraftView { bootstraps: draft.bootstraps.push(addr), ..draft },
                    );
                }
            }
        }
    } else if args[0] == "--relay-server"@ {
        law_bootstrap_peers_are_named(args.skip(1), DraftView { relay_server: true, ..draft });
    } else if args[0] == "--external-addr"@ {
        if args.len() >= 2 {
            if let Some(addr) = primitives::multiaddr_parts(args[1]) {
                law_bootstrap_peers_are_named(
                    args.skip(2),
                    DraftView { externals: draft.externals.push(addr), ..draft },
                );
            }
        }
    } else if args[0] == "--tui"@ {
        law_bootstrap_peers_are_named(args.skip(1), DraftView { tui: true, ..draft });
    }
}

/// The usage of the program.
pub open spec fn usage_line() -> Seq<char> {
    "  dogel.bin [--listen <multiaddr>] [--bootstrap <multiaddr>] [--relay-server] [--external-addr <multiaddr>] [--tui]"@
}

/// What is shown for `--help`.
pub open spec fn usage_lines() -> Seq<Seq<char>> {
    seq![
        "usage:"@,
        usage_line(),
        ""@,
        "examples:"@,
        "  dogel.bin --listen /ip4/0.0.0.0/tcp/7777"@,
        "  dogel.bin --tui --listen /ip4/0.0.0.0/tcp/7778"@,
        "  dogel.bin --relay-server --listen /ip4/0.0.0.0/tcp/7777 --external-addr /ip4/<public-ip>/tcp/7777"@,
        "  dogel.bin --bootstrap /ip4/<relay-host>/tcp/7777/p2p/<relay-peer-id>"@,
    ]
}

/// What is shown for `--help`.
pub fn usage_report() -> (res: Lines)
    ensures
        res@ == usage_lines(),
{
    let mut lines = Lines::new();
    lines.say("usage:");
    lines.say(
        "  dogel.bin [--listen <multiaddr>] [--bootstrap <multiaddr>] [--relay-server] [--external-addr <multiaddr>] [--tui]",
    );
    lines.say("");
    lines.say("examples:");
    lines.say("  dogel.bin --listen /ip4/0.0.0.0/tcp/7777");
    lines.say("  dogel.bin --tui --listen /ip4/0.0.0.0/tcp/7778");
    lines.say(
        "  dogel.bin --relay-server --listen /ip4/0.0.0.0/tcp/7777 --external-addr /ip4/<public-ip>/tcp/7777",
    );
    lines.say("  dogel.bin --bootstrap /ip4/<relay-host>/tcp/7777/p2p/<relay-peer-id>");
    assert(lines@ =~= usage_lines());
    lines
}

/// What the arguments read so far leave behind: reading goes on from there.
proof fn lemma_startup_goes_on(args: Seq<Seq<char>>, more: Seq<Seq<char>>, draft: DraftView) -> (d:
    DraftView)
    requires
        startup_from(args, draft) matches Ok(StartupView::Run(_)),
    ensures
        draft_done(d) == startup_from(args, draft),
        startup_from(args + more, draft) == startup_from(more, d),
    decreases args.len(),
{
    let all = args + more;
    if args.len() == 0 {
        assert(all =~= more);
        draft
    } else {
        assert(all[0] == args[0]);
        if args.len() >= 2 {
            assert(all[1] == args[1]);
            assert(all.skip(2) =~= args.skip(2) + more);
        }
        assert(all.skip(1) =~= args.skip(1) + more);
        if args[0] == "--listen"@ {
            lemma_startup_goes_on(args.skip(2), more, DraftView { listen: args[1], ..draft })
        } else if args[0] == "--bootstrap"@ {
            let addr = primitives::multiaddr_parts(args[1])->0;
            lemma_startup_goes_on(
                args.skip(2),
                more,
                DraftView { bootstraps: draft.bootstraps.push(addr), ..draft },
            )
        } else if args[0] == "--relay-server"@ {
            lemma_startup_goes_on(args.skip(1), more, DraftView { relay_server: true, ..draft })
        } else if args[0] == "--external-addr"@ {
            let addr = primitives::multiaddr_parts(args[1])->0;
            lemma_startup_goes_on(
                args.skip(2),
                more,
                DraftView { externals: draft.externals.push(addr), ..draft },
            )
        } else {
            lemma_startup_goes_on(args.skip(1), more, DraftView { tui: true, ..draft })
        }
    }
}

/// The names of the options differ.
proof fn lemma_startup_options()
    ensures
        "--listen"@ != "--bootstrap"@,
        "--listen"@ != "--relay-server"@,
        "--listen"@ != "--external-addr"@,
        "--listen"@ != "--tui"@,
        "--listen"@ != "--help"@,
        "--listen"@ != "-h"@,
        "--bootstrap"@ != "--relay-server"@,
        "--bootstrap"@ != "--external-addr"@,
        "--bootstrap"@ != "--tui"@,
        "--bootstrap"@ != "--help"@,
        "--bootstrap"@ != "-h"@,
        "--relay-server"@ != "--external-addr"@,
        "--relay-server"@ != "--tui"@,
        "--relay-server"@ != "--help"@,
        "--relay-server"@ != "-h"@,
        "--external-addr"@ != "--tui"@,
        "--external-addr"@ != "--help"@,
        "--external-addr"@ != "-h"@,
        "--tui"@ != "--help"@,
        "--tui"@ != "-h"@,
{
    reveal_strlit("--listen");
    reveal_strlit("--bootstrap");
    reveal_strlit("--relay-server");
    reveal_strlit("--external-addr");
    reveal_strlit("--tui");
    reveal_strlit("--help");
    reveal_strlit("-h");
    assert("--listen"@[2] == 'l');
    assert("--bootstrap"@[2] == 'b');
    assert("--relay-server"@[2] == 'r');
    assert("--external-addr"@[2] == 'e');
    assert("--tui"@[2] == 't');
    assert("--help"@[2] == 'h');
    assert("-h"@.len() == 2);
}

/// Without arguments a node listens at its usual address, knows no other node, and is no relay.
pub proof fn law_startup_without_arguments()
    ensures
        match startup_from(Seq::empty(), empty_draft()) {
            Ok(StartupView::Run(config)) => {
                &&& primitives::multiaddr_parts("/ip4/0.0.0.0/tcp/7777"@) == Some(config.listen_addr)
                &&& config.bootstrap_peers.len() == 0
                &&& config.external_addrs.len() == 0
                &&& !config.relay_server
                &&& !config.tui
            },
            Ok(StartupView::Usage) => false,
            Err(_) => primitives::multiaddr_parts("/ip4/0.0.0.0/tcp/7777"@) is None,
        },
{
}

/// A flag behind accepted arguments sets what it names and nothing else.
pub proof fn law_startup_flags(args: Seq<Seq<char>>, config: StartupConfigView)
    requires
        startup_from(args, empty_draft()) == StartupOutcome::Ok(StartupView::Run(config)),
    ensures
        startup_from(args.push("--tui"@), empty_draft()) == StartupOutcome::Ok(
            StartupView::Run(StartupConfigView { tui: true, ..config }),
        ),
        startup_from(args.push("--relay-server"@), empty_draft()) == StartupOutcome::Ok(
            StartupView::Run(StartupConfigView { relay_server: true, ..config }),
        ),
{
    lemma_startup_options();
    reveal_with_fuel(startup_from, 2);
    let tui = seq!["--tui"@];
    let d = lemma_startup_goes_on(args, tui, empty_draft());
    assert(args + tui =~= args.push("--tui"@));
    assert(tui.skip(1) =~= Seq::empty());
    let relay = seq!["--relay-server"@];
    let e = lemma_startup_goes_on(args, relay, empty_draft());
    assert(args + relay =~= args.push("--relay-server"@));
    assert(relay.skip(1) =~= Seq::empty());
}

/// An address behind accepted arguments is taken for what its option says, behind those that were
/// given before; the last address to listen at counts. An address that cannot be read, or that of a
/// bootstrap peer without the id of the peer, is refused.
pub proof fn law_startup_addresses(args: Seq<Seq<char>>, config: StartupConfigView, text: Seq<char>)
    requires
        startup_from(args, empty_draft()) == StartupOutcome::Ok(StartupView::Run(config)),
    ensures
        match primitives::multiaddr_parts(text) {
            Some(addr) => {
                &&& startup_from(args + seq!["--listen"@, text], empty_draft())
                    == StartupOutcome::Ok(
                    StartupView::Run(StartupConfigView { listen_addr: addr, ..config }),
                )
                &&& startup_from(args + seq!["--external-addr"@, text], empty_draft())
                    == StartupOutcome::Ok(
                    StartupView::Run(
                        StartupConfigView {
                            external_addrs: config.external_addrs.push(addr),
                            ..config
                        },
                    ),
                )
                &&& peer::addr_peer(addr) is Some ==> startup_from(
                    args + seq!["--bootstrap"@, text],
                    empty_draft(),
                ) == StartupOutcome::Ok(
                    StartupView::Run(
                        StartupConfigView {
                            bootstrap_peers: config.bootstrap_peers.push(addr),
                            ..config
                        },
                    ),
                )
                &&& peer::addr_peer(addr) is None ==> startup_from(
                    args + seq!["--bootstrap"@, text],
                    empty_draft(),
                ) == StartupOutcome::Err(StartupErrorView::BootstrapWithoutPeer(text))
            },
            None => {
                &&& startup_from(args + seq!["--listen"@, text], empty_draft())
                    == StartupOutcome::Err(StartupErrorView::InvalidListen(text))
                &&& startup_from(args + seq!["--external-addr"@, text], empty_draft())
                    == StartupOutcome::Err(StartupErrorView::InvalidExternal(text))
                &&& startup_from(args + seq!["--bootstrap"@, text], empty_draft())
                    == StartupOutcome::Err(StartupErrorView::InvalidBootstrap(text))
            },
        },
{
    lemma_startup_options();
    reveal_with_fuel(startup_from, 2);
    let listen = seq!["--listen"@, text];
    let bootstrap = seq!["--bootstrap"@, text];
    let external = seq!["--external-addr"@, text];
    let d = lemma_startup_goes_on(args, listen, empty_draft());
    let e = lemma_startup_goes_on(args, bootstrap, empty_draft());
    let f = lemma_startup_goes_on(args, external, empty_draft());
    assert(listen.skip(2) =~= Seq::empty());
    assert(bootstrap.skip(2) =~= Seq::empty());
    assert(external.skip(2) =~= Seq::empty());
}

/// Behind accepted arguments, an option without its value and a word that is no option are
/// refused, and a question for help is answered, whatever follows.
pub proof fn law_startup_refusals(
    args: Seq<Seq<char>>,
    config: StartupConfigView,
    word: Seq<char>,
    rest: Seq<Seq<char>>,
)
    requires
        startup_from(args, empty_draft()) == StartupOutcome::Ok(StartupView::Run(config)),
        word != "--listen"@,
        word != "--bootstrap"@,
        word != "--relay-server"@,
        word != "--external-addr"@,
        word != "--tui"@,
    ensures
        startup_from(args.push("--listen"@), empty_draft()) is Err,
        startup_from(args.push("--bootstrap"@), empty_draft()) is Err,
        startup_from(args.push("--external-addr"@), empty_draft()) is Err,
        word == "--help"@ || word == "-h"@ ==> startup_from(
            args + (seq![word] + rest),
            empty_draft(),
        ) == StartupOutcome::Ok(StartupView::Usage),
        word != "--help"@ && word != "-h"@ ==> startup_from(
            args + (seq![word] + rest),
            empty_draft(),
        ) == StartupOutcome::Err(StartupErrorView::UnknownArgument(word)),
{
    lemma_startup_options();
    let listen = seq!["--listen"@];
    let bootstrap = seq!["--bootstrap"@];
    let external = seq!["--external-addr"@];
    let other = seq![word] + rest;
    let d = lemma_startup_goes_on(args, listen, empty_draft());
    let e = lemma_startup_goes_on(args, bootstrap, empty_draft());
    let f = lemma_startup_goes_on(args, external, empty_draft());
    let g = lemma_startup_goes_on(args, other, empty_draft());
    assert(args + listen =~= args.push("--listen"@));
    assert(args + bootstrap =~= args.push("--bootstrap"@));
    assert(args + external =~= args.push("--external-addr"@));
    assert(other[0] == word);
}

/// What a startup error says ends with the argument that is wrong.
pub proof fn law_startup_errors_name_the_argument(arg: Seq<char>)
    ensures
        arg.is_suffix_of(startup_error_text(StartupErrorView::InvalidListen(arg))),
        arg.is_suffix_of(startup_error_text(StartupErrorView::InvalidBootstrap(arg))),
        arg.is_suffix_of(startup_error_text(StartupErrorView::InvalidExternal(arg))),
        arg.is_suffix_of(startup_error_text(StartupErrorView::BootstrapWithoutPeer(arg))),
        arg.is_suffix_of(startup_error_text(StartupErrorView::UnknownArgument(arg))),
{
    crypto::lemma_error_end("invalid listen multiaddr: "@, arg);
    crypto::lemma_error_end("invalid bootstrap multiaddr: "@, arg);
    crypto::lemma_error_end("invalid external multiaddr: "@, arg);
    crypto::lemma_error_end("--bootstrap multiaddr must include /p2p/<peer_id>: "@, arg);
    crypto::lemma_error_end("unknown startup argument: "@, arg);
}

} // verus!
