//! Creating and unlocking identities.

use crate::crypto;
use crate::network::P2pConfig;
use crate::network::P2pConfigView;
use crate::peer;
use crate::peer::Multiaddr;
use crate::peer::PeerId;
use crate::primitives;
use crate::reply;
use crate::reply::Reply;
use crate::reply::ReplyView;
use crate::report;
use crate::report::identity_report;
use crate::session::AppState;
use crate::session::AppStateView;
use crate::storage;
use crate::storage::CreatedIdentity;
use crate::storage::CreatedIdentityView;
use crate::storage::IdentityFiles;
use crate::storage::IdentityFilesView;
use crate::storage::IdentityStore;
use crate::storage::UnlockedIdentity;
use crate::storage::UnlockedIdentityView;
use crate::text;
use crate::text::bool_text;
use crate::text::byte_len;
use crate::text::cat2;
use crate::text::cat3;
use crate::text::copy_opt;
use crate::text::count_text;
use crate::text::Lines;
use crate::text::same_text;
use crate::trust;
use vstd::prelude::*;
use vstd::utf8::*;

verus! {

/// How many bytes a password must have.
pub const MIN_PASSWORD_LEN: usize = 8;

/// What is wrong with a new password.
pub open spec fn password_error(password: Seq<char>) -> Option<Seq<char>> {
    if encode_utf8(password).len() < MIN_PASSWORD_LEN {
        Some("password must be at least 8 characters long"@)
    } else {
        None
    }
}

/// Check a new password.
pub fn validate_new_password(password: &str) -> (res: Result<(), String>)
    ensures
        match res {
            Ok(_) => password_error(password@) is None,
            Err(e) => password_error(password@) == Some(e@),
        },
{
    if byte_len(password) < MIN_PASSWORD_LEN {
        Err("password must be at least 8 characters long".to_owned())
    } else {
        Ok(())
    }
}

/// What is wrong with a new password that was typed twice.
pub open spec fn new_password_error(password: Seq<char>, confirm: Seq<char>) -> Option<Seq<char>> {
    if password != confirm {
        Some("passwords do not match"@)
    } else {
        password_error(password)
    }
}

/// Check a new password that was typed twice.
pub fn confirm_new_password(password: &str, confirm: &str) -> (res: Result<(), String>)
    ensures
        match res {
            Ok(_) => new_password_error(password@, confirm@) is None,
            Err(e) => new_password_error(password@, confirm@) == Some(e@),
        },
{
    if !same_text(password, confirm) {
        Err("passwords do not match".to_owned())
    } else {
        validate_new_password(password)
    }
}

/// What is said where an identity cannot be created.
pub open spec fn creation_failed(alias: Seq<char>) -> ReplyView {
    reply::failed("failed to create identity '"@ + alias + "'"@)
}

/// Say that an identity cannot be created.
pub fn creation_failed_reply(alias: &str) -> (res: Reply)
    ensures
        res@ == creation_failed(alias@),
{
    Reply::fail(cat3("failed to create identity '", alias, "'"))
}

/// Create an identity. The files are to be written.
///
/// The identity can be unlocked with its password. It is created wherever the alias and the place
/// are good and the password is accepted by the rules and by the key derivation.
pub fn create_identity_with_password(
    store: &IdentityStore,
    alias: &str,
    password: &str,
    found: bool,
    now_ms: u64,
) -> (res: Result<(CreatedIdentity, IdentityFiles), Reply>)
    ensures
        match res {
            Ok((created, files)) => {
                &&& password_error(password@) is None
                &&& storage::creation_refused(alias@, found, password@) is None
                &&& created@.alias == alias@
                &&& created@.identity_dir == storage::identity_place(alias@)
                &&& files@.profile.alias == alias@
                &&& files@.profile.created_at_ms == now_ms
                &&& match storage::unlock_outcome(alias@, Some(files@), password@) {
                    Ok(identity) => identity.alias == alias@ && identity.peer_id
                        == created@.peer_id && identity.fingerprint == created@.fingerprint
                        && created@.fingerprint == crypto::fingerprint(primitives::ed25519_public(identity.signing_key))
                        && files@.profile.signing.public_key == primitives::base64_text(
                        primitives::ed25519_public(identity.signing_key),
                    ),
                    Err(_) => false,
                }
            },
            Err(reply) => match password_error(password@) {
                Some(e) => reply@ == reply::failed(e),
                None => storage::creation_refused(alias@, found, password@) is Some && reply@
                    == creation_failed(alias@),
            },
        },
{
    match validate_new_password(password) {
        Err(e) => Err(Reply::fail(e)),
        Ok(_) => match store.create_identity(alias, password, found, now_ms) {
            Ok(made) => Ok(made),
            Err(_) => Err(creation_failed_reply(alias)),
        },
    }
}

/// What is said of a new identity.
pub open spec fn created_lines(created: CreatedIdentityView, path: Seq<char>) -> Seq<Seq<char>> {
    seq![
        "created identity:"@,
        "  alias: "@ + created.alias,
        "  peer_id: "@ + created.peer_id,
        "  fingerprint: "@ + created.fingerprint,
        "  path: "@ + path,
    ]
}

/// Tell of a new identity.
pub fn created_report(created: &CreatedIdentity, path: &str) -> (res: Lines)
    ensures
        res@ == created_lines(created@, path@),
{
    let mut lines = Lines::new();
    lines.say("created identity:");
    lines.add(cat2("  alias: ", created.alias.as_str()));
    lines.add(cat2("  peer_id: ", created.peer_id.as_str()));
    lines.add(cat2("  fingerprint: ", created.fingerprint.as_str()));
    lines.add(cat2("  path: ", path));
    assert(lines@ =~= created_lines(created@, path@));
    lines
}

/// What was found where the files of an identity are kept.
pub enum IdentityRead {
    /// They are there and cannot be read.
    Unreadable,
    /// They are not there.
    Absent,
    Read(IdentityFiles),
}

/// The plain values held by a [`IdentityRead`].
#[verifier::ext_equal]
pub enum IdentityReadView {
    Unreadable,
    Absent,
    Read(IdentityFilesView),
}

impl View for IdentityRead {
    type V = IdentityReadView;

    open spec fn view(&self) -> IdentityReadView {
        match *self {
            IdentityRead::Unreadable => IdentityReadView::Unreadable,
            IdentityRead::Absent => IdentityReadView::Absent,
            IdentityRead::Read(x0) => IdentityReadView::Read(x0@),
        }
    }
}

/// What is said where an identity is unlocked already.
pub open spec fn already_unlocked() -> ReplyView {
    reply::failed("an identity is already unlocked in this process"@)
}

/// What is said where an identity cannot be unlocked.
pub open spec fn unlock_failed(alias: Seq<char>) -> ReplyView {
    reply::failed("failed to unlock identity '"@ + alias + "'"@)
}

/// The identity that a login unlocks, or what is said instead.
pub open spec fn login_outcome(
    state: AppStateView,
    alias: Seq<char>,
    password: Seq<char>,
    read: IdentityReadView,
) -> Result<UnlockedIdentityView, ReplyView> {
    if state.active_identity is Some {
        Err(already_unlocked())
    } else {
        let files = match read {
            IdentityReadView::Read(files) => Some(files),
            _ => None,
        };
        match storage::unlock_outcome(alias, files, password) {
            Ok(identity) => Ok(identity),
            Err(_) => Err(unlock_failed(alias)),
        }
    }
}

/// What a login that succeeds says first.
pub open spec fn unlocked_lines(identity: UnlockedIdentityView) -> Seq<Seq<char>> {
    seq!["unlocked identity:"@] + report::indented("  "@, report::identity_lines(identity))
}

/// What a login that succeeds says of the network.
pub open spec fn started_lines(state: AppStateView, local: Seq<char>) -> Seq<Seq<char>> {
    seq![
        "p2p runtime started:"@,
        "  local_peer_id: "@ + local,
        "  listen: "@ + peer::addr_text(state.listen_addr),
        "  relay_server: "@ + text::bool_word(state.relay_server),
        "  bootstrap peers: "@ + text::decimal(state.bootstrap_peers.len()),
    ] + (if state.bootstrap_peers.len() > 0 && !state.relay_server {
        seq!["  relay reservations will be requested after bootstrap dial"@]
    } else {
        Seq::empty()
    }) + seq!["  use /whoami after [p2p] listening appears to copy full multiaddr"@]
}

/// The state after a login. The keys that were seen before are forgotten.
pub open spec fn logged_in(
    state: AppStateView,
    identity: UnlockedIdentityView,
    local: Seq<char>,
) -> AppStateView {
    AppStateView {
        active_identity: Some(identity),
        p2p: Some(local),
        trust: trust::trust_of(identity.alias),
        session_lock_alias: Some(identity.alias),
        ..state
    }
}

impl AppState {
    /// Unlock an identity.
    pub fn login_with_password(
        &self,
        store: &IdentityStore,
        alias: &str,
        password: &str,
        read: IdentityRead,
    ) -> (res: Result<UnlockedIdentity, Reply>)
        ensures
            match res {
                Ok(identity) => login_outcome(self@, alias@, password@, read@) == Ok::<
                    UnlockedIdentityView,
                    ReplyView,
                >(identity@),
                Err(reply) => login_outcome(self@, alias@, password@, read@) == Err::<
                    UnlockedIdentityView,
                    ReplyView,
                >(reply@),
            },
    {
        if self.active_identity.is_some() {
            return Err(
                Reply::fail("an identity is already unlocked in this process".to_owned()),
            );
        }
        let files = match read {
            IdentityRead::Read(files) => Some(files),
            _ => None,
        };
        match store.unlock_identity(alias, password, files) {
            Ok(identity) => Ok(identity),
            Err(_) => Err(Reply::fail(cat3("failed to unlock identity '", alias, "'"))),
        }
    }

    /// How the network node of an identity is set up.
    pub fn network_config(&self, alias: &str) -> (res: P2pConfig)
        ensures
            res@ == (P2pConfigView {
                listen_addr: self@.listen_addr,
                bootstrap_peers: self@.bootstrap_peers,
                relay_server: self@.relay_server,
                external_addrs: self@.external_addrs,
                identity_alias: Some(alias@),
            }),
    {
        P2pConfig {
            listen_addr: self.listen_addr.duplicate(),
            bootstrap_peers: Multiaddr::duplicate_all(&self.bootstrap_peers),
            relay_server: self.relay_server,
            external_addrs: Multiaddr::duplicate_all(&self.external_addrs),
            identity_alias: Some(alias.to_owned()),
        }
    }

    /// End a login, with the peer id of the network node if it could be started. If it could not,
    /// nothing changes, and the session lock is to be released.
    pub fn finish_login(&mut self, identity: UnlockedIdentity, started: Option<PeerId>) -> (res:
        Reply)
        ensures
            match started {
                Some(local) => final(self)@ == logged_in(old(self)@, identity@, local@) && res@
                    == reply::printed(unlocked_lines(identity@) + started_lines(old(self)@, local@)),
                None => final(self)@ == old(self)@ && res@ == (ReplyView {
                    lines: unlocked_lines(identity@),
                    error: Some("failed to start libp2p runtime"@),
                }),
            },
    {
        let mut lines = Lines::new();
        lines.say("unlocked identity:");
        lines.extend(&identity_report("  ", &identity));
        assert(lines@ =~= unlocked_lines(identity@));
        match started {
            None => Reply { lines, error: Some("failed to start libp2p runtime".to_owned()) },
            Some(local) => {
                lines.extend(&self.started_report(local.as_text()));
                self.trust.login(identity.alias.as_str());
                self.session_lock_alias = Some(identity.alias.clone());
                self.p2p = Some(local);
                self.active_identity = Some(identity);
                Reply::print(lines)
            },
        }
    }

    /// Tell of a network node that started.
    fn started_report(&self, local: &str) -> (res: Lines)
        ensures
            res@ == started_lines(self@, local@),
    {
        let mut lines = Lines::new();
        lines.say("p2p runtime started:");
        lines.add(cat2("  local_peer_id: ", local));
        lines.add(cat2("  listen: ", self.listen_addr.to_text().as_str()));
        lines.add(cat2("  relay_server: ", bool_text(self.relay_server)));
        lines.add(cat2("  bootstrap peers: ", count_text(self.bootstrap_peers.len()).as_str()));
        if self.bootstrap_peers.len() > 0 && !self.relay_server {
            lines.say("  relay reservations will be requested after bootstrap dial");
        }
        lines.say("  use /whoami after [p2p] listening appears to copy full multiaddr");
        assert(lines@ =~= started_lines(self@, local@));
        lines
    }

    /// The alias whose session lock is to be released at the end, if one is held.
    pub fn take_session_lock(&mut self) -> (res: Option<String>)
        ensures
            text::opt_text(res) == old(self)@.session_lock_alias,
            final(self)@ == (AppStateView { session_lock_alias: None, ..old(self)@ }),
    {
        let alias = copy_opt(&self.session_lock_alias);
        self.session_lock_alias = None;
        alias
    }
}

/// What is said where the session lock of an identity cannot be taken.
pub open spec fn lock_failed(alias: Seq<char>) -> ReplyView {
    reply::failed("failed to acquire session lock for identity '"@ + alias + "'"@)
}

/// Say that the session lock of an identity cannot be taken.
pub fn lock_failed_reply(alias: &str) -> (res: Reply)
    ensures
        res@ == lock_failed(alias@),
{
    Reply::fail(cat3("failed to acquire session lock for identity '", alias, "'"))
}

/// No identity replaces another in one process: while one is unlocked, every login is refused.
pub proof fn law_one_identity_per_process(
    state: AppStateView,
    identity: UnlockedIdentityView,
    local: Seq<char>,
    alias: Seq<char>,
    password: Seq<char>,
    read: IdentityReadView,
)
    ensures
        login_outcome(logged_in(state, identity, local), alias, password, read) == Err::<
            UnlockedIdentityView,
            ReplyView,
        >(already_unlocked()),
{
}

/// A new password is taken exactly if it was typed the same twice and has eight bytes at least.
pub proof fn law_new_passwords(password: Seq<char>, confirm: Seq<char>)
    ensures
        new_password_error(password, confirm) is None <==> password == confirm && encode_utf8(
            password,
        ).len() >= 8,
{
}

/// A login succeeds exactly where nobody is logged in and the files of the identity open with the
/// password, and it gives the identity that they hold.
pub proof fn law_who_can_log_in(
    state: AppStateView,
    alias: Seq<char>,
    password: Seq<char>,
    files: IdentityFilesView,
)
    ensures
        ({
            let outcome = login_outcome(state, alias, password, IdentityReadView::Read(files));
            let unlocked = storage::unlock_outcome(alias, Some(files), password);
            &&& outcome is Ok <==> state.active_identity is None && unlocked is Ok
            &&& outcome is Ok ==> outcome->Ok_0 == unlocked->Ok_0
        }),
{
}

/// A login gives the session an identity, a network node, a lock and an empty record of the keys
/// that were seen. The rooms, the invitations, the policy and the settings stay what they were.
pub proof fn law_what_a_login_changes(
    state: AppStateView,
    identity: UnlockedIdentityView,
    local: Seq<char>,
)
    ensures
        ({
            let after = logged_in(state, identity, local);
            &&& after.active_identity == Some(identity)
            &&& after.p2p == Some(local)
            &&& after.session_lock_alias == Some(identity.alias)
            &&& after.trust.identity_alias == Some(identity.alias)
            &&& after.trust.observed.dom().is_empty()
            &&& after.rooms == state.rooms
            &&& after.invites == state.invites
            &&& after.message_policy == state.message_policy
            &&& after.listen_addr == state.listen_addr
            &&& after.bootstrap_peers == state.bootstrap_peers
            &&& after.relay_server == state.relay_server
            &&& after.external_addrs == state.external_addrs
            &&& after.debug_enabled == state.debug_enabled
        }),
{
    assert(logged_in(state, identity, local).trust.observed.dom() =~= Set::empty());
}

/// What is said of a new identity and of one that is unlocked names its alias, its peer id and its
/// fingerprint, each behind its label.
pub proof fn law_identities_are_told(
    created: CreatedIdentityView,
    path: Seq<char>,
    identity: UnlockedIdentityView,
    state: AppStateView,
    local: Seq<char>,
)
    ensures
        created_lines(created, path).contains("  alias: "@ + created.alias),
        created_lines(created, path).contains("  peer_id: "@ + created.peer_id),
        created_lines(created, path).contains("  fingerprint: "@ + created.fingerprint),
        created_lines(created, path).contains("  path: "@ + path),
        unlocked_lines(identity).contains("  alias: "@ + identity.alias),
        unlocked_lines(identity).contains("  peer_id: "@ + identity.peer_id),
        unlocked_lines(identity).contains("  fingerprint: "@ + identity.fingerprint),
        started_lines(state, local).contains("  local_peer_id: "@ + local),
        started_lines(state, local).contains("  listen: "@ + peer::addr_text(state.listen_addr)),
        started_lines(state, local).contains("  relay_server: "@ + text::bool_word(state.relay_server)),
        started_lines(state, local).contains(
            "  bootstrap peers: "@ + text::decimal(state.bootstrap_peers.len()),
        ),
{
    let c = created_lines(created, path);
    assert(c[1] == "  alias: "@ + created.alias);
    assert(c[2] == "  peer_id: "@ + created.peer_id);
    assert(c[3] == "  fingerprint: "@ + created.fingerprint);
    assert(c[4] == "  path: "@ + path);
    reveal_strlit("  ");
    reveal_strlit("alias: ");
    reveal_strlit("  alias: ");
    reveal_strlit("peer_id: ");
    reveal_strlit("  peer_id: ");
    reveal_strlit("fingerprint: ");
    reveal_strlit("  fingerprint: ");
    let u = unlocked_lines(identity);
    assert("  "@ + "alias: "@ =~= "  alias: "@);
    assert("  "@ + "peer_id: "@ =~= "  peer_id: "@);
    assert("  "@ + "fingerprint: "@ =~= "  fingerprint: "@);
    assert(u[1] =~= "  alias: "@ + identity.alias);
    assert(u[2] =~= "  peer_id: "@ + identity.peer_id);
    assert(u[3] =~= "  fingerprint: "@ + identity.fingerprint);
    let s = started_lines(state, local);
    assert(s[1] == "  local_peer_id: "@ + local);
    assert(s[2] == "  listen: "@ + peer::addr_text(state.listen_addr));
    assert(s[3] == "  relay_server: "@ + text::bool_word(state.relay_server));
    assert(s[4] == "  bootstrap peers: "@ + text::decimal(state.bootstrap_peers.len()));
}

} // verus!
