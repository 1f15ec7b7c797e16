use crate::model::{
    channels_of, Channel, ChannelState, ChannelView, ClientInfo, SessionIdentity, UserState, Version,
};
use std::collections::HashMap;
use vstd::prelude::*;

verus! {

broadcast use vstd::std_specs::hash::group_hash_axioms;

/// Why a handshake failed.
#[derive(Debug, Clone, Copy, PartialEq, Eq, Structural)]
pub enum HandshakeError {
    /// A user was reported in a channel that had not been described before;
    /// carries that channel id.
    Consistency(u32),
    /// The server never reported this client's own user.
    Incomplete,
}

/// A message from the server, as far as the handshake tells messages apart.
#[derive(Debug, Clone)]
pub enum Inbound {
    Version(Version),
    ServerSync,
    ChannelState(ChannelState),
    UserState(UserState),
    Other,
}

/// What the handshake does after a message of the synchronisation burst.
#[derive(Debug, Clone, Copy, PartialEq, Eq, Structural)]
pub enum SyncStep {
    /// Read the next message.
    Continue,
    /// The burst is over.
    Done,
}

/// The model of what the synchronisation burst has gathered so far: the
/// channel tree, and this client's own actor and session ids once seen.
pub struct SyncView {
    pub channels: Map<u32, ChannelView>,
    pub own: Option<(u32, u32)>,
}

/// The state before the first message of the burst.
pub open spec fn initial_sync() -> SyncView {
    SyncView { channels: Map::empty(), own: None }
}

/// One message of the burst applied to the gathered state. `Err` carries the
/// unknown channel id that a user was reported in.
pub open spec fn sync_step(username: Seq<char>, s: SyncView, m: Inbound) -> Result<SyncView, u32> {
    match m {
        Inbound::ChannelState(c) => Ok(
            SyncView {
                channels: s.channels.insert(c.channel_id, ChannelView { info: c, users: Seq::empty() }),
                own: s.own,
            },
        ),
        Inbound::UserState(u) => {
            if s.channels.contains_key(u.channel_id) {
                let ch = s.channels[u.channel_id];
                Ok(
                    SyncView {
                        channels: s.channels.insert(
                            u.channel_id,
                            ChannelView { info: ch.info, users: ch.users.push(u) },
                        ),
                        own: if u.name@ == username {
                            Some((u.actor, u.session))
                        } else {
                            s.own
                        },
                    },
                )
            } else {
                Err(u.channel_id)
            }
        },
        _ => Ok(s),
    }
}

/// The state gathered from a burst of messages, in order, or the first
/// unknown channel id.
pub open spec fn sync_run(username: Seq<char>, burst: Seq<Inbound>) -> Result<SyncView, u32>
    decreases burst.len(),
{
    if burst.len() == 0 {
        Ok(initial_sync())
    } else {
        match sync_run(username, burst.drop_last()) {
            Ok(s) => sync_step(username, s, burst.last()),
            Err(id) => Err(id),
        }
    }
}

/// What the handshake yields for a burst: the channel tree with this
/// client's actor and session ids, or why it failed.
pub open spec fn sync_result(username: Seq<char>, burst: Seq<Inbound>) -> Result<
    (Map<u32, ChannelView>, u32, u32),
    HandshakeError,
> {
    match sync_run(username, burst) {
        Err(id) => Err(HandshakeError::Consistency(id)),
        Ok(s) => match s.own {
            Some((actor, session)) => Ok((s.channels, actor, session)),
            None => Err(HandshakeError::Incomplete),
        },
    }
}

/// Where a handshake stands.
#[derive(Debug, Clone, Copy, PartialEq, Eq, Structural)]
pub enum Phase {
    /// Waiting for the one message that answers the authentication.
    Version,
    /// Taking the burst of channel and user descriptions.
    Sync,
    /// `ServerSync` has closed the burst.
    Synced,
}

/// The client's side of the handshake: the server's version record, then
/// the burst of channel and user descriptions closed by `ServerSync`.
pub struct Handshake {
    username: String,
    server_info: Option<Version>,
    channel_info: HashMap<u32, Channel>,
    actor_id: Option<u32>,
    session_id: Option<u32>,
    phase: Phase,
    received: Ghost<Seq<Inbound>>,
}

impl Handshake {
    /// The name this client authenticated with.
    pub closed spec fn user(&self) -> Seq<char> {
        self.username@
    }

    /// The server's version record, once received.
    pub closed spec fn server(&self) -> Option<Version> {
        self.server_info
    }

    /// Where the handshake stands.
    pub closed spec fn stage(&self) -> Phase {
        self.phase
    }

    /// The messages of the burst taken so far, `ServerSync` left out.
    pub closed spec fn received(&self) -> Seq<Inbound> {
        self.received@
    }

    /// The gathered state as a model.
    pub closed spec fn gathered(&self) -> SyncView {
        SyncView {
            channels: channels_of(self.channel_info@),
            own: match (self.actor_id, self.session_id) {
                (Some(actor), Some(session)) => Some((actor, session)),
                _ => None,
            },
        }
    }

    /// The gathered state is the one that the messages taken so far give.
    pub closed spec fn wf(&self) -> bool {
        &&& self.actor_id.is_some() == self.session_id.is_some()
        &&& sync_run(self.user(), self.received()) == Ok::<SyncView, u32>(self.gathered())
        &&& self.phase is Version ==> self.received@.len() == 0
    }

    /// A handshake for `username` that has received nothing yet.
    pub fn new(username: String) -> (r: Handshake)
        ensures
            r.wf(),
            r.user() == username@,
            r.server() is None,
            r.stage() == Phase::Version,
            r.received() == Seq::<Inbound>::empty(),
    {
        let r = Handshake {
            username,
            server_info: None,
            channel_info: HashMap::new(),
            actor_id: None,
            session_id: None,
            phase: Phase::Version,
            received: Ghost(Seq::empty()),
        };
        assert(channels_of(r.channel_info@) =~= Map::empty());
        r
    }

    /// Where the handshake stands.
    pub fn phase(&self) -> (r: Phase)
        ensures
            r == self.stage(),
    {
        self.phase
    }

    /// The server's version record, once received.
    pub fn server_info(&self) -> (r: &Option<Version>)
        ensures
            *r == self.server(),
    {
        &self.server_info
    }

    /// The channels gathered so far.
    pub fn channel_info(&self) -> (r: &HashMap<u32, Channel>)
        ensures
            channels_of(r@) == self.gathered().channels,
    {
        &self.channel_info
    }

    /// Takes the single message that answers the authentication: the
    /// server's version record is kept, any other message is passed over.
    /// The burst comes next.
    pub fn receive_version(&mut self, msg: Inbound)
        requires
            old(self).wf(),
            old(self).stage() == Phase::Version,
        ensures
            final(self).wf(),
            final(self).stage() == Phase::Sync,
            final(self).server() == (match msg {
                Inbound::Version(v) => Some(v),
                _ => old(self).server(),
            }),
            final(self).user() == old(self).user(),
            final(self).gathered() == old(self).gathered(),
            final(self).received() == old(self).received(),
    {
        match msg {
            Inbound::Version(v) => {
                self.server_info = Some(v);
            },
            _ => {},
        }
        self.phase = Phase::Sync;
    }

    /// Takes one message of the burst. `ServerSync` closes the burst and
    /// changes nothing else; a channel description opens an empty channel; a
    /// user description joins the user to its channel, and marks the user as
    /// this client when the name is this client's; anything else is passed
    /// over. A user in an unknown channel is an error, and then nothing
    /// changes.
    pub fn receive_sync(&mut self, msg: Inbound) -> (r: Result<SyncStep, HandshakeError>)
        requires
            old(self).wf(),
            old(self).stage() == Phase::Sync,
        ensures
            final(self).wf(),
            final(self).user() == old(self).user(),
            final(self).server() == old(self).server(),
            msg is ServerSync ==> {
                &&& r == Ok::<SyncStep, HandshakeError>(SyncStep::Done)
                &&& final(self).stage() == Phase::Synced
                &&& final(self).gathered() == old(self).gathered()
                &&& final(self).received() == old(self).received()
            },
            !(msg is ServerSync) ==> final(self).stage() == Phase::Sync && match sync_step(
                old(self).user(),
                old(self).gathered(),
                msg,
            ) {
                Ok(s) => r == Ok::<SyncStep, HandshakeError>(SyncStep::Continue)
                    && final(self).gathered() == s && final(self).received() == old(
                    self,
                ).received().push(msg),
                Err(id) => r == Err::<SyncStep, HandshakeError>(HandshakeError::Consistency(id))
                    && final(self).gathered() == old(self).gathered() && final(self).received()
                    == old(self).received(),
            },
    {
        let ghost m = msg;
        let ghost before = self.gathered();
        proof {
            lemma_sync_run_push(self.username@, self.received@, m);
        }
        match msg {
            Inbound::ServerSync => {
                self.phase = Phase::Synced;
                Ok(SyncStep::Done)
            },
            Inbound::ChannelState(c) => {
                let id = c.channel_id;
                let ch = Channel { users: Vec::new(), info: c };
                self.channel_info.insert(id, ch);
                self.received = Ghost(self.received@.push(m));
                assert(self.gathered().channels =~= before.channels.insert(
                    id,
                    ChannelView { info: m->ChannelState_0, users: Seq::empty() },
                ));
                Ok(SyncStep::Continue)
            },
            Inbound::UserState(u) => {
                let id = u.channel_id;
                if !self.channel_info.contains_key(&id) {
                    assert(!before.channels.contains_key(id));
                    return Err(HandshakeError::Consistency(id));
                }
                assert(before.channels.contains_key(id));
                let mut ch = self.channel_info.remove(&id).unwrap();
                assert(ch@ == before.channels[id]);
                if u.name == self.username {
                    self.actor_id = Some(u.actor);
                    self.session_id = Some(u.session);
                }
                ch.users.push(u);
                self.channel_info.insert(id, ch);
                self.received = Ghost(self.received@.push(m));
                assert(self.gathered().channels =~= before.channels.insert(
                    id,
                    ChannelView {
                        info: before.channels[id].info,
                        users: before.channels[id].users.push(m->UserState_0),
                    },
                ));
                Ok(SyncStep::Continue)
            },
            _ => {
                self.received = Ghost(self.received@.push(m));
                Ok(SyncStep::Continue)
            },
        }
    }

    /// Ends the handshake once `ServerSync` has closed the burst: the
    /// snapshot of what was gathered, or `Incomplete` when the server never
    /// reported this client's own user.
    pub fn finish(self) -> (r: Result<ClientInfo, HandshakeError>)
        requires
            self.wf(),
            self.stage() == Phase::Synced,
        ensures
            match sync_result(self.user(), self.received()) {
                Ok((channels, actor, session)) => r matches Ok(info) && info.channels() == channels
                    && info.identity.actor() == actor && info.identity.session() == session
                    && info.username@ == self.user() && info.server_info == self.server(),
                Err(e) => r == Err::<ClientInfo, HandshakeError>(e),
            },
    {
        match (self.actor_id, self.session_id) {
            (Some(actor_id), Some(session_id)) => Ok(
                ClientInfo {
                    channel_info: self.channel_info,
                    server_info: self.server_info,
                    username: self.username,
                    identity: SessionIdentity::new(actor_id, session_id),
                },
            ),
            _ => Err(HandshakeError::Incomplete),
        }
    }
}

/// Taking one more message is one more step of the run.
proof fn lemma_sync_run_push(username: Seq<char>, burst: Seq<Inbound>, m: Inbound)
    ensures
        sync_run(username, burst.push(m)) == (match sync_run(username, burst) {
            Ok(s) => sync_step(username, s, m),
            Err(id) => Err(id),
        }),
{
    assert(burst.push(m).drop_last() =~= burst);
}

/// `m` describes channel `id`.
pub open spec fn describes(m: Inbound, id: u32) -> bool {
    m matches Inbound::ChannelState(c) && c.channel_id == id
}

/// `m` reports a user named `username`.
pub open spec fn names_user(m: Inbound, username: Seq<char>) -> bool {
    m matches Inbound::UserState(u) && u.name@ == username
}

/// Some message before position `i` of `burst` describes channel `id`.
pub open spec fn described_before(burst: Seq<Inbound>, i: int, id: u32) -> bool {
    exists|j: int|
        0 <= j < i && describes(#[trigger] burst[j], id)
}

/// Every user of `burst` is reported in a channel that an earlier message
/// describes.
pub open spec fn users_follow_channels(burst: Seq<Inbound>) -> bool {
    forall|i: int|
        0 <= i < burst.len() && (#[trigger] burst[i]) is UserState ==> described_before(
            burst,
            i,
            burst[i]->UserState_0.channel_id,
        )
}

/// The members of channel `id` after `burst`: the users reported in it since
/// it was last described, in the order they arrived.
pub open spec fn members(burst: Seq<Inbound>, id: u32) -> Seq<UserState>
    decreases burst.len(),
{
    if burst.len() == 0 {
        Seq::empty()
    } else {
        let rest = members(burst.drop_last(), id);
        match burst.last() {
            Inbound::ChannelState(c) => if c.channel_id == id {
                Seq::empty()
            } else {
                rest
            },
            Inbound::UserState(u) => if u.channel_id == id {
                rest.push(u)
            } else {
                rest
            },
            _ => rest,
        }
    }
}

/// The last description of channel `id` in `burst`, if any.
pub open spec fn last_description(burst: Seq<Inbound>, id: u32) -> Option<ChannelState>
    decreases burst.len(),
{
    if burst.len() == 0 {
        None
    } else {
        match burst.last() {
            Inbound::ChannelState(c) => if c.channel_id == id {
                Some(c)
            } else {
                last_description(burst.drop_last(), id)
            },
            _ => last_description(burst.drop_last(), id),
        }
    }
}

/// The actor and session ids of the last user in `burst` named `username`,
/// if any.
pub open spec fn last_own(burst: Seq<Inbound>, username: Seq<char>) -> Option<(u32, u32)>
    decreases burst.len(),
{
    if burst.len() == 0 {
        None
    } else {
        match burst.last() {
            Inbound::UserState(u) => if u.name@ == username {
                Some((u.actor, u.session))
            } else {
                last_own(burst.drop_last(), username)
            },
            _ => last_own(burst.drop_last(), username),
        }
    }
}

/// Some user of `burst` carries the name `username`.
pub open spec fn reports_user(burst: Seq<Inbound>, username: Seq<char>) -> bool {
    exists|i: int|
        0 <= i < burst.len() && names_user(#[trigger] burst[i], username)
}

/// A run that succeeds knows exactly the channels described so far, each
/// under its own id with its last description, and with the users reported
/// in it since that description.
proof fn lemma_run_tree(username: Seq<char>, burst: Seq<Inbound>)
    requires
        sync_run(username, burst) is Ok,
    ensures
        forall|id: u32|
            #![trigger sync_run(username, burst)->Ok_0.channels.contains_key(id)]
            sync_run(username, burst)->Ok_0.channels.contains_key(id) <==> described_before(
                burst,
                burst.len() as int,
                id,
            ),
        forall|id: u32|
            #![trigger sync_run(username, burst)->Ok_0.channels[id]]
            sync_run(username, burst)->Ok_0.channels.contains_key(id) ==> sync_run(
                username,
                burst,
            )->Ok_0.channels[id].users == members(burst, id) && sync_run(username, burst)->Ok_0.channels[id].info.channel_id == id
                && last_description(burst, id) == Some(sync_run(username, burst)->Ok_0.channels[id].info),
    decreases burst.len(),
{
    if burst.len() > 0 {
        let prev = burst.drop_last();
        lemma_run_tree(username, prev);
        let n = burst.len() - 1;
        assert forall|id: u32| described_before(burst, burst.len() as int, id) <==> (
        described_before(prev, n, id) || describes(burst[n], id)) by {
            if described_before(prev, n, id) {
                let j = choose|j: int|
                    0 <= j < n && describes(#[trigger] prev[j], id);
                assert(burst[j] == prev[j]);
            }
            if described_before(burst, burst.len() as int, id) {
                let j = choose|j: int|
                    0 <= j < burst.len() && describes(#[trigger] burst[j], id);
                if j < n {
                    assert(prev[j] == burst[j]);
                }
            }
        }
    }
}

/// A failed run stays failed whatever follows.
proof fn lemma_run_error_stays(username: Seq<char>, burst: Seq<Inbound>, n: int)
    requires
        0 <= n <= burst.len(),
        sync_run(username, burst.take(n)) is Err,
    ensures
        sync_run(username, burst) is Err,
    decreases burst.len() - n,
{
    if n < burst.len() {
        assert(burst.take(n + 1).drop_last() =~= burst.take(n));
        lemma_run_error_stays(username, burst, n + 1);
    } else {
        assert(burst.take(n) =~= burst);
    }
}

/// When every user of the burst is reported in a channel described before
/// it, the handshake raises no consistency error, and the channel tree holds
/// exactly the described channels, each under its own id with its last
/// description and its members in arrival order.
pub proof fn lemma_ordered_burst_builds_tree(username: Seq<char>, burst: Seq<Inbound>)
    requires
        users_follow_channels(burst),
    ensures
        sync_run(username, burst) is Ok,
        !(sync_result(username, burst) matches Err(HandshakeError::Consistency(_))),
        forall|id: u32|
            #![trigger sync_run(username, burst)->Ok_0.channels.contains_key(id)]
            sync_run(username, burst)->Ok_0.channels.contains_key(id) <==> described_before(
                burst,
                burst.len() as int,
                id,
            ),
        forall|id: u32|
            #![trigger sync_run(username, burst)->Ok_0.channels[id]]
            sync_run(username, burst)->Ok_0.channels.contains_key(id) ==> sync_run(
                username,
                burst,
            )->Ok_0.channels[id].users == members(burst, id) && sync_run(username, burst)->Ok_0.channels[id].info.channel_id == id
                && last_description(burst, id) == Some(sync_run(username, burst)->Ok_0.channels[id].info),
    decreases burst.len(),
{
    if burst.len() > 0 {
        let prev = burst.drop_last();
        let n = burst.len() - 1;
        assert forall|i: int| 0 <= i < prev.len() && (#[trigger] prev[i]) is UserState implies described_before(
            prev,
            i,
            prev[i]->UserState_0.channel_id,
        ) by {
            assert(burst[i] == prev[i]);
            let id = prev[i]->UserState_0.channel_id;
            let j = choose|j: int|
                0 <= j < i && describes(#[trigger] burst[j], id);
            assert(prev[j] == burst[j]);
        }
        lemma_ordered_burst_builds_tree(username, prev);
        if burst[n] is UserState {
            let id = burst[n]->UserState_0.channel_id;
            let j = choose|j: int|
                0 <= j < n && describes(#[trigger] burst[j], id);
            assert(prev[j] == burst[j]);
            assert(sync_run(username, prev)->Ok_0.channels.contains_key(id));
        }
    }
    lemma_run_tree(username, burst);
}

/// A user reported in a channel that no earlier message describes makes the
/// handshake fail with a consistency error.
pub proof fn lemma_unknown_channel_fails(username: Seq<char>, burst: Seq<Inbound>, i: int)
    requires
        0 <= i < burst.len(),
        burst[i] is UserState,
        !described_before(burst, i, burst[i]->UserState_0.channel_id),
    ensures
        sync_result(username, burst) matches Err(HandshakeError::Consistency(_)),
{
    let prefix = burst.take(i);
    let id = burst[i]->UserState_0.channel_id;
    assert(burst.take(i + 1).drop_last() =~= prefix);
    if sync_run(username, prefix) is Ok {
        lemma_run_tree(username, prefix);
        if described_before(prefix, i, id) {
            let j = choose|j: int|
                0 <= j < i && describes(#[trigger] prefix[j], id);
            assert(burst[j] == prefix[j]);
        }
        assert(burst.take(i + 1).last() == burst[i]);
        assert(sync_run(username, burst.take(i + 1)) is Err);
    } else {
        lemma_run_error_stays(username, burst.take(i + 1), i);
        assert(burst.take(i + 1).take(i) =~= prefix);
    }
    lemma_run_error_stays(username, burst, i + 1);
}

/// A run that succeeds has found, as this client's own ids, those of the
/// last user named `username`.
proof fn lemma_run_own(username: Seq<char>, burst: Seq<Inbound>)
    requires
        sync_run(username, burst) is Ok,
    ensures
        sync_run(username, burst)->Ok_0.own == last_own(burst, username),
    decreases burst.len(),
{
    if burst.len() > 0 {
        lemma_run_own(username, burst.drop_last());
    }
}

/// A burst has a last user named `username` exactly when it reports one.
proof fn lemma_last_own_found(username: Seq<char>, burst: Seq<Inbound>)
    ensures
        last_own(burst, username) is Some <==> reports_user(burst, username),
    decreases burst.len(),
{
    if burst.len() > 0 {
        let prev = burst.drop_last();
        let n = burst.len() - 1;
        lemma_last_own_found(username, prev);
        if reports_user(prev, username) {
            let i = choose|i: int| 0 <= i < prev.len() && names_user(#[trigger] prev[i], username);
            assert(burst[i] == prev[i]);
        }
        if reports_user(burst, username) {
            let i = choose|i: int| 0 <= i < burst.len() && names_user(#[trigger] burst[i], username);
            if i < n {
                assert(prev[i] == burst[i]);
            }
        }
    }
}

/// When every user of the burst is reported in a channel described before
/// it, and one of them carries this client's name, the handshake succeeds
/// with the actor and session ids of the last user of that name.
pub proof fn lemma_ordered_burst_finds_own_user(username: Seq<char>, burst: Seq<Inbound>)
    requires
        users_follow_channels(burst),
        reports_user(burst, username),
    ensures
        sync_result(username, burst) matches Ok((channels, actor, session)) && channels == sync_run(
            username,
            burst,
        )->Ok_0.channels && last_own(burst, username) == Some((actor, session)),
{
    lemma_ordered_burst_builds_tree(username, burst);
    lemma_run_own(username, burst);
    lemma_last_own_found(username, burst);
}

/// When no user of the burst carries this client's name, the handshake
/// fails; if the burst is otherwise consistent it fails as incomplete.
pub proof fn lemma_missing_own_user_fails(username: Seq<char>, burst: Seq<Inbound>)
    requires
        !reports_user(burst, username),
    ensures
        sync_result(username, burst) is Err,
        sync_run(username, burst) is Ok ==> sync_result(username, burst) == Err::<
            (Map<u32, ChannelView>, u32, u32),
            HandshakeError,
        >(HandshakeError::Incomplete),
{
    if sync_run(username, burst) is Ok {
        lemma_run_own(username, burst);
        lemma_last_own_found(username, burst);
    }
}

/// A message of a kind the burst does not use, inserted anywhere in the
/// burst, changes nothing: the burst goes on as if it had not come.
pub proof fn lemma_other_messages_ignored(
    username: Seq<char>,
    burst: Seq<Inbound>,
    i: int,
    m: Inbound,
)
    requires
        m is Other || m is Version,
        0 <= i <= burst.len(),
    ensures
        sync_run(username, burst.insert(i, m)) == sync_run(username, burst),
        sync_result(username, burst.insert(i, m)) == sync_result(username, burst),
    decreases burst.len(),
{
    let longer = burst.insert(i, m);
    if i == burst.len() {
        assert(longer =~= burst.push(m));
        lemma_sync_run_push(username, burst, m);
    } else {
        assert(longer.drop_last() =~= burst.drop_last().insert(i, m));
        assert(longer.last() == burst.last());
        lemma_other_messages_ignored(username, burst.drop_last(), i, m);
    }
}

} // verus!
