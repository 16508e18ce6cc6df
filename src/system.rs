use crate::client::{TopicRecord, encode_topics, listable, listing_bytes, topic_records};
use crate::codec::{bytes_equal, copy_range};
use crate::command::GetTopics;
use crate::response::{error_response, ok_response, spec_response_bytes};
use crate::encryption::{apply_ciphertexts, outcome_views, to_store};
use crate::error::{IggyError, error_code};
use crate::identifier::{IdKind, Identifier, IdentifierView};
use crate::partition::{
    Message, PolledMessages, PollingStrategy, inputs, lemma_polled_offsets, message_views, poll_result,
};
use crate::topic::{
    Consumer, Partitioning, PollingConsumer, Topic, TopicView, consumer_key, messages_total,
    resolve_consumer, topic_append, topic_create_group, topic_inv, topic_join, topic_leave,
    topic_store_offset, topic_without_expired, group_index, purged, topic_after_poll,
};
use crate::group::assigned_partitions;
use std::collections::HashMap;
use vstd::prelude::*;
use vstd::string::StringSliceAdditionalSpecFns;
use vstd::bytes::{spec_u32_to_le_bytes, u32_from_le_bytes};

verus! {

broadcast use vstd::std_specs::hash::group_hash_axioms;

/// Settings of the broker core.
#[derive(Debug, Clone, Copy, PartialEq, Eq, Structural)]
pub struct SystemConfig {
    /// A segment is closed once it holds this many bytes.
    pub segment_size_limit: u64,
    /// Byte budget of the partition caches.
    pub cache_limit_bytes: u64,
    /// Whether message payloads are encrypted at rest.
    pub encryption_enabled: bool,
}

/// Settings of personal access tokens.
#[derive(Debug, Clone, Copy, PartialEq, Eq, Structural)]
pub struct PersonalAccessTokenConfig {
    pub max_tokens_per_user: u32,
}

/// A client connection: connected, and authenticated once a user is set.
#[derive(Debug, Clone, Copy, PartialEq, Eq, Structural)]
pub struct Session {
    pub client_id: u32,
    pub user_id: Option<u32>,
}

impl Session {
    /// A connected, not yet authenticated session.
    pub fn new(client_id: u32) -> (r: Session)
        ensures
            r == (Session { client_id, user_id: None }),
    {
        Session { client_id, user_id: None }
    }

    /// A session authenticated as `user_id`.
    pub fn stateless(user_id: u32, client_id: u32) -> (r: Session)
        ensures
            r == (Session { client_id, user_id: Some(user_id) }),
    {
        Session { client_id, user_id: Some(user_id) }
    }

    pub fn is_authenticated(&self) -> (r: bool)
        ensures
            r == self.user_id is Some,
    {
        self.user_id.is_some()
    }

    /// A successful login makes the session authenticated.
    pub fn login(&mut self, user_id: u32)
        ensures
            *final(self) == (Session { user_id: Some(user_id), ..*old(self) }),
    {
        self.user_id = Some(user_id);
    }

    /// A logout returns the session to the connected state.
    pub fn logout(&mut self)
        ensures
            *final(self) == (Session { user_id: None, ..*old(self) }),
    {
        self.user_id = None;
    }
}

/// The arguments of a poll.
#[derive(Debug, Clone, Copy, PartialEq, Eq, Structural)]
pub struct PollingArgs {
    pub strategy: PollingStrategy,
    pub count: u32,
    pub auto_commit: bool,
}

impl PollingArgs {
    pub fn new(strategy: PollingStrategy, count: u32, auto_commit: bool) -> (r: PollingArgs)
        ensures
            r == (PollingArgs { strategy, count, auto_commit }),
    {
        PollingArgs { strategy, count, auto_commit }
    }
}

/// What a user may do besides logging in.
#[derive(Debug, Clone, Copy, PartialEq, Eq, Structural)]
pub struct Permissions {
    /// Create, delete and purge streams, topics and groups; grant permissions.
    pub manage_streams: bool,
    /// List streams, topics and group shares.
    pub read_streams: bool,
    /// Poll messages, store offsets, join and leave groups.
    pub poll_messages: bool,
    /// Append and flush messages.
    pub send_messages: bool,
}

/// The permission a command needs.
#[derive(Debug, Clone, Copy, PartialEq, Eq, Structural)]
pub enum Scope {
    ManageStreams,
    ReadStreams,
    PollMessages,
    SendMessages,
}

/// The user that holds every permission.
pub const ROOT_USER_ID: u32 = 1;

pub open spec fn grants(p: Permissions, scope: Scope) -> bool {
    match scope {
        Scope::ManageStreams => p.manage_streams,
        Scope::ReadStreams => p.read_streams,
        Scope::PollMessages => p.poll_messages,
        Scope::SendMessages => p.send_messages,
    }
}

/// Whether `user` may act in `scope`: the root user always may, any other
/// user as its permissions say.
pub open spec fn permitted(v: SystemView, user: u32, scope: Scope) -> bool {
    user == ROOT_USER_ID || (v.permissions.contains_key(user) && grants(v.permissions[user], scope))
}

/// What stops a command in `scope` before it runs: no logged-in user
/// (`Unauthenticated`), or a user without the permission (`PermissionDenied`).
pub open spec fn gate(v: SystemView, session: Session, scope: Scope) -> Option<IggyError> {
    match session.user_id {
        None => Some(IggyError::Unauthenticated),
        Some(u) => if permitted(v, u, scope) {
            None
        } else {
            Some(IggyError::PermissionDenied)
        },
    }
}

/// The view of the encryptor's results handed to an append, if any.
pub open spec fn cipher_views(c: Option<Vec<Option<Vec<u8>>>>) -> Option<Seq<Option<Seq<u8>>>> {
    match c {
        Some(cs) => Some(outcome_views(cs@)),
        None => None,
    }
}

/// What stops a command on a topic before it runs, in this order: no
/// logged-in user, no such stream or topic, a user without the permission.
/// Otherwise the stream and topic indexes.
pub open spec fn topic_gate(
    v: SystemView,
    session: Session,
    sid: IdentifierView,
    tid: IdentifierView,
    scope: Scope,
) -> Result<(int, int), IggyError> {
    match session.user_id {
        None => Err(IggyError::Unauthenticated),
        Some(_) => match resolve_topic(v, sid, tid) {
            Err(e) => Err(e),
            Ok(p) => match gate(v, session, scope) {
                Some(e) => Err(e),
                None => Ok(p),
            },
        },
    }
}

/// A stream as listed to clients.
#[derive(Debug, Clone, PartialEq, Eq)]
pub struct StreamDetails {
    pub id: u32,
    pub name: Vec<u8>,
    pub topics_count: u32,
}

/// A topic as listed to clients.
#[derive(Debug, Clone, PartialEq, Eq)]
pub struct TopicDetails {
    pub id: u32,
    pub name: Vec<u8>,
    pub partitions_count: u32,
    pub messages_count: u64,
    pub message_expiry: Option<u64>,
}

pub struct StreamView {
    pub stream_id: u32,
    pub name: Seq<u8>,
    pub topics: Seq<TopicView>,
}

pub struct SystemView {
    pub streams: Seq<StreamView>,
    pub config: SystemConfig,
    pub personal_access_token: PersonalAccessTokenConfig,
    pub permissions: Map<u32, Permissions>,
}

/// An identifier names the entity with number `num` and name `name`.
pub open spec fn identifies(id: IdentifierView, num: u32, name: Seq<u8>) -> bool {
    match id.kind {
        IdKind::Numeric => id.value == spec_u32_to_le_bytes(num),
        IdKind::String => id.value == name,
    }
}

/// Topics of a stream belong to it and have distinct ids and names.
pub open spec fn stream_inv(s: StreamView) -> bool {
    &&& s.topics.len() <= u32::MAX
    &&& forall|i: int|
        0 <= i < s.topics.len() ==> topic_inv(#[trigger] s.topics[i]) && s.topics[i].stream_id
            == s.stream_id
    &&& forall|i: int, j: int|
        0 <= i < j < s.topics.len() ==> (#[trigger] s.topics[i]).topic_id != (
        #[trigger] s.topics[j]).topic_id && s.topics[i].name != s.topics[j].name
}

/// Streams have distinct ids and names.
pub open spec fn system_inv(v: SystemView) -> bool {
    &&& v.streams.len() <= u32::MAX
    &&& forall|i: int| 0 <= i < v.streams.len() ==> stream_inv(#[trigger] v.streams[i])
    &&& forall|i: int, j: int|
        0 <= i < j < v.streams.len() ==> (#[trigger] v.streams[i]).stream_id != (
        #[trigger] v.streams[j]).stream_id && v.streams[i].name != v.streams[j].name
}

/// Index of the stream that `id` names.
pub open spec fn stream_index(v: SystemView, id: IdentifierView) -> Option<int> {
    if exists|i: int|
        0 <= i < v.streams.len() && identifies(id, #[trigger] v.streams[i].stream_id, v.streams[i].name) {
        Some(
            choose|i: int|
                0 <= i < v.streams.len() && identifies(
                    id,
                    #[trigger] v.streams[i].stream_id,
                    v.streams[i].name,
                ),
        )
    } else {
        None
    }
}

/// Index of the topic that `id` names in stream `s`.
pub open spec fn topic_index(s: StreamView, id: IdentifierView) -> Option<int> {
    if exists|i: int|
        0 <= i < s.topics.len() && identifies(id, #[trigger] s.topics[i].topic_id, s.topics[i].name) {
        Some(
            choose|i: int|
                0 <= i < s.topics.len() && identifies(
                    id,
                    #[trigger] s.topics[i].topic_id,
                    s.topics[i].name,
                ),
        )
    } else {
        None
    }
}

/// The stream and topic that two identifiers name, or the error of the first
/// that names nothing.
pub open spec fn resolve_topic(v: SystemView, sid: IdentifierView, tid: IdentifierView) -> Result<
    (int, int),
    IggyError,
> {
    match stream_index(v, sid) {
        None => Err(IggyError::StreamIdNotFound),
        Some(si) => match topic_index(v.streams[si], tid) {
            None => Err(IggyError::TopicIdNotFound),
            Some(ti) => Ok((si, ti)),
        },
    }
}

/// The system with topic `ti` of stream `si` replaced by `t`.
pub open spec fn with_topic(v: SystemView, si: int, ti: int, t: TopicView) -> SystemView {
    SystemView {
        streams: v.streams.update(
            si,
            StreamView { topics: v.streams[si].topics.update(ti, t), ..v.streams[si] },
        ),
        ..v
    }
}

#[derive(Debug)]
struct Stream {
    stream_id: u32,
    name: Vec<u8>,
    topics: Vec<Topic>,
}

impl View for Stream {
    type V = StreamView;

    closed spec fn view(&self) -> StreamView {
        StreamView {
            stream_id: self.stream_id,
            name: self.name@,
            topics: self.topics@.map_values(|t: Topic| t@),
        }
    }
}

/// The broker core: streams, their topics and partitions, behind the
/// authentication gate.
#[derive(Debug)]
pub struct System {
    config: SystemConfig,
    personal_access_token: PersonalAccessTokenConfig,
    streams: Vec<Stream>,
    permissions: HashMap<u32, Permissions>,
}

impl View for System {
    type V = SystemView;

    closed spec fn view(&self) -> SystemView {
        SystemView {
            streams: self.streams@.map_values(|s: Stream| s@),
            config: self.config,
            personal_access_token: self.personal_access_token,
            permissions: self.permissions@,
        }
    }
}

/// Whether `id` names the entity with number `num` and name `name`.
fn identifier_matches(id: &Identifier, num: u32, name: &Vec<u8>) -> (r: bool)
    requires
        id.wf(),
    ensures
        r == identifies(id@, num, name@),
{
    match id.kind {
        IdKind::Numeric => {
            let value = u32_from_le_bytes(id.value.as_slice());
            proof {
                vstd::bytes::lemma_auto_spec_u32_to_from_le_bytes();
            }
            value == num
        },
        IdKind::String => bytes_equal(id.value.as_slice(), name.as_slice()),
    }
}

/// Replacing a stream by one with the same id and name that keeps the
/// stream invariant keeps the system invariant.
proof fn lemma_replace_stream(v: SystemView, si: int, s: StreamView)
    requires
        system_inv(v),
        0 <= si < v.streams.len(),
        stream_inv(s),
        s.stream_id == v.streams[si].stream_id,
        s.name == v.streams[si].name,
    ensures
        system_inv(SystemView { streams: v.streams.update(si, s), ..v }),
{
    let w = SystemView { streams: v.streams.update(si, s), ..v };
    assert forall|a: int, b: int| 0 <= a < b < w.streams.len() implies (
    #[trigger] w.streams[a]).stream_id != (#[trigger] w.streams[b]).stream_id
        && w.streams[a].name != w.streams[b].name by {
        assert(w.streams[a].stream_id == v.streams[a].stream_id);
        assert(w.streams[b].stream_id == v.streams[b].stream_id);
        assert(w.streams[a].name == v.streams[a].name);
        assert(w.streams[b].name == v.streams[b].name);
    }
    assert forall|a: int| 0 <= a < w.streams.len() implies stream_inv(#[trigger] w.streams[a]) by {
        if a != si {
            assert(w.streams[a] == v.streams[a]);
        }
    }
}

/// Replacing a topic by one with the same owner, id and name that keeps the
/// topic invariant keeps the system invariant.
proof fn lemma_replace_topic(v: SystemView, si: int, ti: int, t: TopicView)
    requires
        system_inv(v),
        0 <= si < v.streams.len(),
        0 <= ti < v.streams[si].topics.len(),
        topic_inv(t),
        t.stream_id == v.streams[si].topics[ti].stream_id,
        t.topic_id == v.streams[si].topics[ti].topic_id,
        t.name == v.streams[si].topics[ti].name,
    ensures
        system_inv(with_topic(v, si, ti, t)),
{
    let sv = v.streams[si];
    let ns = StreamView { topics: sv.topics.update(ti, t), ..sv };
    assert(stream_inv(sv));
    assert forall|a: int, b: int| 0 <= a < b < ns.topics.len() implies (
    #[trigger] ns.topics[a]).topic_id != (#[trigger] ns.topics[b]).topic_id
        && ns.topics[a].name != ns.topics[b].name by {
        assert(ns.topics[a].topic_id == sv.topics[a].topic_id);
        assert(ns.topics[b].topic_id == sv.topics[b].topic_id);
        assert(ns.topics[a].name == sv.topics[a].name);
        assert(ns.topics[b].name == sv.topics[b].name);
    }
    assert forall|a: int| 0 <= a < ns.topics.len() implies topic_inv(#[trigger] ns.topics[a])
        && ns.topics[a].stream_id == ns.stream_id by {
        if a != ti {
            assert(ns.topics[a] == sv.topics[a]);
        }
    }
    lemma_replace_stream(v, si, ns);
}

proof fn lemma_with_same_topic(v: SystemView, si: int, ti: int)
    requires
        0 <= si < v.streams.len(),
        0 <= ti < v.streams[si].topics.len(),
    ensures
        with_topic(v, si, ti, v.streams[si].topics[ti]) == v,
{
    let sv = v.streams[si];
    assert(sv.topics.update(ti, sv.topics[ti]) =~= sv.topics);
    let ns = StreamView { topics: sv.topics.update(ti, sv.topics[ti]), ..sv };
    assert(ns == sv);
    assert(v.streams.update(si, ns) =~= v.streams);
}

proof fn lemma_with_topic_twice(v: SystemView, si: int, ti: int, t1: TopicView, t2: TopicView)
    requires
        0 <= si < v.streams.len(),
        0 <= ti < v.streams[si].topics.len(),
    ensures
        with_topic(with_topic(v, si, ti, t1), si, ti, t2) == with_topic(v, si, ti, t2),
{
    let w = with_topic(v, si, ti, t1);
    assert(w.streams[si].topics.update(ti, t2) =~= v.streams[si].topics.update(ti, t2));
    assert(w.streams.update(si, StreamView { topics: w.streams[si].topics.update(ti, t2), ..w.streams[si] })
        =~= v.streams.update(si, StreamView { topics: v.streams[si].topics.update(ti, t2), ..v.streams[si] }));
}

fn map_toggle_str(enabled: bool) -> (r: &'static str)
    ensures
        enabled ==> r@ == "enabled"@,
        !enabled ==> r@ == "disabled"@,
{
    if enabled {
        "enabled"
    } else {
        "disabled"
    }
}

impl System {
    pub open spec fn wf(&self) -> bool {
        system_inv(self@)
    }

    /// An empty system.
    pub fn new(config: SystemConfig, pat_config: PersonalAccessTokenConfig) -> (r: System)
        ensures
            r.wf(),
            r@.streams.len() == 0,
            r@.config == config,
            r@.personal_access_token == pat_config,
            r@.permissions == Map::<u32, Permissions>::empty(),
    {
        System::create(config, pat_config)
    }

    /// An empty system.
    pub fn create(config: SystemConfig, pat_config: PersonalAccessTokenConfig) -> (r: System)
        ensures
            r.wf(),
            r@.streams.len() == 0,
            r@.config == config,
            r@.personal_access_token == pat_config,
            r@.permissions == Map::<u32, Permissions>::empty(),
    {
        let r = System {
            config,
            personal_access_token: pat_config,
            streams: Vec::new(),
            permissions: HashMap::new(),
        };
        assert(r@.streams.len() == 0);
        r
    }

    pub fn config(&self) -> (r: SystemConfig)
        ensures
            r == self@.config,
    {
        self.config
    }

    /// Whether server-side encryption is "enabled" or "disabled".
    pub fn encryption_status(&self) -> (r: &'static str)
        ensures
            self@.config.encryption_enabled ==> r@ == "enabled"@,
            !self@.config.encryption_enabled ==> r@ == "disabled"@,
    {
        map_toggle_str(self.config.encryption_enabled)
    }

    /// Fails with `Unauthenticated` unless a user is logged in on `session`.
    pub fn ensure_authenticated(&self, session: &Session) -> (r: Result<(), IggyError>)
        ensures
            session.user_id is Some ==> r is Ok,
            session.user_id is None ==> r == Err::<(), IggyError>(IggyError::Unauthenticated),
    {
        if session.is_authenticated() {
            Ok(())
        } else {
            Err(IggyError::Unauthenticated)
        }
    }

    /// Fails unless `session` is logged in as a user that may act in `scope`.
    pub fn check_permission(&self, session: &Session, scope: Scope) -> (r: Result<(), IggyError>)
        ensures
            gate(self@, *session, scope) matches Some(e) ==> r == Err::<(), IggyError>(e),
            gate(self@, *session, scope) is None ==> r is Ok,
    {
        let user = match session.user_id {
            None => {
                return Err(IggyError::Unauthenticated);
            },
            Some(u) => u,
        };
        if user == ROOT_USER_ID {
            return Ok(());
        }
        let allowed = match self.permissions.get(&user) {
            None => false,
            Some(p) => match scope {
                Scope::ManageStreams => p.manage_streams,
                Scope::ReadStreams => p.read_streams,
                Scope::PollMessages => p.poll_messages,
                Scope::SendMessages => p.send_messages,
            },
        };
        if allowed {
            Ok(())
        } else {
            Err(IggyError::PermissionDenied)
        }
    }

    /// Sets what `user_id` may do; it takes a user who may manage streams.
    pub fn update_permissions(&mut self, session: &Session, user_id: u32, permissions: Permissions) -> (r:
        Result<(), IggyError>)
        requires
            old(self).wf(),
        ensures
            final(self).wf(),
            gate(old(self)@, *session, Scope::ManageStreams) matches Some(e) ==> r == Err::<(), IggyError>(e)
                && final(self)@ == old(self)@,
            gate(old(self)@, *session, Scope::ManageStreams) is None ==> r is Ok && final(self)@ == (SystemView {
                permissions: old(self)@.permissions.insert(user_id, permissions),
                ..old(self)@
            }),
    {
        self.check_permission(session, Scope::ManageStreams)?;
        let ghost old_v = self@;
        self.permissions.insert(user_id, permissions);
        proof {
            assert(self@.streams == old_v.streams);
        }
        Ok(())
    }

    fn find_stream(&self, id: &Identifier) -> (r: Option<usize>)
        requires
            self.wf(),
            id.wf(),
        ensures
            r matches Some(i) ==> stream_index(self@, id@) == Some(i as int) && i
                < self@.streams.len(),
            r is None ==> stream_index(self@, id@) is None,
    {
        let mut i: usize = 0;
        while i < self.streams.len()
            invariant
                self.wf(),
                id.wf(),
                i <= self.streams@.len(),
                self@.streams.len() == self.streams@.len(),
                forall|j: int|
                    0 <= j < i ==> !identifies(id@, #[trigger] self@.streams[j].stream_id, self@.streams[j].name),
            decreases self.streams@.len() - i,
        {
            assert(self@.streams[i as int] == self.streams@[i as int]@);
            if identifier_matches(id, self.streams[i].stream_id, &self.streams[i].name) {
                proof {
                    let v = self@;
                    let c = choose|c: int|
                        0 <= c < v.streams.len() && identifies(
                            id@,
                            #[trigger] v.streams[c].stream_id,
                            v.streams[c].name,
                        );
                    if c != i {
                        vstd::bytes::lemma_auto_spec_u32_to_from_le_bytes();
                        if c < i {
                            assert(v.streams[c].stream_id != v.streams[i as int].stream_id);
                            assert(v.streams[c].name != v.streams[i as int].name);
                        } else {
                            assert(v.streams[i as int].stream_id != v.streams[c].stream_id);
                            assert(v.streams[i as int].name != v.streams[c].name);
                        }
                    }
                }
                return Some(i);
            }
            i += 1;
        }
        None
    }

    fn find_topic(&self, si: usize, id: &Identifier) -> (r: Option<usize>)
        requires
            self.wf(),
            id.wf(),
            si < self@.streams.len(),
        ensures
            r matches Some(i) ==> topic_index(self@.streams[si as int], id@) == Some(i as int) && i
                < self@.streams[si as int].topics.len(),
            r is None ==> topic_index(self@.streams[si as int], id@) is None,
    {
        let stream = &self.streams[si];
        assert(self@.streams[si as int] == stream@);
        let ghost s = stream@;
        assert(stream_inv(s));
        let mut i: usize = 0;
        while i < stream.topics.len()
            invariant
                stream_inv(s),
                s == stream@,
                self@.streams[si as int] == s,
                id.wf(),
                i <= stream.topics@.len(),
                s.topics.len() == stream.topics@.len(),
                forall|j: int|
                    0 <= j < i ==> !identifies(id@, #[trigger] s.topics[j].topic_id, s.topics[j].name),
            decreases stream.topics@.len() - i,
        {
            assert(s.topics[i as int] == stream.topics@[i as int]@);
            let t = &stream.topics[i];
            if identifier_matches(id, t.topic_id(), t.name()) {
                proof {
                    let c = choose|c: int|
                        0 <= c < s.topics.len() && identifies(
                            id@,
                            #[trigger] s.topics[c].topic_id,
                            s.topics[c].name,
                        );
                    if c != i {
                        vstd::bytes::lemma_auto_spec_u32_to_from_le_bytes();
                        if c < i {
                            assert(s.topics[c].topic_id != s.topics[i as int].topic_id);
                            assert(s.topics[c].name != s.topics[i as int].name);
                        } else {
                            assert(s.topics[i as int].topic_id != s.topics[c].topic_id);
                            assert(s.topics[i as int].name != s.topics[c].name);
                        }
                    }
                }
                return Some(i);
            }
            i += 1;
        }
        None
    }

    fn resolve(&self, stream_id: &Identifier, topic_id: &Identifier) -> (r: Result<
        (usize, usize),
        IggyError,
    >)
        requires
            self.wf(),
            stream_id.wf(),
            topic_id.wf(),
        ensures
            r matches Ok((si, ti)) ==> resolve_topic(self@, stream_id@, topic_id@) == Ok::<
                (int, int),
                IggyError,
            >((si as int, ti as int)) && si < self@.streams.len() && ti < self@.streams[si as int].topics.len(),
            r matches Err(e) ==> resolve_topic(self@, stream_id@, topic_id@) == Err::<
                (int, int),
                IggyError,
            >(e),
    {
        match self.find_stream(stream_id) {
            None => Err(IggyError::StreamIdNotFound),
            Some(si) => match self.find_topic(si, topic_id) {
                None => Err(IggyError::TopicIdNotFound),
                Some(ti) => Ok((si, ti)),
            },
        }
    }

    /// The streams, in creation order.
    pub fn get_streams(&self, session: &Session) -> (r: Result<Vec<StreamDetails>, IggyError>)
        requires
            self.wf(),
        ensures
            gate(self@, *session, Scope::ReadStreams) matches Some(e) ==> r is Err && r->Err_0 == e,
            session.user_id is None ==> r == Err::<Vec<StreamDetails>, IggyError>(
                IggyError::Unauthenticated,
            ),
            gate(self@, *session, Scope::ReadStreams) is None ==> r is Ok && r->Ok_0@.len() == self@.streams.len() && forall|
                i: int,
            |
                0 <= i < self@.streams.len() ==> {
                    &&& (#[trigger] r->Ok_0@[i]).id == self@.streams[i].stream_id
                    &&& r->Ok_0@[i].name@ == self@.streams[i].name
                    &&& r->Ok_0@[i].topics_count == self@.streams[i].topics.len()
                },
    {
        self.check_permission(session, Scope::ReadStreams)?;
        let mut out: Vec<StreamDetails> = Vec::new();
        let mut i: usize = 0;
        while i < self.streams.len()
            invariant
                self.wf(),
                i <= self.streams@.len(),
                self@.streams.len() == self.streams@.len(),
                out@.len() == i,
                forall|j: int|
                    0 <= j < i ==> {
                        &&& (#[trigger] out@[j]).id == self@.streams[j].stream_id
                        &&& out@[j].name@ == self@.streams[j].name
                        &&& out@[j].topics_count == self@.streams[j].topics.len()
                    },
            decreases self.streams@.len() - i,
        {
            let s = &self.streams[i];
            assert(self@.streams[i as int] == s@);
            assert(stream_inv(s@));
            let name = copy_range(s.name.as_slice(), 0, s.name.len());
            assert(s.name@.subrange(0, s.name@.len() as int) =~= s.name@);
            out.push(StreamDetails { id: s.stream_id, name, topics_count: s.topics.len() as u32 });
            i += 1;
        }
        Ok(out)
    }

    /// Creates an empty stream. The name is 1 to 255 bytes; id and name
    /// must both be new. Stream counts are `u32`, so the last of the
    /// `u32::MAX` places is refused too.
    pub fn create_stream(&mut self, session: &Session, stream_id: u32, name: &str) -> (r: Result<
        (),
        IggyError,
    >)
        requires
            old(self).wf(),
        ensures
            final(self).wf(),
            r is Err ==> final(self)@ == old(self)@,
            gate(old(self)@, *session, Scope::ManageStreams) matches Some(e) ==> r is Err && r->Err_0 == e
                && final(self)@ == old(self)@,
            session.user_id is None ==> r == Err::<(), IggyError>(IggyError::Unauthenticated),
            gate(old(self)@, *session, Scope::ManageStreams) is None && !(1 <= name.spec_bytes().len() <= 255) ==> r == Err::<
                (),
                IggyError,
            >(IggyError::InvalidStreamName),
            gate(old(self)@, *session, Scope::ManageStreams) is None && 1 <= name.spec_bytes().len() <= 255 && (exists|i: int|
                0 <= i < old(self)@.streams.len() && #[trigger] old(self)@.streams[i].stream_id
                    == stream_id) ==> r == Err::<(), IggyError>(
                IggyError::StreamIdAlreadyExists(stream_id),
            ),
            gate(old(self)@, *session, Scope::ManageStreams) is None && 1 <= name.spec_bytes().len() <= 255 && !(exists|i: int|
                0 <= i < old(self)@.streams.len() && #[trigger] old(self)@.streams[i].stream_id
                    == stream_id) && (exists|i: int|
                0 <= i < old(self)@.streams.len() && #[trigger] old(self)@.streams[i].name
                    == name.spec_bytes()) ==> r == Err::<(), IggyError>(
                IggyError::StreamNameAlreadyExists,
            ),
            r is Ok ==> final(self)@ == (SystemView {
                streams: old(self)@.streams.push(
                    StreamView { stream_id, name: name.spec_bytes(), topics: Seq::empty() },
                ),
                ..old(self)@
            }),
            gate(old(self)@, *session, Scope::ManageStreams) is None && 1 <= name.spec_bytes().len() <= 255 && !(exists|i: int|
                0 <= i < old(self)@.streams.len() && #[trigger] old(self)@.streams[i].stream_id
                    == stream_id) && !(exists|i: int|
                0 <= i < old(self)@.streams.len() && #[trigger] old(self)@.streams[i].name
                    == name.spec_bytes()) && old(self)@.streams.len() < u32::MAX ==> r is Ok,
    {
        self.check_permission(session, Scope::ManageStreams)?;
        let bytes = name.as_bytes();
        if bytes.len() == 0 || bytes.len() > 255 {
            return Err(IggyError::InvalidStreamName);
        }
        let mut i: usize = 0;
        while i < self.streams.len()
            invariant
                self.wf(),
                self@ == old(self)@,
                gate(old(self)@, *session, Scope::ManageStreams) is None,
                bytes@ == name.spec_bytes(),
                1 <= bytes@.len() <= 255,
                i <= self.streams@.len(),
                self@.streams.len() == self.streams@.len(),
                forall|j: int| 0 <= j < i ==> #[trigger] self@.streams[j].stream_id != stream_id,
            decreases self.streams@.len() - i,
        {
            assert(self@.streams[i as int] == self.streams@[i as int]@);
            if self.streams[i].stream_id == stream_id {
                assert(self@.streams[i as int].stream_id == stream_id);
                return Err(IggyError::StreamIdAlreadyExists(stream_id));
            }
            i += 1;
        }
        let mut i: usize = 0;
        while i < self.streams.len()
            invariant
                self.wf(),
                self@ == old(self)@,
                gate(old(self)@, *session, Scope::ManageStreams) is None,
                forall|j: int| 0 <= j < self@.streams.len() ==> #[trigger] self@.streams[j].stream_id != stream_id,
                i <= self.streams@.len(),
                self@.streams.len() == self.streams@.len(),
                bytes@ == name.spec_bytes(),
                1 <= bytes@.len() <= 255,
                forall|j: int| 0 <= j < i ==> #[trigger] self@.streams[j].name != name.spec_bytes(),
            decreases self.streams@.len() - i,
        {
            assert(self@.streams[i as int] == self.streams@[i as int]@);
            if bytes_equal(self.streams[i].name.as_slice(), bytes) {
                assert(self@.streams[i as int].name == name.spec_bytes());
                return Err(IggyError::StreamNameAlreadyExists);
            }
            i += 1;
        }
        if self.streams.len() >= u32::MAX as usize {
            return Err(IggyError::InvalidStreamName);
        }
        let ghost old_v = self@;
        let name_bytes = copy_range(bytes, 0, bytes.len());
        assert(bytes@.subrange(0, bytes@.len() as int) =~= bytes@);
        let stream = Stream { stream_id, name: name_bytes, topics: Vec::new() };
        self.streams.push(stream);
        proof {
            let v = self@;
            assert(stream@.topics =~= Seq::<TopicView>::empty());
            assert(v.streams =~= old_v.streams.push(stream@));
            assert forall|a: int, b: int| 0 <= a < b < v.streams.len() implies (
            #[trigger] v.streams[a]).stream_id != (#[trigger] v.streams[b]).stream_id
                && v.streams[a].name != v.streams[b].name by {
                if b == v.streams.len() - 1 {
                    assert(old_v.streams[a].stream_id != stream_id);
                    assert(old_v.streams[a].name != name.spec_bytes());
                }
            }
            assert forall|a: int| 0 <= a < v.streams.len() implies stream_inv(#[trigger] v.streams[a]) by {
                if a < v.streams.len() - 1 {
                    assert(v.streams[a] == old_v.streams[a]);
                }
            }
        }
        Ok(())
    }

    /// Deletes a stream with all its topics.
    pub fn delete_stream(&mut self, session: &Session, stream_id: &Identifier) -> (r: Result<
        (),
        IggyError,
    >)
        requires
            old(self).wf(),
            stream_id.wf(),
        ensures
            final(self).wf(),
            gate(old(self)@, *session, Scope::ManageStreams) matches Some(e) ==> r is Err && r->Err_0 == e
                && final(self)@ == old(self)@,
            session.user_id is None ==> r == Err::<(), IggyError>(IggyError::Unauthenticated)
                && final(self)@ == old(self)@,
            gate(old(self)@, *session, Scope::ManageStreams) is None ==> match stream_index(old(self)@, stream_id@) {
                None => r == Err::<(), IggyError>(IggyError::StreamIdNotFound) && final(self)@
                    == old(self)@,
                Some(i) => r is Ok && final(self)@ == (SystemView {
                    streams: old(self)@.streams.remove(i),
                    ..old(self)@
                }),
            },
    {
        self.check_permission(session, Scope::ManageStreams)?;
        match self.find_stream(stream_id) {
            None => Err(IggyError::StreamIdNotFound),
            Some(i) => {
                let ghost old_v = self@;
                self.streams.remove(i);
                proof {
                    let v = self@;
                    assert(v.streams =~= old_v.streams.remove(i as int));
                    assert forall|a: int, b: int| 0 <= a < b < v.streams.len() implies (
                    #[trigger] v.streams[a]).stream_id != (#[trigger] v.streams[b]).stream_id
                        && v.streams[a].name != v.streams[b].name by {
                        let oa = if a < i { a } else { a + 1 };
                        let ob = if b < i { b } else { b + 1 };
                        assert(v.streams[a] == old_v.streams[oa]);
                        assert(v.streams[b] == old_v.streams[ob]);
                    }
                    assert forall|a: int| 0 <= a < v.streams.len() implies stream_inv(#[trigger] v.streams[a]) by {
                        let oa = if a < i { a } else { a + 1 };
                        assert(v.streams[a] == old_v.streams[oa]);
                    }
                }
                Ok(())
            },
        }
    }

    /// Creates a topic with `partitions_count` empty partitions in a stream.
    /// The name is 1 to 255 bytes, 1 to 1000 partitions; id and name must
    /// both be new in the stream. Topic counts are `u32`, so the last of the
    /// `u32::MAX` places is refused too.
    pub fn create_topic(
        &mut self,
        session: &Session,
        stream_id: &Identifier,
        topic_id: u32,
        partitions_count: u32,
        name: &str,
        message_expiry: Option<u64>,
    ) -> (r: Result<(), IggyError>)
        requires
            old(self).wf(),
            stream_id.wf(),
        ensures
            final(self).wf(),
            r is Err ==> final(self)@ == old(self)@,
            gate(old(self)@, *session, Scope::ManageStreams) matches Some(e) ==> r is Err && r->Err_0 == e
                && final(self)@ == old(self)@,
            session.user_id is None ==> r == Err::<(), IggyError>(IggyError::Unauthenticated),
            gate(old(self)@, *session, Scope::ManageStreams) is None && stream_index(old(self)@, stream_id@) is None ==> r == Err::<
                (),
                IggyError,
            >(IggyError::StreamIdNotFound),
            gate(old(self)@, *session, Scope::ManageStreams) is None && stream_index(old(self)@, stream_id@) is Some && !(1
                <= name.spec_bytes().len() <= 255) ==> r == Err::<(), IggyError>(
                IggyError::InvalidTopicName,
            ),
            gate(old(self)@, *session, Scope::ManageStreams) is None && stream_index(old(self)@, stream_id@) is Some && 1
                <= name.spec_bytes().len() <= 255 && !(1 <= partitions_count <= 1000) ==> r == Err::<
                (),
                IggyError,
            >(IggyError::InvalidTopicPartitions),
            r is Ok ==> {
                let si = stream_index(old(self)@, stream_id@)->Some_0;
                let s = old(self)@.streams[si];
                let t = final(self)@.streams[si].topics.last();
                &&& stream_index(old(self)@, stream_id@) is Some
                &&& final(self)@ == with_topic(
                    SystemView {
                        streams: old(self)@.streams.update(
                            si,
                            StreamView { topics: s.topics.push(t), ..s },
                        ),
                        ..old(self)@
                    },
                    si,
                    s.topics.len() as int,
                    t,
                )
                &&& t.stream_id == s.stream_id
                &&& t.topic_id == topic_id
                &&& t.name == name.spec_bytes()
                &&& t.partitions.len() == partitions_count
                &&& forall|i: int|
                    0 <= i < partitions_count ==> crate::topic::empty_partition(
                        #[trigger] t.partitions[i],
                        (i + 1) as u32,
                        old(self)@.config.segment_size_limit,
                    )
                &&& t.groups.len() == 0
                &&& t.message_expiry == message_expiry
                &&& forall|i: int| 0 <= i < s.topics.len() ==> #[trigger] s.topics[i].topic_id != topic_id
                    && s.topics[i].name != name.spec_bytes()
            },
            stream_index(old(self)@, stream_id@) matches Some(si) ==> (gate(old(self)@, *session, Scope::ManageStreams) is None && 1
                <= name.spec_bytes().len() <= 255 && 1 <= partitions_count <= 1000 ==> {
                let s = old(self)@.streams[si];
                &&& (exists|i: int| 0 <= i < s.topics.len() && #[trigger] s.topics[i].topic_id == topic_id)
                    ==> r == Err::<(), IggyError>(IggyError::TopicIdAlreadyExists(s.stream_id, topic_id))
                &&& !(exists|i: int| 0 <= i < s.topics.len() && #[trigger] s.topics[i].topic_id == topic_id)
                    && (exists|i: int| 0 <= i < s.topics.len() && #[trigger] s.topics[i].name == name.spec_bytes())
                    ==> r == Err::<(), IggyError>(IggyError::TopicNameAlreadyExists)
                &&& !(exists|i: int| 0 <= i < s.topics.len() && #[trigger] s.topics[i].topic_id == topic_id)
                    && !(exists|i: int| 0 <= i < s.topics.len() && #[trigger] s.topics[i].name == name.spec_bytes())
                    && s.topics.len() < u32::MAX ==> r is Ok
            }),
    {
        self.check_permission(session, Scope::ManageStreams)?;
        let si = match self.find_stream(stream_id) {
            None => {
                return Err(IggyError::StreamIdNotFound);
            },
            Some(si) => si,
        };
        let bytes = name.as_bytes();
        if bytes.len() == 0 || bytes.len() > 255 {
            return Err(IggyError::InvalidTopicName);
        }
        if partitions_count == 0 || partitions_count > 1000 {
            return Err(IggyError::InvalidTopicPartitions);
        }
        let ghost old_v = self@;
        let ghost sv = old_v.streams[si as int];
        assert(sv == self.streams@[si as int]@);
        assert(stream_inv(sv));
        let stream_number = self.streams[si].stream_id;
        let mut i: usize = 0;
        while i < self.streams[si].topics.len()
            invariant
                self@ == old_v,
                sv == self.streams@[si as int]@,
                si < self.streams@.len(),
                stream_inv(sv),
                i <= sv.topics.len(),
                sv.topics.len() == self.streams@[si as int].topics@.len(),
                old_v == old(self)@,
                system_inv(old_v),
                gate(old(self)@, *session, Scope::ManageStreams) is None,
                stream_index(old_v, stream_id@) == Some(si as int),
                sv == old_v.streams[si as int],
                stream_number == sv.stream_id,
                1 <= name.spec_bytes().len() <= 255,
                1 <= partitions_count <= 1000,
                forall|j: int| 0 <= j < i ==> #[trigger] sv.topics[j].topic_id != topic_id,
            decreases sv.topics.len() - i,
        {
            assert(sv.topics[i as int] == self.streams@[si as int].topics@[i as int]@);
            if self.streams[si].topics[i].topic_id() == topic_id {
                assert(sv.topics[i as int].topic_id == topic_id);
                return Err(IggyError::TopicIdAlreadyExists(stream_number, topic_id));
            }
            i += 1;
        }
        let mut i: usize = 0;
        while i < self.streams[si].topics.len()
            invariant
                self@ == old_v,
                sv == self.streams@[si as int]@,
                si < self.streams@.len(),
                stream_inv(sv),
                bytes@ == name.spec_bytes(),
                i <= sv.topics.len(),
                sv.topics.len() == self.streams@[si as int].topics@.len(),
                old_v == old(self)@,
                system_inv(old_v),
                gate(old(self)@, *session, Scope::ManageStreams) is None,
                stream_index(old_v, stream_id@) == Some(si as int),
                sv == old_v.streams[si as int],
                stream_number == sv.stream_id,
                1 <= name.spec_bytes().len() <= 255,
                1 <= partitions_count <= 1000,
                forall|j: int| 0 <= j < sv.topics.len() ==> #[trigger] sv.topics[j].topic_id != topic_id,
                forall|j: int| 0 <= j < i ==> #[trigger] sv.topics[j].name != name.spec_bytes(),
            decreases sv.topics.len() - i,
        {
            assert(sv.topics[i as int] == self.streams@[si as int].topics@[i as int]@);
            if bytes_equal(self.streams[si].topics[i].name().as_slice(), bytes) {
                assert(sv.topics[i as int].name == name.spec_bytes());
                return Err(IggyError::TopicNameAlreadyExists);
            }
            i += 1;
        }
        if self.streams[si].topics.len() >= u32::MAX as usize {
            return Err(IggyError::InvalidTopicPartitions);
        }
        let name_bytes = copy_range(bytes, 0, bytes.len());
        assert(bytes@.subrange(0, bytes@.len() as int) =~= bytes@);
        let topic = Topic::new(
            stream_number,
            topic_id,
            name_bytes,
            partitions_count,
            message_expiry,
            self.config.segment_size_limit,
        );
        let ghost tv = topic@;
        self.streams[si].topics.push(topic);
        proof {
            let v = self@;
            let ns = StreamView { topics: sv.topics.push(tv), ..sv };
            assert(self.streams@[si as int]@.topics =~= sv.topics.push(tv));
            assert(v.streams =~= old_v.streams.update(si as int, ns));
            assert(v == with_topic(
                SystemView { streams: old_v.streams.update(si as int, ns), ..old_v },
                si as int,
                sv.topics.len() as int,
                tv,
            )) by {
                assert(ns.topics.update(sv.topics.len() as int, tv) =~= ns.topics);
                assert(old_v.streams.update(si as int, ns).update(si as int, StreamView { topics: ns.topics.update(sv.topics.len() as int, tv), ..ns }) =~= v.streams);
            }
            assert(stream_inv(ns)) by {
                assert forall|a: int, b: int| 0 <= a < b < ns.topics.len() implies (
                #[trigger] ns.topics[a]).topic_id != (#[trigger] ns.topics[b]).topic_id
                    && ns.topics[a].name != ns.topics[b].name by {
                    if b == ns.topics.len() - 1 {
                        assert(sv.topics[a].topic_id != topic_id);
                        assert(sv.topics[a].name != name.spec_bytes());
                    }
                }
                assert forall|a: int| 0 <= a < ns.topics.len() implies topic_inv(#[trigger] ns.topics[a])
                    && ns.topics[a].stream_id == ns.stream_id by {
                    if a < ns.topics.len() - 1 {
                        assert(ns.topics[a] == sv.topics[a]);
                    }
                }
            }
            lemma_replace_stream(old_v, si as int, ns);
        }
        Ok(())
    }

    /// The topics of a stream, in creation order.
    pub fn get_topics(&self, session: &Session, stream_id: &Identifier) -> (r: Result<
        Vec<TopicDetails>,
        IggyError,
    >)
        requires
            self.wf(),
            stream_id.wf(),
        ensures
            gate(self@, *session, Scope::ReadStreams) matches Some(e) ==> r is Err && r->Err_0 == e,
            session.user_id is None ==> r == Err::<Vec<TopicDetails>, IggyError>(
                IggyError::Unauthenticated,
            ),
            gate(self@, *session, Scope::ReadStreams) is None && stream_index(self@, stream_id@) is None ==> r == Err::<
                Vec<TopicDetails>,
                IggyError,
            >(IggyError::StreamIdNotFound),
            stream_index(self@, stream_id@) matches Some(si) ==> (gate(self@, *session, Scope::ReadStreams) is None ==> {
                let ts = self@.streams[si].topics;
                &&& r is Ok
                &&& r->Ok_0@.len() == ts.len()
                &&& forall|i: int|
                    0 <= i < ts.len() ==> {
                        &&& (#[trigger] r->Ok_0@[i]).id == ts[i].topic_id
                        &&& r->Ok_0@[i].name@ == ts[i].name
                        &&& r->Ok_0@[i].partitions_count == ts[i].partitions.len()
                        &&& r->Ok_0@[i].messages_count == if messages_total(ts[i].partitions)
                            > u64::MAX {
                            u64::MAX as nat
                        } else {
                            messages_total(ts[i].partitions)
                        }
                        &&& r->Ok_0@[i].message_expiry == ts[i].message_expiry
                    }
            }),
    {
        self.check_permission(session, Scope::ReadStreams)?;
        let si = match self.find_stream(stream_id) {
            None => {
                return Err(IggyError::StreamIdNotFound);
            },
            Some(si) => si,
        };
        let stream = &self.streams[si];
        let ghost ts = stream@.topics;
        assert(self@.streams[si as int] == stream@);
        assert(stream_inv(stream@));
        let mut out: Vec<TopicDetails> = Vec::new();
        let mut i: usize = 0;
        while i < stream.topics.len()
            invariant
                ts == stream@.topics,
                stream_inv(stream@),
                i <= ts.len(),
                ts.len() == stream.topics@.len(),
                out@.len() == i,
                forall|j: int|
                    0 <= j < i ==> {
                        &&& (#[trigger] out@[j]).id == ts[j].topic_id
                        &&& out@[j].name@ == ts[j].name
                        &&& out@[j].partitions_count == ts[j].partitions.len()
                        &&& out@[j].messages_count == if messages_total(ts[j].partitions)
                            > u64::MAX {
                            u64::MAX as nat
                        } else {
                            messages_total(ts[j].partitions)
                        }
                        &&& out@[j].message_expiry == ts[j].message_expiry
                    },
            decreases ts.len() - i,
        {
            let t = &stream.topics[i];
            assert(ts[i as int] == t@);
            assert(topic_inv(t@));
            let name = copy_range(t.name().as_slice(), 0, t.name().len());
            assert(t@.name.subrange(0, t@.name.len() as int) =~= t@.name);
            out.push(
                TopicDetails {
                    id: t.topic_id(),
                    name,
                    partitions_count: t.partitions_count(),
                    messages_count: t.get_messages_count(),
                    message_expiry: t.message_expiry(),
                },
            );
            i += 1;
        }
        Ok(out)
    }

    /// Deletes a topic with its partitions and groups.
    pub fn delete_topic(&mut self, session: &Session, stream_id: &Identifier, topic_id: &Identifier) -> (r:
        Result<(), IggyError>)
        requires
            old(self).wf(),
            stream_id.wf(),
            topic_id.wf(),
        ensures
            final(self).wf(),
            session.user_id is None ==> r == Err::<(), IggyError>(IggyError::Unauthenticated)
                && final(self)@ == old(self)@,
            match topic_gate(old(self)@, *session, stream_id@, topic_id@, Scope::ManageStreams) {
                Err(e) => r == Err::<(), IggyError>(e) && final(self)@ == old(self)@,
                Ok((si, ti)) => r is Ok && final(self)@ == (SystemView {
                    streams: old(self)@.streams.update(
                        si,
                        StreamView {
                            topics: old(self)@.streams[si].topics.remove(ti),
                            ..old(self)@.streams[si]
                        },
                    ),
                    ..old(self)@
                }),
            },
    {
        self.ensure_authenticated(session)?;
        let (si, ti) = self.resolve(stream_id, topic_id)?;
        self.check_permission(session, Scope::ManageStreams)?;
        let ghost old_v = self@;
        let ghost sv = old_v.streams[si as int];
        assert(sv == self.streams@[si as int]@);
        assert(stream_inv(sv));
        self.streams[si].topics.remove(ti);
        proof {
            let ns = StreamView { topics: sv.topics.remove(ti as int), ..sv };
            assert(self.streams@[si as int]@.topics =~= ns.topics);
            assert(self@.streams =~= old_v.streams.update(si as int, ns));
            assert(stream_inv(ns)) by {
                assert forall|a: int, b: int| 0 <= a < b < ns.topics.len() implies (
                #[trigger] ns.topics[a]).topic_id != (#[trigger] ns.topics[b]).topic_id
                    && ns.topics[a].name != ns.topics[b].name by {
                    let oa = if a < ti { a } else { a + 1 };
                    let ob = if b < ti { b } else { b + 1 };
                    assert(ns.topics[a] == sv.topics[oa]);
                    assert(ns.topics[b] == sv.topics[ob]);
                }
                assert forall|a: int| 0 <= a < ns.topics.len() implies topic_inv(#[trigger] ns.topics[a])
                    && ns.topics[a].stream_id == ns.stream_id by {
                    let oa = if a < ti { a } else { a + 1 };
                    assert(ns.topics[a] == sv.topics[oa]);
                }
            }
            lemma_replace_stream(old_v, si as int, ns);
        }
        Ok(())
    }

    /// Appends a batch to the topic that two identifiers name; the topic's
    /// partitioning rule picks the partition. With encryption on, the caller
    /// hands in what the encryptor returned for each payload, and the
    /// ciphertexts are stored in place of the payloads; a payload that could
    /// not be encrypted fails the append with `CannotEncryptData`.
    pub fn append_messages(
        &mut self,
        session: &Session,
        stream_id: &Identifier,
        topic_id: &Identifier,
        partitioning: &Partitioning,
        messages: &Vec<Message>,
        now: u64,
        ciphertexts: Option<Vec<Option<Vec<u8>>>>,
    ) -> (r: Result<(), IggyError>)
        requires
            old(self).wf(),
            stream_id.wf(),
            topic_id.wf(),
            ciphertexts is Some == old(self)@.config.encryption_enabled,
            ciphertexts matches Some(cs) ==> cs@.len() == messages@.len(),
        ensures
            final(self).wf(),
            session.user_id is None ==> r == Err::<(), IggyError>(IggyError::Unauthenticated)
                && final(self)@ == old(self)@,
            match topic_gate(old(self)@, *session, stream_id@, topic_id@, Scope::SendMessages) {
                Err(e) => r == Err::<(), IggyError>(e) && final(self)@ == old(self)@,
                Ok((si, ti)) => match to_store(cipher_views(ciphertexts), inputs(messages@)) {
                    None => r == Err::<(), IggyError>(IggyError::CannotEncryptData) && final(self)@
                        == old(self)@,
                    Some(stored) => {
                        let (res, t) = topic_append(
                            old(self)@.streams[si].topics[ti],
                            *partitioning,
                            stored,
                            now,
                        );
                        &&& res matches Err(e) ==> r == Err::<(), IggyError>(e) && final(self)@
                            == old(self)@
                        &&& res is Ok ==> r is Ok && final(self)@ == with_topic(old(self)@, si, ti, t)
                    },
                },
            },
    {
        self.ensure_authenticated(session)?;
        let (si, ti) = self.resolve(stream_id, topic_id)?;
        self.check_permission(session, Scope::SendMessages)?;
        let ghost old_v = self@;
        proof {
            self.lemma_topic_at(si as int, ti as int);
        }
        let encrypted: Vec<Message>;
        let batch: &Vec<Message> = match ciphertexts {
            None => messages,
            Some(cs) => {
                encrypted = apply_ciphertexts(messages, cs)?;
                &encrypted
            },
        };
        let res = self.streams[si].topics[ti].append_messages(partitioning, batch, now);
        proof {
            self.lemma_after_topic_update(old_v, si as int, ti as int);
            lemma_with_same_topic(old_v, si as int, ti as int);
        }
        match res {
            Ok(_) => Ok(()),
            Err(e) => Err(e),
        }
    }

    proof fn lemma_topic_at(&self, si: int, ti: int)
        requires
            self.wf(),
            0 <= si < self@.streams.len(),
            0 <= ti < self@.streams[si].topics.len(),
        ensures
            self@.streams[si] == self.streams@[si]@,
            self@.streams[si].topics[ti] == self.streams@[si].topics@[ti]@,
            self.streams@[si].topics@.len() == self@.streams[si].topics.len(),
            stream_inv(self@.streams[si]),
            topic_inv(self.streams@[si].topics@[ti]@),
    {
        assert(stream_inv(self@.streams[si]));
    }

    proof fn lemma_after_topic_update(&self, old_v: SystemView, si: int, ti: int)
        requires
            system_inv(old_v),
            0 <= si < old_v.streams.len(),
            0 <= ti < old_v.streams[si].topics.len(),
            self.streams@.len() == old_v.streams.len(),
            forall|j: int| 0 <= j < old_v.streams.len() && j != si ==> #[trigger] self.streams@[j]@ == old_v.streams[j],
            self.streams@[si].stream_id == old_v.streams[si].stream_id,
            self.streams@[si].name@ == old_v.streams[si].name,
            self.streams@[si].topics@.len() == old_v.streams[si].topics.len(),
            forall|j: int| 0 <= j < old_v.streams[si].topics.len() && j != ti ==> #[trigger] self.streams@[si].topics@[j]@ == old_v.streams[si].topics[j],
            self.config == old_v.config,
            self.personal_access_token == old_v.personal_access_token,
            self.permissions@ == old_v.permissions,
            topic_inv(self.streams@[si].topics@[ti]@),
            self.streams@[si].topics@[ti]@.stream_id == old_v.streams[si].topics[ti].stream_id,
            self.streams@[si].topics@[ti]@.topic_id == old_v.streams[si].topics[ti].topic_id,
            self.streams@[si].topics@[ti]@.name == old_v.streams[si].topics[ti].name,
        ensures
            self@ == with_topic(old_v, si, ti, self.streams@[si].topics@[ti]@),
            self.wf(),
    {
        let t = self.streams@[si].topics@[ti]@;
        let w = with_topic(old_v, si, ti, t);
        assert(self.streams@[si]@.topics =~= w.streams[si].topics);
        assert(self@.streams =~= w.streams);
        lemma_replace_topic(old_v, si, ti, t);
    }

    /// Polls messages for a consumer or a group member at time `now`. First
    /// the topic's expired segments are deleted, so expired messages are
    /// never returned. A group member polls the partition its cursor points
    /// at, and the cursor moves on; a member without a share gets an empty
    /// result for partition 0. Payloads come as stored: with encryption on,
    /// the caller decrypts them and hands the plaintexts to
    /// `decrypt_polled`. With `auto_commit`, the offset of the last polled
    /// message is stored for the consumer.
    pub fn poll_messages(
        &mut self,
        session: &Session,
        consumer: &Consumer,
        stream_id: &Identifier,
        topic_id: &Identifier,
        partition_id: Option<u32>,
        args: PollingArgs,
        now: u64,
    ) -> (r: Result<PolledMessages, IggyError>)
        requires
            old(self).wf(),
            stream_id.wf(),
            topic_id.wf(),
        ensures
            final(self).wf(),
            session.user_id is None ==> r == Err::<PolledMessages, IggyError>(IggyError::Unauthenticated)
                && final(self)@ == old(self)@,
            session.user_id is Some && args.count == 0 ==> r == Err::<PolledMessages, IggyError>(
                IggyError::InvalidMessagesCount,
            ) && final(self)@ == old(self)@,
            args.count > 0 ==> match topic_gate(old(self)@, *session, stream_id@, topic_id@, Scope::PollMessages) {
                Err(e) => r == Err::<PolledMessages, IggyError>(e) && final(self)@ == old(self)@,
                Ok((si, ti)) => {
                    let t = old(self)@.streams[si].topics[ti];
                    if t.partitions.len() == 0 {
                        r == Err::<PolledMessages, IggyError>(IggyError::NoPartitions(t.topic_id, t.stream_id))
                            && final(self)@ == old(self)@
                    } else {
                        match resolve_consumer(t, *consumer, session.client_id, partition_id) {
                            Err(e) => r == Err::<PolledMessages, IggyError>(e) && final(self)@ == old(self)@,
                            Ok(None) => r is Ok && r->Ok_0.partition_id == 0 && r->Ok_0.current_offset == 0
                                && r->Ok_0.messages@.len() == 0 && final(self)@ == old(self)@,
                            Ok(Some((pc, pid))) => if !(1 <= pid <= t.partitions.len()) {
                                r == Err::<PolledMessages, IggyError>(IggyError::PartitionNotFound(pid))
                                    && final(self)@ == old(self)@
                            } else {
                                let t1 = topic_after_poll(topic_without_expired(t, now), pc);
                                let p = t1.partitions[pid - 1];
                                let ms = poll_result(p, consumer_key(pc), args.strategy, args.count);
                                &&& r is Ok
                                &&& r->Ok_0.partition_id == pid
                                &&& r->Ok_0.current_offset == p.next_offset
                                &&& message_views(r->Ok_0.messages@) == ms
                                &&& final(self)@ == with_topic(
                                    old(self)@,
                                    si,
                                    ti,
                                    if args.auto_commit && ms.len() > 0 {
                                        topic_store_offset(t1, pc, pid, ms.last().offset).1
                                    } else {
                                        t1
                                    },
                                )
                            },
                        }
                    }
                },
            },
    {
        self.ensure_authenticated(session)?;
        if args.count == 0 {
            return Err(IggyError::InvalidMessagesCount);
        }
        let (si, ti) = self.resolve(stream_id, topic_id)?;
        self.check_permission(session, Scope::PollMessages)?;
        let ghost old_v = self@;
        proof {
            self.lemma_topic_at(si as int, ti as int);
        }
        let topic = &self.streams[si].topics[ti];
        let ghost t = topic@;
        if topic.partitions_count() == 0 {
            return Err(IggyError::NoPartitions(topic.topic_id(), self.streams[si].stream_id));
        }
        let resolved = topic.resolve_consumer_with_partition_id(consumer, session.client_id, partition_id)?;
        let (polling_consumer, pid) = match resolved {
            None => {
                return Ok(PolledMessages { partition_id: 0, current_offset: 0, messages: Vec::new() });
            },
            Some(x) => x,
        };
        if pid == 0 || pid > topic.partitions_count() {
            return Err(IggyError::PartitionNotFound(pid));
        }
        self.streams[si].topics[ti].delete_expired_segments(now);
        self.streams[si].topics[ti].after_poll(polling_consumer);
        proof {
            self.lemma_after_topic_update(old_v, si as int, ti as int);
        }
        let ghost mid = self@;
        let ghost t1 = self@.streams[si as int].topics[ti as int];
        proof {
            self.lemma_topic_at(si as int, ti as int);
        }
        let polled = match self.streams[si].topics[ti].get_messages(
            polling_consumer,
            pid,
            args.strategy,
            args.count,
        ) {
            Ok(p) => p,
            Err(e) => {
                return Err(e);
            },
        };
        let ghost ms = poll_result(t1.partitions[pid - 1], consumer_key(polling_consumer), args.strategy, args.count);
        let n = polled.messages.len();
        let offset: u64 = if n > 0 {
            polled.messages[n - 1].offset
        } else {
            0
        };
        let ghost raw = polled.messages@;
        let PolledMessages { partition_id: polled_partition, current_offset, messages: raw_messages } = polled;
        let messages = raw_messages;
        if !args.auto_commit || n == 0 {
            return Ok(PolledMessages { partition_id: polled_partition, current_offset, messages });
        }
        proof {
            let p = t1.partitions[pid - 1];
            assert(topic_inv(t1));
            assert(crate::partition::partition_inv(p));
            lemma_polled_offsets(p, consumer_key(polling_consumer), args.strategy, args.count);
            assert(ms[n - 1] == raw[n - 1]@);
            assert(offset < p.next_offset);
        }
        let stored = self.streams[si].topics[ti].store_consumer_offset(polling_consumer, pid, offset);
        proof {
            self.lemma_after_topic_update(mid, si as int, ti as int);
            lemma_with_topic_twice(old_v, si as int, ti as int, t1, self@.streams[si as int].topics[ti as int]);
        }
        match stored {
            Ok(()) => Ok(PolledMessages { partition_id: polled_partition, current_offset, messages }),
            Err(e) => Err(e),
        }
    }

    /// Stores the offset that a consumer, or a group, has read up to.
    pub fn store_consumer_offset(
        &mut self,
        session: &Session,
        consumer: &Consumer,
        stream_id: &Identifier,
        topic_id: &Identifier,
        partition_id: Option<u32>,
        offset: u64,
    ) -> (r: Result<(), IggyError>)
        requires
            old(self).wf(),
            stream_id.wf(),
            topic_id.wf(),
        ensures
            final(self).wf(),
            r is Err ==> final(self)@ == old(self)@,
            session.user_id is None ==> r == Err::<(), IggyError>(IggyError::Unauthenticated),
            match topic_gate(old(self)@, *session, stream_id@, topic_id@, Scope::PollMessages) {
                Err(e) => r == Err::<(), IggyError>(e),
                Ok((si, ti)) => {
                    let t = old(self)@.streams[si].topics[ti];
                    match resolve_consumer(t, *consumer, session.client_id, partition_id) {
                        Err(e) => r == Err::<(), IggyError>(e),
                        Ok(None) => r == Err::<(), IggyError>(IggyError::PartitionNotFound(0)),
                        Ok(Some((pc, pid))) => {
                            let (res, nt) = topic_store_offset(t, pc, pid, offset);
                            &&& res matches Err(e) ==> r == Err::<(), IggyError>(e)
                            &&& res is Ok ==> r is Ok && final(self)@ == with_topic(old(self)@, si, ti, nt)
                        },
                    }
                },
            },
    {
        self.ensure_authenticated(session)?;
        let (si, ti) = self.resolve(stream_id, topic_id)?;
        self.check_permission(session, Scope::PollMessages)?;
        let ghost old_v = self@;
        proof {
            self.lemma_topic_at(si as int, ti as int);
        }
        let resolved = self.streams[si].topics[ti].resolve_consumer_with_partition_id(
            consumer,
            session.client_id,
            partition_id,
        )?;
        let (polling_consumer, pid) = match resolved {
            None => {
                return Err(IggyError::PartitionNotFound(0));
            },
            Some(x) => x,
        };
        let res = self.streams[si].topics[ti].store_consumer_offset(polling_consumer, pid, offset);
        proof {
            self.lemma_after_topic_update(old_v, si as int, ti as int);
            lemma_with_same_topic(old_v, si as int, ti as int);
        }
        res
    }

    /// Creates an empty consumer group in a topic.
    pub fn create_consumer_group(
        &mut self,
        session: &Session,
        stream_id: &Identifier,
        topic_id: &Identifier,
        group_id: u32,
        name: &str,
    ) -> (r: Result<(), IggyError>)
        requires
            old(self).wf(),
            stream_id.wf(),
            topic_id.wf(),
        ensures
            final(self).wf(),
            r is Err ==> final(self)@ == old(self)@,
            session.user_id is None ==> r == Err::<(), IggyError>(IggyError::Unauthenticated),
            match topic_gate(old(self)@, *session, stream_id@, topic_id@, Scope::ManageStreams) {
                Err(e) => r == Err::<(), IggyError>(e),
                Ok((si, ti)) => {
                    let (res, nt) = topic_create_group(old(self)@.streams[si].topics[ti], group_id);
                    r == res && (res is Ok ==> final(self)@ == with_topic(old(self)@, si, ti, nt))
                },
            },
    {
        self.ensure_authenticated(session)?;
        let (si, ti) = self.resolve(stream_id, topic_id)?;
        self.check_permission(session, Scope::ManageStreams)?;
        let ghost old_v = self@;
        proof {
            self.lemma_topic_at(si as int, ti as int);
        }
        let res = self.streams[si].topics[ti].create_consumer_group(group_id, name.to_string());
        proof {
            self.lemma_after_topic_update(old_v, si as int, ti as int);
            lemma_with_same_topic(old_v, si as int, ti as int);
        }
        res
    }

    /// The client of `session` joins a consumer group.
    pub fn join_consumer_group(
        &mut self,
        session: &Session,
        stream_id: &Identifier,
        topic_id: &Identifier,
        group_id: u32,
    ) -> (r: Result<(), IggyError>)
        requires
            old(self).wf(),
            stream_id.wf(),
            topic_id.wf(),
        ensures
            final(self).wf(),
            r is Err ==> final(self)@ == old(self)@,
            session.user_id is None ==> r == Err::<(), IggyError>(IggyError::Unauthenticated),
            match topic_gate(old(self)@, *session, stream_id@, topic_id@, Scope::PollMessages) {
                Err(e) => r == Err::<(), IggyError>(e),
                Ok((si, ti)) => {
                    let (res, nt) = topic_join(
                        old(self)@.streams[si].topics[ti],
                        group_id,
                        session.client_id,
                    );
                    r == res && (res is Ok ==> final(self)@ == with_topic(old(self)@, si, ti, nt))
                },
            },
    {
        self.ensure_authenticated(session)?;
        let (si, ti) = self.resolve(stream_id, topic_id)?;
        self.check_permission(session, Scope::PollMessages)?;
        let ghost old_v = self@;
        proof {
            self.lemma_topic_at(si as int, ti as int);
        }
        let res = self.streams[si].topics[ti].join_consumer_group(group_id, session.client_id);
        proof {
            self.lemma_after_topic_update(old_v, si as int, ti as int);
            lemma_with_same_topic(old_v, si as int, ti as int);
        }
        res
    }

    /// The client of `session` leaves a consumer group.
    pub fn leave_consumer_group(
        &mut self,
        session: &Session,
        stream_id: &Identifier,
        topic_id: &Identifier,
        group_id: u32,
    ) -> (r: Result<(), IggyError>)
        requires
            old(self).wf(),
            stream_id.wf(),
            topic_id.wf(),
        ensures
            final(self).wf(),
            r is Err ==> final(self)@ == old(self)@,
            session.user_id is None ==> r == Err::<(), IggyError>(IggyError::Unauthenticated),
            match topic_gate(old(self)@, *session, stream_id@, topic_id@, Scope::PollMessages) {
                Err(e) => r == Err::<(), IggyError>(e),
                Ok((si, ti)) => {
                    let (res, nt) = topic_leave(
                        old(self)@.streams[si].topics[ti],
                        group_id,
                        session.client_id,
                    );
                    r == res && (res is Ok ==> final(self)@ == with_topic(old(self)@, si, ti, nt))
                },
            },
    {
        self.ensure_authenticated(session)?;
        let (si, ti) = self.resolve(stream_id, topic_id)?;
        self.check_permission(session, Scope::PollMessages)?;
        let ghost old_v = self@;
        proof {
            self.lemma_topic_at(si as int, ti as int);
        }
        let res = self.streams[si].topics[ti].leave_consumer_group(group_id, session.client_id);
        proof {
            self.lemma_after_topic_update(old_v, si as int, ti as int);
            lemma_with_same_topic(old_v, si as int, ti as int);
        }
        res
    }

    /// The partition indexes that the client of `session` owns in a group.
    pub fn get_member_partitions(
        &self,
        session: &Session,
        stream_id: &Identifier,
        topic_id: &Identifier,
        group_id: u32,
    ) -> (r: Result<Vec<u32>, IggyError>)
        requires
            self.wf(),
            stream_id.wf(),
            topic_id.wf(),
        ensures
            session.user_id is None ==> r == Err::<Vec<u32>, IggyError>(IggyError::Unauthenticated),
            match topic_gate(self@, *session, stream_id@, topic_id@, Scope::ReadStreams) {
                Err(e) => r == Err::<Vec<u32>, IggyError>(e),
                Ok((si, ti)) => {
                    let t = self@.streams[si].topics[ti];
                    match group_index(t, group_id) {
                        None => r == Err::<Vec<u32>, IggyError>(IggyError::ConsumerGroupNotFound),
                        Some(g) => r is Ok && r->Ok_0@ == assigned_partitions(
                            t.groups[g],
                            session.client_id,
                        ),
                    }
                },
            },
    {
        self.ensure_authenticated(session)?;
        let (si, ti) = self.resolve(stream_id, topic_id)?;
        self.check_permission(session, Scope::ReadStreams)?;
        proof {
            self.lemma_topic_at(si as int, ti as int);
        }
        self.streams[si].topics[ti].get_member_partitions(group_id, session.client_id)
    }

    /// Makes the appended messages of a partition durable. Appends here are
    /// visible to polls as soon as they return, so what is left is to check
    /// that the partition exists.
    pub fn flush_unsaved_buffer(
        &self,
        session: &Session,
        stream_id: &Identifier,
        topic_id: &Identifier,
        partition_id: u32,
        fsync: bool,
    ) -> (r: Result<(), IggyError>)
        requires
            self.wf(),
            stream_id.wf(),
            topic_id.wf(),
        ensures
            session.user_id is None ==> r == Err::<(), IggyError>(IggyError::Unauthenticated),
            match topic_gate(self@, *session, stream_id@, topic_id@, Scope::SendMessages) {
                Err(e) => r == Err::<(), IggyError>(e),
                Ok((si, ti)) => if 1 <= partition_id <= self@.streams[si].topics[ti].partitions.len() {
                    r is Ok
                } else {
                    r == Err::<(), IggyError>(IggyError::PartitionNotFound(partition_id))
                },
            },
    {
        self.ensure_authenticated(session)?;
        let (si, ti) = self.resolve(stream_id, topic_id)?;
        self.check_permission(session, Scope::SendMessages)?;
        proof {
            self.lemma_topic_at(si as int, ti as int);
        }
        let n = self.streams[si].topics[ti].partitions_count();
        if partition_id == 0 || partition_id > n {
            return Err(IggyError::PartitionNotFound(partition_id));
        }
        Ok(())
    }

    /// Deletes, in every topic with a message expiry, the segments whose
    /// messages have all expired at time `now`.
    pub fn delete_expired_segments(&mut self, now: u64)
        requires
            old(self).wf(),
        ensures
            final(self).wf(),
            final(self)@.config == old(self)@.config,
            final(self)@.permissions == old(self)@.permissions,
            final(self)@.personal_access_token == old(self)@.personal_access_token,
            final(self)@.streams.len() == old(self)@.streams.len(),
            forall|si: int|
                0 <= si < old(self)@.streams.len() ==> {
                    let s = old(self)@.streams[si];
                    &&& (#[trigger] final(self)@.streams[si]).stream_id == s.stream_id
                    &&& final(self)@.streams[si].name == s.name
                    &&& final(self)@.streams[si].topics == Seq::new(
                        s.topics.len(),
                        |ti: int| topic_without_expired(s.topics[ti], now),
                    )
                },
    {
        let ghost old_v = self@;
        let mut si: usize = 0;
        while si < self.streams.len()
            invariant
                system_inv(old_v),
                self.wf(),
                si <= self.streams@.len(),
                self@.config == old_v.config,
                self@.permissions == old_v.permissions,
                self@.personal_access_token == old_v.personal_access_token,
                self@.streams.len() == old_v.streams.len(),
                forall|j: int| si <= j < old_v.streams.len() ==> #[trigger] self@.streams[j] == old_v.streams[j],
                forall|j: int|
                    0 <= j < si ==> {
                        let s = old_v.streams[j];
                        &&& (#[trigger] self@.streams[j]).stream_id == s.stream_id
                        &&& self@.streams[j].name == s.name
                        &&& self@.streams[j].topics == Seq::new(
                            s.topics.len(),
                            |ti: int| topic_without_expired(s.topics[ti], now),
                        )
                    },
            decreases self.streams@.len() - si,
        {
            let ghost before = self@;
            let ghost sv = before.streams[si as int];
            assert(sv == self.streams@[si as int]@);
            assert(stream_inv(sv));
            let mut ti: usize = 0;
            while ti < self.streams[si].topics.len()
                invariant
                    system_inv(before),
                    si < self.streams@.len(),
                    self.streams@.len() == before.streams.len(),
                    self.config == before.config,
                    self.permissions@ == before.permissions,
                    self.personal_access_token == before.personal_access_token,
                    sv == before.streams[si as int],
                    stream_inv(sv),
                    forall|j: int| 0 <= j < before.streams.len() && j != si ==> #[trigger] self.streams@[j]@ == before.streams[j],
                    self.streams@[si as int].stream_id == sv.stream_id,
                    self.streams@[si as int].name@ == sv.name,
                    self.streams@[si as int].topics@.len() == sv.topics.len(),
                    ti <= sv.topics.len(),
                    forall|j: int| ti <= j < sv.topics.len() ==> #[trigger] self.streams@[si as int].topics@[j]@ == sv.topics[j],
                    forall|j: int| 0 <= j < ti ==> #[trigger] self.streams@[si as int].topics@[j]@ == topic_without_expired(sv.topics[j], now),
                    forall|j: int| 0 <= j < ti ==> topic_inv(#[trigger] self.streams@[si as int].topics@[j]@),
                decreases sv.topics.len() - ti,
            {
                assert(topic_inv(sv.topics[ti as int]));
                self.streams[si].topics[ti].delete_expired_segments(now);
                ti += 1;
            }
            proof {
                let ns = StreamView {
                    topics: Seq::new(sv.topics.len(), |j: int| topic_without_expired(sv.topics[j], now)),
                    ..sv
                };
                assert(self.streams@[si as int]@.topics =~= ns.topics);
                assert(self.streams@[si as int]@ == ns);
                assert(stream_inv(ns)) by {
                    assert forall|a: int, b: int| 0 <= a < b < ns.topics.len() implies (
                    #[trigger] ns.topics[a]).topic_id != (#[trigger] ns.topics[b]).topic_id
                        && ns.topics[a].name != ns.topics[b].name by {
                        assert(ns.topics[a].topic_id == sv.topics[a].topic_id);
                        assert(ns.topics[b].topic_id == sv.topics[b].topic_id);
                    }
                    assert forall|a: int| 0 <= a < ns.topics.len() implies topic_inv(#[trigger] ns.topics[a])
                        && ns.topics[a].stream_id == ns.stream_id by {
                        assert(ns.topics[a] == self.streams@[si as int].topics@[a]@);
                    }
                }
                lemma_replace_stream(before, si as int, ns);
                assert(self@.streams =~= before.streams.update(si as int, ns));
            }
            si += 1;
        }
    }

    /// Empties every partition of a topic, keeping the topic, its partitions
    /// and its groups.
    pub fn purge_topic(&mut self, session: &Session, stream_id: &Identifier, topic_id: &Identifier) -> (r:
        Result<(), IggyError>)
        requires
            old(self).wf(),
            stream_id.wf(),
            topic_id.wf(),
        ensures
            final(self).wf(),
            r is Err ==> final(self)@ == old(self)@,
            session.user_id is None ==> r == Err::<(), IggyError>(IggyError::Unauthenticated),
            match topic_gate(old(self)@, *session, stream_id@, topic_id@, Scope::ManageStreams) {
                Err(e) => r == Err::<(), IggyError>(e),
                Ok((si, ti)) => {
                    let t = old(self)@.streams[si].topics[ti];
                    r is Ok && final(self)@ == with_topic(
                        old(self)@,
                        si,
                        ti,
                        TopicView {
                            partitions: Seq::new(t.partitions.len(), |i: int| purged(t.partitions[i])),
                            ..t
                        },
                    )
                },
            },
    {
        self.ensure_authenticated(session)?;
        let (si, ti) = self.resolve(stream_id, topic_id)?;
        self.check_permission(session, Scope::ManageStreams)?;
        let ghost old_v = self@;
        proof {
            self.lemma_topic_at(si as int, ti as int);
        }
        self.streams[si].topics[ti].purge();
        proof {
            self.lemma_after_topic_update(old_v, si as int, ti as int);
        }
        Ok(())
    }

    /// The response frame to a `GetTopics` request: the stream's topics as a
    /// listing of id, partition count and name, or the error's code.
    pub fn handle_get_topics(&self, session: &Session, command: &GetTopics) -> (r: Vec<u8>)
        requires
            self.wf(),
            command.stream_id.wf(),
        ensures
            gate(self@, *session, Scope::ReadStreams) matches Some(e) ==> r@ == spec_response_bytes(
                error_code(e),
                Seq::empty(),
            ),
            gate(self@, *session, Scope::ReadStreams) is None ==> match stream_index(
                self@,
                command.stream_id@,
            ) {
                None => r@ == spec_response_bytes(error_code(IggyError::StreamIdNotFound), Seq::empty()),
                Some(si) => {
                    let ts = self@.streams[si].topics;
                    let listing = listing_bytes(
                        Seq::new(
                            ts.len(),
                            |i: int|
                                TopicRecord {
                                    id: ts[i].topic_id,
                                    partitions: ts[i].partitions.len() as u32,
                                    name: ts[i].name,
                                },
                        ),
                    );
                    &&& listing.len() <= u32::MAX ==> r@ == spec_response_bytes(0, listing)
                    &&& listing.len() > u32::MAX ==> r@ == spec_response_bytes(
                        error_code(IggyError::InvalidFormat),
                        Seq::empty(),
                    )
                },
            },
    {
        let details = match self.get_topics(session, &command.stream_id) {
            Ok(d) => d,
            Err(e) => {
                return error_response(e);
            },
        };
        let ghost si = stream_index(self@, command.stream_id@)->Some_0;
        let ghost ts = self@.streams[si].topics;
        let mut topics: Vec<crate::client::Topic> = Vec::new();
        let mut i: usize = 0;
        while i < details.len()
            invariant
                i <= details@.len(),
                details@.len() == ts.len(),
                forall|j: int|
                    0 <= j < ts.len() ==> {
                        &&& (#[trigger] details@[j]).id == ts[j].topic_id
                        &&& details@[j].name@ == ts[j].name
                        &&& details@[j].partitions_count == ts[j].partitions.len()
                    },
                forall|j: int| 0 <= j < ts.len() ==> topic_inv(#[trigger] ts[j]),
                topics@.len() == i,
                forall|j: int|
                    0 <= j < i ==> (#[trigger] topics@[j])@ == (TopicRecord {
                        id: ts[j].topic_id,
                        partitions: ts[j].partitions.len() as u32,
                        name: ts[j].name,
                    }),
            decreases details@.len() - i,
        {
            let d = &details[i];
            let name = copy_range(d.name.as_slice(), 0, d.name.len());
            assert(d.name@.subrange(0, d.name@.len() as int) =~= d.name@);
            topics.push(crate::client::Topic { id: d.id, partitions: d.partitions_count, name });
            i += 1;
        }
        let ghost records = Seq::new(
            ts.len(),
            |j: int| TopicRecord { id: ts[j].topic_id, partitions: ts[j].partitions.len() as u32, name: ts[j].name },
        );
        proof {
            assert(topic_records(topics@) =~= records);
            assert forall|j: int| 0 <= j < topics@.len() implies listable(#[trigger] topics@[j]@) by {
                assert(topic_inv(ts[j]));
            }
        }
        let listing = encode_topics(&topics);
        if listing.len() > u32::MAX as usize {
            return error_response(IggyError::InvalidFormat);
        }
        ok_response(listing.as_slice())
    }
}

} // verus!
