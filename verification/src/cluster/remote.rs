//! Requests to other nodes and their replies, and the table of clients that
//! reach them.
use vstd::prelude::*;
use crate::core_types::error::{CoreError, cat2};
use crate::core_types::id::{EventId, NodeId, random_uuid, spec_uuid_text, uuid_text, spec_node_text};
use crate::core_types::text::spec_u64_decimal;
use crate::core_types::text::u64_to_decimal;

verus! {

/// A transport error.
#[derive(Debug, Clone, PartialEq, Eq)]
pub enum TransportError {
    ConnectionFailed(String),
    Timeout(u64),
    Serialization(String),
    InvalidResponse(String),
    NodeUnavailable(NodeId),
}

/// The message of a transport error.
pub open spec fn spec_transport_error_text(e: TransportError) -> Seq<char> {
    match e {
        TransportError::ConnectionFailed(m) => "Connection failed: "@ + m@,
        TransportError::Timeout(ms) => "Request timeout after "@ + spec_u64_decimal(ms) + "ms"@,
        TransportError::Serialization(m) => "Serialization error: "@ + m@,
        TransportError::InvalidResponse(m) => "Invalid response: "@ + m@,
        TransportError::NodeUnavailable(n) => "Node unavailable: "@ + spec_node_text(n.value),
    }
}

impl TransportError {
    /// The error message.
    pub fn to_string(&self) -> (s: String)
        ensures
            s@ == spec_transport_error_text(*self),
    {
        match self {
            TransportError::ConnectionFailed(m) => cat2("Connection failed: ", m.as_str()),
            TransportError::Timeout(ms) => {
                let d = u64_to_decimal(*ms);
                let s = cat2("Request timeout after ", d.as_str());
                cat2(s.as_str(), "ms")
            },
            TransportError::Serialization(m) => cat2("Serialization error: ", m.as_str()),
            TransportError::InvalidResponse(m) => cat2("Invalid response: ", m.as_str()),
            TransportError::NodeUnavailable(n) => {
                let t = n.to_string();
                cat2("Node unavailable: ", t.as_str())
            },
        }
    }
}

/// A request to run an event on another node.
#[derive(Debug, Clone, PartialEq, Eq)]
pub struct RemoteRequest {
    pub request_id: String,
    pub source: NodeId,
    pub event_id: EventId,
    pub payload: Vec<u8>,
}

impl RemoteRequest {
    /// A request with a fresh random identifier, the text of a UUID.
    pub fn new(source: NodeId, event_id: EventId, payload: Vec<u8>) -> (r: Self)
        ensures
            exists|v: u128| r.request_id@ == spec_uuid_text(v),
            r.source == source,
            r.event_id == event_id,
            r.payload@ == payload@,
    {
        let v = random_uuid();
        RemoteRequest { request_id: uuid_text(v), source, event_id, payload }
    }
}

/// The reply to a request.
#[derive(Debug, Clone, PartialEq, Eq)]
pub struct RemoteResponse {
    pub request_id: String,
    pub payload: Vec<u8>,
    pub success: bool,
    pub error: Option<String>,
}

impl RemoteResponse {
    /// A successful reply carrying `payload`.
    pub fn success(request_id: String, payload: Vec<u8>) -> (r: Self)
        ensures
            r == (RemoteResponse { request_id, payload, success: true, error: None }),
    {
        RemoteResponse { request_id, payload, success: true, error: None }
    }

    /// A failed reply with an empty payload.
    pub fn error(request_id: String, error: String) -> (r: Self)
        ensures
            r.request_id == request_id,
            r.payload@.len() == 0,
            !r.success,
            r.error == Some(error),
    {
        RemoteResponse { request_id, payload: Vec::new(), success: false, error: Some(error) }
    }
}

/// The payload a node answers an executed request with.
pub open spec fn executed_payload() -> Seq<u8> {
    seq![101u8, 120u8, 101u8, 99u8, 117u8, 116u8, 101u8, 100u8]
}

/// A client that reaches one node.
#[derive(Debug, Clone, PartialEq, Eq)]
pub struct RemoteClient {
    target: NodeId,
    address: String,
    timeout_ms: u64,
}

impl RemoteClient {
    /// A client of `target` at `address`, with a 5000 ms timeout.
    pub fn new(target: NodeId, address: String) -> (c: Self)
        ensures
            c.target_spec() == target,
            c.address_spec() == address@,
            c.timeout_spec() == 5000,
    {
        RemoteClient { target, address, timeout_ms: 5000 }
    }

    /// The node reached.
    pub closed spec fn target_spec(&self) -> NodeId {
        self.target
    }

    /// The node's address.
    pub closed spec fn address_spec(&self) -> Seq<char> {
        self.address@
    }

    /// The timeout in milliseconds.
    pub closed spec fn timeout_spec(&self) -> u64 {
        self.timeout_ms
    }

    /// The node reached.
    pub fn target(&self) -> (t: NodeId)
        ensures
            t == self.target_spec(),
    {
        self.target
    }

    /// The node's address.
    pub fn address(&self) -> (a: &str)
        ensures
            a@ == self.address_spec(),
    {
        self.address.as_str()
    }

    /// The timeout in milliseconds.
    pub fn timeout_ms(&self) -> (t: u64)
        ensures
            t == self.timeout_spec(),
    {
        self.timeout_ms
    }

    /// The node's reply to `request`: it runs the request and answers with
    /// success and the payload `executed`, under the request's identifier.
    pub fn send(&self, request: RemoteRequest) -> (r: Result<RemoteResponse, CoreError>)
        ensures
            r matches Ok(resp) && resp.request_id@ == request.request_id@ && resp.success && resp.error is None
                && resp.payload@ == executed_payload(),
    {
        let mut payload: Vec<u8> = Vec::new();
        payload.push(101u8);
        payload.push(120u8);
        payload.push(101u8);
        payload.push(99u8);
        payload.push(117u8);
        payload.push(116u8);
        payload.push(101u8);
        payload.push(100u8);
        assert(payload@ =~= executed_payload());
        Ok(RemoteResponse::success(request.request_id, payload))
    }

    /// The same client with another timeout.
    pub fn with_timeout(self, timeout_ms: u64) -> (c: Self)
        ensures
            c.target_spec() == self.target_spec(),
            c.address_spec() == self.address_spec(),
            c.timeout_spec() == timeout_ms,
    {
        RemoteClient { timeout_ms, ..self }
    }

    /// A copy of the client.
    pub fn duplicate(&self) -> (c: Self)
        ensures
            c.target_spec() == self.target_spec(),
            c.address_spec() == self.address_spec(),
            c.timeout_spec() == self.timeout_spec(),
    {
        RemoteClient { target: self.target, address: self.address.clone(), timeout_ms: self.timeout_ms }
    }
}

/// The targets of a list of clients.
pub open spec fn client_targets(cs: Seq<RemoteClient>) -> Seq<u128> {
    cs.map_values(|c: RemoteClient| c.target_spec().value)
}

/// The position of the client reaching `id`.
pub open spec fn client_at(cs: Seq<RemoteClient>, id: u128) -> int {
    choose|i: int| 0 <= i < cs.len() && #[trigger] cs[i].target_spec().value == id
}

/// Whether some client reaches `id`.
pub open spec fn has_client(cs: Seq<RemoteClient>, id: u128) -> bool {
    exists|i: int| 0 <= i < cs.len() && #[trigger] cs[i].target_spec().value == id
}

/// The clients of a node, one per target, in the order they were added.
pub struct RemoteExecutor {
    node_id: NodeId,
    clients: Vec<RemoteClient>,
}

impl RemoteExecutor {
    #[verifier::type_invariant]
    closed spec fn wf(self) -> bool {
        client_targets(self.clients@).no_duplicates()
    }

    /// The node these clients belong to.
    pub closed spec fn node_spec(&self) -> NodeId {
        self.node_id
    }

    /// The clients, in order.
    pub closed spec fn clients_spec(&self) -> Seq<RemoteClient> {
        self.clients@
    }

    /// No clients yet.
    pub fn new(node_id: NodeId) -> (e: Self)
        ensures
            e.node_spec() == node_id,
            e.clients_spec().len() == 0,
    {
        let e = RemoteExecutor { node_id, clients: Vec::new() };
        assert(client_targets(e.clients@) =~= Seq::<u128>::empty());
        e
    }

    /// The position of the client reaching `id`.
    fn find(&self, id: NodeId) -> (r: Option<usize>)
        ensures
            r is None <==> !has_client(self.clients_spec(), id.value),
            r matches Some(k) ==> k < self.clients_spec().len() && k == client_at(self.clients_spec(), id.value),
    {
        proof {
            use_type_invariant(self);
        }
        let ghost cs = self.clients@;
        let mut i: usize = 0;
        while i < self.clients.len()
            invariant
                cs == self.clients@,
                client_targets(cs).no_duplicates(),
                i <= cs.len(),
                forall|j: int| 0 <= j < i ==> cs[j].target_spec().value != id.value,
            decreases cs.len() - i,
        {
            if self.clients[i].target() == id {
                proof {
                    let k = client_at(cs, id.value);
                    assert(cs[i as int].target_spec().value == id.value);
                    if k != i {
                        assert(client_targets(cs)[k] == client_targets(cs)[i as int]);
                    }
                }
                return Some(i);
            }
            i = i + 1;
        }
        None
    }

    /// Adds `client`, replacing the client of the same target.
    pub fn add_client(&mut self, client: RemoteClient) -> (r: Result<(), CoreError>)
        ensures
            r is Ok,
            final(self).node_spec() == old(self).node_spec(),
            final(self).clients_spec() == (if has_client(old(self).clients_spec(), client.target_spec().value) {
                old(self).clients_spec().update(client_at(old(self).clients_spec(), client.target_spec().value), client)
            } else {
                old(self).clients_spec().push(client)
            }),
    {
        proof {
            use_type_invariant(&*self);
        }
        let ghost cs = self.clients@;
        let found = self.find(client.target());
        let mut v: Vec<RemoteClient> = Vec::new();
        std::mem::swap(&mut v, &mut self.clients);
        let ghost c = client;
        match found {
            Some(k) => {
                v.set(k, client);
                proof {
                    let s = client_targets(v@);
                    assert(s =~= client_targets(cs).update(k as int, c.target_spec().value));
                    assert(client_targets(cs)[k as int] == c.target_spec().value);
                    assert(s =~= client_targets(cs));
                }
            },
            None => {
                v.push(client);
                proof {
                    let s = client_targets(v@);
                    assert(s =~= client_targets(cs).push(c.target_spec().value));
                    assert forall|a: int, b: int| 0 <= a < s.len() && 0 <= b < s.len() && a != b implies s[a]
                        != s[b] by {
                        if a < cs.len() && b < cs.len() {
                            assert(s[a] == client_targets(cs)[a] && s[b] == client_targets(cs)[b]);
                        } else if a < cs.len() {
                            assert(cs[a].target_spec().value == s[a]);
                        } else {
                            assert(cs[b].target_spec().value == s[b]);
                        }
                    }
                }
            },
        }
        self.clients = v;
        Ok(())
    }

    /// Removes the client of `node_id`; the result tells whether there was
    /// one.
    pub fn remove_client(&mut self, node_id: NodeId) -> (r: Result<bool, CoreError>)
        ensures
            r == Ok::<bool, CoreError>(has_client(old(self).clients_spec(), node_id.value)),
            final(self).node_spec() == old(self).node_spec(),
            final(self).clients_spec() == (if has_client(old(self).clients_spec(), node_id.value) {
                old(self).clients_spec().remove(client_at(old(self).clients_spec(), node_id.value))
            } else {
                old(self).clients_spec()
            }),
    {
        proof {
            use_type_invariant(&*self);
        }
        let ghost cs = self.clients@;
        match self.find(node_id) {
            Some(k) => {
                let mut v: Vec<RemoteClient> = Vec::new();
                std::mem::swap(&mut v, &mut self.clients);
                let _gone = v.remove(k);
                proof {
                    let s = client_targets(v@);
                    assert(s =~= client_targets(cs).remove(k as int));
                    assert forall|a: int, b: int| 0 <= a < s.len() && 0 <= b < s.len() && a != b implies s[a]
                        != s[b] by {
                        let a2 = if a < k { a } else { a + 1 };
                        let b2 = if b < k { b } else { b + 1 };
                        assert(s[a] == client_targets(cs)[a2] && s[b] == client_targets(cs)[b2]);
                    }
                }
                self.clients = v;
                Ok(true)
            },
            None => Ok(false),
        }
    }

    /// A copy of the client of `node_id`.
    pub fn get_client(&self, node_id: NodeId) -> (r: Option<RemoteClient>)
        ensures
            r is None <==> !has_client(self.clients_spec(), node_id.value),
            r matches Some(c) ==> c.target_spec() == node_id && c.address_spec() == self.clients_spec()[client_at(
                self.clients_spec(),
                node_id.value,
            )].address_spec(),
    {
        match self.find(node_id) {
            Some(k) => Some(self.clients[k].duplicate()),
            None => None,
        }
    }

    /// Sends `request` through the client of `target`; without one, the
    /// error names the missing client.
    pub fn execute_remote(&self, target: NodeId, request: RemoteRequest) -> (r: Result<RemoteResponse, CoreError>)
        ensures
            !has_client(self.clients_spec(), target.value) ==> (r matches Err(CoreError::NotFound { kind, id })
                && kind@ == "client"@ && id@ == spec_node_text(target.value)),
            has_client(self.clients_spec(), target.value) ==> (r matches Ok(resp) && resp.request_id@
                == request.request_id@ && resp.success && resp.payload@ == executed_payload()),
    {
        match self.find(target) {
            Some(k) => self.clients[k].send(request),
            None => {
                let t = target.to_string();
                Err(CoreError::NotFound { kind: "client".to_owned(), id: t })
            },
        }
    }

    /// Sends a copy of `request` through every client, in order; the
    /// replies come in the same order.
    pub fn broadcast(&self, request: RemoteRequest) -> (r: Result<Vec<RemoteResponse>, CoreError>)
        ensures
            r matches Ok(v) && v@.len() == self.clients_spec().len() && forall|i: int|
                0 <= i < v@.len() ==> (#[trigger] v@[i]).request_id@ == request.request_id@ && v@[i].success
                    && v@[i].payload@ == executed_payload(),
    {
        let mut responses: Vec<RemoteResponse> = Vec::new();
        let mut i: usize = 0;
        while i < self.clients.len()
            invariant
                i <= self.clients@.len(),
                responses@.len() == i,
                forall|j: int|
                    0 <= j < i ==> (#[trigger] responses@[j]).request_id@ == request.request_id@
                        && responses@[j].success && responses@[j].payload@ == executed_payload(),
            decreases self.clients@.len() - i,
        {
            let copy = RemoteRequest {
                request_id: request.request_id.clone(),
                source: request.source,
                event_id: request.event_id,
                payload: request.payload.clone(),
            };
            match self.clients[i].send(copy) {
                Ok(resp) => responses.push(resp),
                Err(_) => {},
            }
            i = i + 1;
        }
        Ok(responses)
    }

    /// The number of clients.
    pub fn connection_count(&self) -> (n: usize)
        ensures
            n == self.clients_spec().len(),
    {
        self.clients.len()
    }
}

impl Default for RemoteExecutor {
    /// No clients, for a fresh random node.
    fn default() -> (e: Self)
        ensures
            e.clients_spec().len() == 0,
    {
        RemoteExecutor::new(NodeId::new())
    }
}

} // verus!
