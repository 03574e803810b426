//! Pipeline events, event sinks and the per-request execution report.
use vstd::prelude::*;
use crate::cache::memory::CacheSummary;
use crate::config::business::{copy_opt_string, copy_strings};
use crate::error::NetError;
use crate::strmap::{text_values, StrMap};
use crate::time::Duration;

verus! {

/// How important an event is.
#[derive(Debug, Clone, Copy, PartialEq, Eq, Structural)]
pub enum EventLevel {
    Debug,
    Info,
    Warn,
    Error,
}

/// Something that happened at a stage of a request, with extra fields.
#[derive(Debug)]
pub struct ClientEvent {
    pub level: EventLevel,
    pub stage: String,
    pub request_id: String,
    pub message: String,
    pub fields: StrMap<String>,
}

/// An event as plain values.
pub struct EventView {
    pub level: EventLevel,
    pub stage: Seq<char>,
    pub request_id: Seq<char>,
    pub message: Seq<char>,
    pub fields: Map<Seq<char>, Seq<char>>,
}

impl View for ClientEvent {
    type V = EventView;

    open spec fn view(&self) -> EventView {
        EventView {
            level: self.level,
            stage: self.stage@,
            request_id: self.request_id@,
            message: self.message@,
            fields: text_values(self.fields@),
        }
    }
}

impl Clone for ClientEvent {
    fn clone(&self) -> (r: Self)
        ensures
            r@ == self@,
    {
        ClientEvent {
            level: self.level,
            stage: self.stage.clone(),
            request_id: self.request_id.clone(),
            message: self.message.clone(),
            fields: self.fields.copy(),
        }
    }
}

/// The views of a list of events.
pub open spec fn event_views(s: Seq<ClientEvent>) -> Seq<EventView> {
    s.map_values(|e: ClientEvent| e@)
}

/// A copy of a list of events.
pub fn copy_events(v: &Vec<ClientEvent>) -> (r: Vec<ClientEvent>)
    ensures
        event_views(r@) == event_views(v@),
{
    let mut r: Vec<ClientEvent> = Vec::new();
    let mut i: usize = 0;
    while i < v.len()
        invariant
            i <= v@.len(),
            r@.len() == i,
            forall|j: int| 0 <= j < i ==> #[trigger] r@[j]@ == v@[j]@,
        decreases v.len() - i,
    {
        let e = v[i].clone();
        r.push(e);
        i = i + 1;
    }
    assert(event_views(r@) =~= event_views(v@));
    r
}

impl ClientEvent {
    /// An event with no fields.
    pub fn new(level: EventLevel, stage: String, request_id: String, message: String) -> (e: ClientEvent)
        ensures
            e@ == (EventView { level, stage: stage@, request_id: request_id@, message: message@, fields: Map::empty() }),
    {
        let e = ClientEvent { level, stage, request_id, message, fields: StrMap::new() };
        assert(e@.fields =~= Map::<Seq<char>, Seq<char>>::empty());
        e
    }

    /// This event with the field `key` set to `value`.
    pub fn field(self, key: String, value: String) -> (e: ClientEvent)
        ensures
            e@ == (EventView { fields: self@.fields.insert(key@, value@), ..self@ }),
    {
        let mut e = self;
        let _ = e.fields.insert(key, value);
        assert(e@.fields =~= self@.fields.insert(key@, value@));
        e
    }
}

/// Receives the events of every request.
pub trait EventSink {
    /// Takes one event.
    fn record(&mut self, event: ClientEvent) -> Result<(), NetError>;
}

/// Keeps the events it receives in memory, in order.
#[derive(Debug)]
pub struct MemoryEventSink {
    events: Vec<ClientEvent>,
}

impl MemoryEventSink {
    /// The events received so far, oldest first.
    pub closed spec fn received(&self) -> Seq<EventView> {
        event_views(self.events@)
    }

    /// A sink with no events.
    pub fn new() -> (s: MemoryEventSink)
        ensures
            s.received() == Seq::<EventView>::empty(),
    {
        let s = MemoryEventSink { events: Vec::new() };
        assert(s.received() =~= Seq::<EventView>::empty());
        s
    }

    /// A copy of the events received so far.
    pub fn snapshot(&self) -> (r: Result<Vec<ClientEvent>, NetError>)
        ensures
            r matches Ok(v) && event_views(v@) == self.received(),
    {
        Ok(copy_events(&self.events))
    }
}

impl Default for MemoryEventSink {
    fn default() -> (s: Self)
        ensures
            s.received() == Seq::<EventView>::empty(),
    {
        MemoryEventSink::new()
    }
}

impl EventSink for MemoryEventSink {
    fn record(&mut self, event: ClientEvent) -> (r: Result<(), NetError>)
        ensures
            r is Ok,
            final(self).received() == old(self).received().push(event@),
    {
        let ghost e = event@;
        self.events.push(event);
        assert(self.received() =~= old(self).received().push(e));
        Ok(())
    }
}

/// What happened while sending one request: attempts, auth chain, cache use,
/// address and node, target, backoffs and events.
#[derive(Debug)]
pub struct ExecutionReport {
    pub request_id: String,
    pub attempts: usize,
    pub auth_chain: Vec<String>,
    pub cache: CacheSummary,
    pub resolved_ip: Option<String>,
    pub cdn_node: Option<String>,
    pub target: Option<String>,
    pub backoffs: Vec<Duration>,
    pub events: Vec<ClientEvent>,
}

/// A copy of a list of spans.
fn copy_durations(v: &Vec<Duration>) -> (r: Vec<Duration>)
    ensures
        r@ == v@,
{
    let mut r: Vec<Duration> = Vec::new();
    let mut i: usize = 0;
    while i < v.len()
        invariant
            i <= v@.len(),
            r@ == v@.take(i as int),
        decreases v.len() - i,
    {
        r.push(v[i]);
        assert(v@.take(i + 1) =~= v@.take(i as int).push(v@[i as int]));
        i = i + 1;
    }
    assert(v@.take(v@.len() as int) =~= v@);
    r
}

impl ExecutionReport {
    /// An empty report for the request `request_id`.
    pub fn for_request(request_id: String) -> (r: ExecutionReport)
        ensures
            r.request_id == request_id,
            r.attempts == 0,
            r.auth_chain@.len() == 0,
            r.cache.key is None && !r.cache.hit && !r.cache.stale,
            r.resolved_ip is None,
            r.cdn_node is None,
            r.target is None,
            r.backoffs@.len() == 0,
            r.events@.len() == 0,
    {
        ExecutionReport {
            request_id,
            attempts: 0,
            auth_chain: Vec::new(),
            cache: CacheSummary { key: None, hit: false, stale: false },
            resolved_ip: None,
            cdn_node: None,
            target: None,
            backoffs: Vec::new(),
            events: Vec::new(),
        }
    }
}

impl Default for ExecutionReport {
    fn default() -> (r: Self)
        ensures
            r.request_id@.len() == 0,
            r.attempts == 0,
            r.auth_chain@.len() == 0,
            r.cache.key is None && !r.cache.hit && !r.cache.stale,
            r.resolved_ip is None,
            r.cdn_node is None,
            r.target is None,
            r.backoffs@.len() == 0,
            r.events@.len() == 0,
    {
        ExecutionReport::for_request(String::new())
    }
}

impl Clone for ExecutionReport {
    fn clone(&self) -> (r: Self)
        ensures
            r.request_id == self.request_id,
            r.attempts == self.attempts,
            r.auth_chain@ == self.auth_chain@,
            r.cache == self.cache,
            r.resolved_ip == self.resolved_ip,
            r.cdn_node == self.cdn_node,
            r.target == self.target,
            r.backoffs@ == self.backoffs@,
            event_views(r.events@) == event_views(self.events@),
    {
        ExecutionReport {
            request_id: self.request_id.clone(),
            attempts: self.attempts,
            auth_chain: copy_strings(&self.auth_chain),
            cache: self.cache.clone(),
            resolved_ip: copy_opt_string(&self.resolved_ip),
            cdn_node: copy_opt_string(&self.cdn_node),
            target: copy_opt_string(&self.target),
            backoffs: copy_durations(&self.backoffs),
            events: copy_events(&self.events),
        }
    }
}

} // verus!
