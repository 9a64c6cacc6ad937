//! The messaging pattern of a service, with the static configuration that
//! belongs to it.

use crate::config::Config;
use vstd::prelude::*;

verus! {

/// The fixed properties of a publish-subscribe service.
#[derive(PartialEq, Eq, Structural, Clone, Copy, Debug, Hash)]
pub struct PublishSubscribeStaticConfig {
    pub max_subscribers: usize,
    pub max_publishers: usize,
    pub max_nodes: usize,
    pub history_size: usize,
    pub subscriber_max_buffer_size: usize,
    pub subscriber_max_borrowed_samples: usize,
    pub enable_safe_overflow: bool,
}

impl PublishSubscribeStaticConfig {
    /// The static configuration from the configuration's defaults.
    pub fn new(config: &Config) -> (r: PublishSubscribeStaticConfig)
        ensures
            r.max_subscribers == config.defaults.publish_subscribe.max_subscribers,
            r.max_publishers == config.defaults.publish_subscribe.max_publishers,
            r.max_nodes == config.defaults.publish_subscribe.max_nodes,
            r.history_size == config.defaults.publish_subscribe.publisher_history_size,
            r.subscriber_max_buffer_size == config.defaults.publish_subscribe.subscriber_max_buffer_size,
            r.subscriber_max_borrowed_samples == config.defaults.publish_subscribe.subscriber_max_borrowed_samples,
            r.enable_safe_overflow == config.defaults.publish_subscribe.enable_safe_overflow,
    {
        let d = &config.defaults.publish_subscribe;
        PublishSubscribeStaticConfig {
            max_subscribers: d.max_subscribers,
            max_publishers: d.max_publishers,
            max_nodes: d.max_nodes,
            history_size: d.publisher_history_size,
            subscriber_max_buffer_size: d.subscriber_max_buffer_size,
            subscriber_max_borrowed_samples: d.subscriber_max_borrowed_samples,
            enable_safe_overflow: d.enable_safe_overflow,
        }
    }
}

/// The fixed properties of an event service.
#[derive(PartialEq, Eq, Structural, Clone, Copy, Debug, Hash)]
pub struct EventStaticConfig {
    pub max_notifiers: usize,
    pub max_listeners: usize,
    pub max_nodes: usize,
    pub event_id_max_value: usize,
}

impl EventStaticConfig {
    /// The static configuration from the configuration's defaults.
    pub fn new(config: &Config) -> (r: EventStaticConfig)
        ensures
            r.max_notifiers == config.defaults.event.max_notifiers,
            r.max_listeners == config.defaults.event.max_listeners,
            r.max_nodes == config.defaults.event.max_nodes,
            r.event_id_max_value == config.defaults.event.event_id_max_value,
    {
        let d = &config.defaults.event;
        EventStaticConfig {
            max_notifiers: d.max_notifiers,
            max_listeners: d.max_listeners,
            max_nodes: d.max_nodes,
            event_id_max_value: d.event_id_max_value,
        }
    }
}

/// The fixed properties of a request-response service.
#[derive(PartialEq, Eq, Structural, Clone, Copy, Debug, Hash)]
pub struct RequestResponseStaticConfig {
    pub enable_safe_overflow_for_requests: bool,
    pub enable_safe_overflow_for_responses: bool,
    pub max_active_requests: usize,
    pub max_borrowed_responses: usize,
    pub max_response_buffer_size: usize,
    pub max_servers: usize,
    pub max_clients: usize,
    pub max_nodes: usize,
}

impl RequestResponseStaticConfig {
    /// The static configuration from the configuration's defaults.
    pub fn new(config: &Config) -> (r: RequestResponseStaticConfig)
        ensures
            r.enable_safe_overflow_for_requests == config.defaults.request_response.enable_safe_overflow_for_requests,
            r.enable_safe_overflow_for_responses == config.defaults.request_response.enable_safe_overflow_for_responses,
            r.max_active_requests == config.defaults.request_response.max_active_requests,
            r.max_borrowed_responses == config.defaults.request_response.max_borrowed_responses,
            r.max_response_buffer_size == config.defaults.request_response.max_response_buffer_size,
            r.max_servers == config.defaults.request_response.max_servers,
            r.max_clients == config.defaults.request_response.max_clients,
            r.max_nodes == config.defaults.request_response.max_nodes,
    {
        let d = &config.defaults.request_response;
        RequestResponseStaticConfig {
            enable_safe_overflow_for_requests: d.enable_safe_overflow_for_requests,
            enable_safe_overflow_for_responses: d.enable_safe_overflow_for_responses,
            max_active_requests: d.max_active_requests,
            max_borrowed_responses: d.max_borrowed_responses,
            max_response_buffer_size: d.max_response_buffer_size,
            max_servers: d.max_servers,
            max_clients: d.max_clients,
            max_nodes: d.max_nodes,
        }
    }
}

/// The messaging pattern of a service, carrying the pattern's static
/// configuration.
#[non_exhaustive]
#[derive(PartialEq, Eq, Structural, Clone, Copy, Debug, Hash)]
pub enum MessagingPattern {
    RequestResponse(RequestResponseStaticConfig),
    PublishSubscribe(PublishSubscribeStaticConfig),
    Event(EventStaticConfig),
}

/// Whether two patterns are of the same kind, whatever they carry.
pub open spec fn same_pattern(a: MessagingPattern, b: MessagingPattern) -> bool {
    ||| a is RequestResponse && b is RequestResponse
    ||| a is PublishSubscribe && b is PublishSubscribe
    ||| a is Event && b is Event
}

impl MessagingPattern {
    /// Whether `self` and `rhs` are the same pattern, regardless of the
    /// configuration inside them.
    pub fn is_same_pattern(&self, rhs: &MessagingPattern) -> (r: bool)
        ensures
            r == same_pattern(*self, *rhs),
    {
        match (self, rhs) {
            (MessagingPattern::RequestResponse(_), MessagingPattern::RequestResponse(_)) => true,
            (MessagingPattern::PublishSubscribe(_), MessagingPattern::PublishSubscribe(_)) => true,
            (MessagingPattern::Event(_), MessagingPattern::Event(_)) => true,
            _ => false,
        }
    }

    /// The publish-subscribe configuration; the pattern must be one.
    pub fn publish_subscribe(&self) -> (r: &PublishSubscribeStaticConfig)
        requires
            *self is PublishSubscribe,
        ensures
            *self == MessagingPattern::PublishSubscribe(*r),
    {
        match self {
            MessagingPattern::PublishSubscribe(v) => v,
            _ => vstd::pervasive::unreached(),
        }
    }

    /// The event configuration; the pattern must be one.
    pub fn event(&self) -> (r: &EventStaticConfig)
        requires
            *self is Event,
        ensures
            *self == MessagingPattern::Event(*r),
    {
        match self {
            MessagingPattern::Event(v) => v,
            _ => vstd::pervasive::unreached(),
        }
    }

    /// The request-response configuration; the pattern must be one.
    pub fn request_response(&self) -> (r: &RequestResponseStaticConfig)
        requires
            *self is RequestResponse,
        ensures
            *self == MessagingPattern::RequestResponse(*r),
    {
        match self {
            MessagingPattern::RequestResponse(v) => v,
            _ => vstd::pervasive::unreached(),
        }
    }

    /// The name of the pattern.
    pub fn name(&self) -> (r: &'static str)
        ensures
            *self is RequestResponse ==> r@ == "RequestResponse"@,
            *self is PublishSubscribe ==> r@ == "PublishSubscribe"@,
            *self is Event ==> r@ == "Event"@,
    {
        match self {
            MessagingPattern::RequestResponse(_) => "RequestResponse",
            MessagingPattern::PublishSubscribe(_) => "PublishSubscribe",
            MessagingPattern::Event(_) => "Event",
        }
    }
}

/// Being the same pattern is an equivalence: reflexive, symmetric and
/// transitive.
pub proof fn lemma_same_pattern_is_equivalence(a: MessagingPattern, b: MessagingPattern, c: MessagingPattern)
    ensures
        same_pattern(a, a),
        same_pattern(a, b) == same_pattern(b, a),
        same_pattern(a, b) && same_pattern(b, c) ==> same_pattern(a, c),
{
}

} // verus!
