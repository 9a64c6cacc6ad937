use iceoryx2::config::{Config, Defaults};
use iceoryx2::pattern::{EventStaticConfig, MessagingPattern, PublishSubscribeStaticConfig};

#[test]
fn test_is_same_pattern() {
    let cfg = Config::default();
    let p1 = MessagingPattern::PublishSubscribe(PublishSubscribeStaticConfig::new(&cfg));
    let p2 = MessagingPattern::PublishSubscribe(PublishSubscribeStaticConfig::new(&cfg));
    assert_eq!(p1.is_same_pattern(&p2), true);
    assert_eq!(p2.is_same_pattern(&p1), true);

    let mut new_defaults = Defaults {
        request_response: cfg.defaults.request_response.clone(),
        publish_subscribe: cfg.defaults.publish_subscribe.clone(),
        event: cfg.defaults.event.clone(),
    };
    new_defaults.event.event_id_max_value -= 1;
    new_defaults.publish_subscribe.max_nodes -= 1;

    let cfg2 = Config {
        defaults: new_defaults,
        global: cfg.global.clone(),
    };

    // ensure the cfg and cfg2 are not equal
    assert_ne!(cfg, cfg2);
    let p3 = MessagingPattern::PublishSubscribe(PublishSubscribeStaticConfig::new(&cfg2));
    assert_eq!(p1.is_same_pattern(&p3), true);
    assert_eq!(p3.is_same_pattern(&p1), true);

    let e1 = MessagingPattern::Event(EventStaticConfig::new(&cfg));
    let e2 = MessagingPattern::Event(EventStaticConfig::new(&cfg));
    assert_eq!(e1.is_same_pattern(&e2), true);
    assert_eq!(e2.is_same_pattern(&e1), true);

    let e3 = MessagingPattern::Event(EventStaticConfig::new(&cfg2));
    assert_eq!(e1.is_same_pattern(&e3), true);
    assert_eq!(e2.is_same_pattern(&e3), true);

    assert_eq!(p1.is_same_pattern(&e1), false);
    assert_eq!(p3.is_same_pattern(&e3), false);
}

#[test]
fn pattern_names_and_accessors() {
    let cfg = Config::default();
    let p = MessagingPattern::PublishSubscribe(PublishSubscribeStaticConfig::new(&cfg));
    let e = MessagingPattern::Event(EventStaticConfig::new(&cfg));
    assert_eq!(p.name(), "PublishSubscribe");
    assert_eq!(e.name(), "Event");
    assert_eq!(p.publish_subscribe().max_nodes, 20);
    assert_eq!(p.publish_subscribe().max_subscribers, 8);
    assert_eq!(e.event().event_id_max_value, 4294967295);
    assert_eq!(e.event().max_listeners, 16);
}
