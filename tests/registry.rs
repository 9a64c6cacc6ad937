use iceoryx2::publisher::{
    Publisher, PublisherConfig, PublisherLoanError, PublisherSendError, UnableToDeliverStrategy,
};
use iceoryx2::registry::{NodeRegistry, ServiceEntry, ServiceTag};
use iceoryx2::subscriber::Subscriber;
use iceoryx2::ticker::{publish_tick, TickError, TickOutcome, TickState};

#[test]
fn dead_node_cleanup_removes_token_tags_and_abandoned_services() {
    let mut r = NodeRegistry::new();
    r.register_node(1);
    r.register_node(2);
    r.add_service(10);
    r.add_service(20);
    assert!(r.join_service(1, 0));
    assert!(r.join_service(2, 0));
    assert!(r.join_service(1, 1));
    let removed = r.cleanup_dead_node(1);
    assert_eq!(removed, vec![20]);
    assert_eq!(r.tokens(), &vec![2]);
    assert_eq!(r.tags(), &vec![ServiceTag { node_id: 2, service_id: 10 }]);
    assert_eq!(r.services(), &vec![ServiceEntry { service_id: 10, node_count: 1, port_count: 0 }]);
    let again = r.cleanup_dead_node(1);
    assert!(again.is_empty());
    assert_eq!(r.services().len(), 1);
}

#[test]
fn service_with_ports_survives_cleanup() {
    let mut r = NodeRegistry::new();
    r.register_node(1);
    r.add_service(10);
    assert!(r.join_service(1, 0));
    r.set_port_count(0, 1);
    assert!(r.cleanup_dead_node(1).is_empty());
    assert_eq!(r.services(), &vec![ServiceEntry { service_id: 10, node_count: 0, port_count: 1 }]);
    assert!(r.tags().is_empty());
}

#[test]
fn ticker_sends_counter_until_done() {
    let mut publisher = Publisher::<u64, u64>::new(
        1,
        PublisherConfig {
            number_of_chunks: 4,
            max_loaned_samples: 1,
            history_size: 1,
            enable_safe_overflow: true,
            unable_to_deliver_strategy: UnableToDeliverStrategy::Block,
            max_subscribers: 1,
        },
    );
    let mut state = TickState::new(2);
    assert_eq!(publish_tick(&mut state, &mut publisher), Ok(TickOutcome::Continue));
    assert_eq!(publish_tick(&mut state, &mut publisher), Ok(TickOutcome::Finished));
    assert_eq!(state, TickState { counter: 2, remaining_ticks: 0 });
    assert_eq!(publisher.next_sequence(), 2);
    let mut zero = TickState::new(0);
    assert_eq!(publish_tick(&mut zero, &mut publisher), Ok(TickOutcome::Finished));
    assert_eq!(zero.counter, 1);
}

#[test]
fn ticker_reports_loan_and_send_errors() {
    let mut no_loans = Publisher::<u64, u64>::new(
        1,
        PublisherConfig {
            number_of_chunks: 4,
            max_loaned_samples: 0,
            history_size: 0,
            enable_safe_overflow: true,
            unable_to_deliver_strategy: UnableToDeliverStrategy::Block,
            max_subscribers: 1,
        },
    );
    let mut state = TickState::new(3);
    assert_eq!(
        publish_tick(&mut state, &mut no_loans),
        Err(TickError::Loan(PublisherLoanError::ExceedsMaxLoanedSamples))
    );
    assert_eq!(state, TickState { counter: 0, remaining_ticks: 3 });

    let mut blocking = Publisher::<u64, u64>::new(
        1,
        PublisherConfig {
            number_of_chunks: 4,
            max_loaned_samples: 1,
            history_size: 0,
            enable_safe_overflow: false,
            unable_to_deliver_strategy: UnableToDeliverStrategy::Block,
            max_subscribers: 1,
        },
    );
    Subscriber::new(7, 1, 1).connect(&mut blocking).unwrap();
    let mut state = TickState::new(3);
    assert_eq!(publish_tick(&mut state, &mut blocking), Ok(TickOutcome::Continue));
    assert_eq!(
        publish_tick(&mut state, &mut blocking),
        Err(TickError::Send(PublisherSendError::WouldBlock))
    );
    assert_eq!(state, TickState { counter: 1, remaining_ticks: 2 });
    assert_eq!(blocking.in_flight(), 1);
    assert_eq!(blocking.slot_state(1), iceoryx2::arena::SlotState::Free);
}
