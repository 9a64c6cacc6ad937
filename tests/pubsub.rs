use iceoryx2::arena::SlotState;
use iceoryx2::publisher::{
    ConnectionError, Publisher, PublisherConfig, PublisherLoanError, PublisherSendError,
    ReceiveError, ReleaseError, UnableToDeliverStrategy,
};
use iceoryx2::config::Config;
use iceoryx2::expired::ExpiredConnections;
use iceoryx2::sample_mut::SampleSendError;
use iceoryx2::subscriber::Subscriber;

fn config(safe_overflow: bool, strategy: UnableToDeliverStrategy, history: usize) -> PublisherConfig {
    PublisherConfig {
        number_of_chunks: 8,
        max_loaned_samples: 2,
        history_size: history,
        enable_safe_overflow: safe_overflow,
        unable_to_deliver_strategy: strategy,
        max_subscribers: 4,
    }
}

fn send_value(publisher: &mut Publisher<u64, u64>, value: u64) -> Result<usize, SampleSendError<u64, u64>> {
    let mut sample = publisher.loan(0, 0).unwrap();
    *sample.payload_mut() = value;
    sample.send(publisher)
}

fn receive_value(subscriber: &Subscriber, publisher: &mut Publisher<u64, u64>) -> Option<u64> {
    match subscriber.receive(publisher).unwrap() {
        Some(sample) => {
            let v = *sample.payload();
            subscriber.release(sample, publisher).unwrap();
            Some(v)
        }
        None => None,
    }
}

#[test]
fn single_producer_single_consumer() {
    let mut publisher = Publisher::<u64, u64>::new(1, config(true, UnableToDeliverStrategy::Block, 0));
    let subscriber = Subscriber::new(7, 2, 2);
    subscriber.connect(&mut publisher).unwrap();
    let mut sample = publisher.loan(0, 0).unwrap();
    *sample.payload_mut() = 42;
    let delivered = sample.send(&mut publisher).unwrap();
    assert_eq!(delivered, 1);
    let received = subscriber.receive(&mut publisher).unwrap().unwrap();
    assert_eq!(*received.payload(), 42);
    assert_eq!(received.header().publisher_id(), 1);
    subscriber.release(received, &mut publisher).unwrap();
    assert_eq!(publisher.in_flight(), 0);
}

#[test]
fn overflow_with_safe_overflow_drops_oldest() {
    let mut publisher = Publisher::<u64, u64>::new(1, config(true, UnableToDeliverStrategy::Block, 0));
    let subscriber = Subscriber::new(7, 2, 2);
    subscriber.connect(&mut publisher).unwrap();
    for v in 1..=3u64 {
        assert_eq!(send_value(&mut publisher, v).unwrap(), 1);
    }
    assert_eq!(receive_value(&subscriber, &mut publisher), Some(2));
    assert_eq!(receive_value(&subscriber, &mut publisher), Some(3));
    assert_eq!(receive_value(&subscriber, &mut publisher), None);
    assert_eq!(publisher.dropped_samples(), 1);
    assert_eq!(publisher.in_flight(), 0);
}

#[test]
fn overflow_with_discard_keeps_oldest() {
    let mut publisher =
        Publisher::<u64, u64>::new(1, config(false, UnableToDeliverStrategy::DiscardSample, 0));
    let subscriber = Subscriber::new(7, 2, 2);
    subscriber.connect(&mut publisher).unwrap();
    assert_eq!(send_value(&mut publisher, 1).unwrap(), 1);
    assert_eq!(send_value(&mut publisher, 2).unwrap(), 1);
    assert_eq!(send_value(&mut publisher, 3).unwrap(), 0);
    assert_eq!(receive_value(&subscriber, &mut publisher), Some(1));
    assert_eq!(receive_value(&subscriber, &mut publisher), Some(2));
    assert_eq!(receive_value(&subscriber, &mut publisher), None);
    assert_eq!(publisher.dropped_samples(), 1);
}

#[test]
fn blocking_strategy_on_full_channel_hands_sample_back() {
    let mut publisher = Publisher::<u64, u64>::new(1, config(false, UnableToDeliverStrategy::Block, 0));
    let subscriber = Subscriber::new(7, 1, 2);
    subscriber.connect(&mut publisher).unwrap();
    assert_eq!(send_value(&mut publisher, 1).unwrap(), 1);
    let mut sample = publisher.loan(0, 0).unwrap();
    *sample.payload_mut() = 2;
    let offset = sample.offset();
    let back = match sample.send(&mut publisher) {
        Err(SampleSendError::WouldBlock(back)) => back,
        other => panic!("expected the sample back, got {:?}", other),
    };
    assert_eq!(publisher.slot_state(offset), SlotState::Loaned);
    assert_eq!(*back.payload(), 2);
    assert_eq!(publisher.dropped_samples(), 0);
    assert_eq!(receive_value(&subscriber, &mut publisher), Some(1));
    assert_eq!(back.send(&mut publisher).unwrap(), 1);
    assert_eq!(receive_value(&subscriber, &mut publisher), Some(2));
    assert_eq!(publisher.in_flight(), 0);
}

#[test]
fn sequence_numbers_increase_per_send() {
    let mut publisher = Publisher::<u64, u64>::new(3, config(true, UnableToDeliverStrategy::Block, 0));
    let subscriber = Subscriber::new(7, 4, 4);
    subscriber.connect(&mut publisher).unwrap();
    for v in 10..14u64 {
        send_value(&mut publisher, v).unwrap();
    }
    let mut last: Option<u64> = None;
    for _ in 0..4 {
        let s = subscriber.receive(&mut publisher).unwrap().unwrap();
        let seq = s.header().sequence();
        if let Some(l) = last {
            assert!(seq > l);
        }
        last = Some(seq);
        subscriber.release(s, &mut publisher).unwrap();
    }
    assert_eq!(last, Some(3));
    assert_eq!(publisher.next_sequence(), 4);
}

#[test]
fn loan_and_drop_does_not_leak() {
    let mut publisher = Publisher::<u64, u64>::new(1, config(true, UnableToDeliverStrategy::Block, 0));
    for _ in 0..1_000_000u32 {
        let sample = publisher.loan(0, 0).unwrap();
        assert!(sample.discard(&mut publisher));
    }
    assert_eq!(publisher.in_flight(), 0);
    for i in 0..8 {
        assert_eq!(publisher.slot_state(i), SlotState::Free);
    }
}

#[test]
fn chunk_is_free_after_every_subscriber_released() {
    let mut publisher = Publisher::<u64, u64>::new(1, config(true, UnableToDeliverStrategy::Block, 0));
    let s1 = Subscriber::new(7, 2, 2);
    let s2 = Subscriber::new(8, 2, 2);
    s1.connect(&mut publisher).unwrap();
    s2.connect(&mut publisher).unwrap();
    let sample = publisher.loan(5, 6).unwrap();
    let offset = sample.offset();
    assert_eq!(sample.send(&mut publisher).unwrap(), 2);
    assert_eq!(publisher.slot_state(offset), SlotState::InFlight(2));
    let a = s1.receive(&mut publisher).unwrap().unwrap();
    assert_eq!((*a.payload(), *a.user_header()), (5, 6));
    s1.release(a, &mut publisher).unwrap();
    assert_eq!(publisher.slot_state(offset), SlotState::InFlight(1));
    let b = s2.receive(&mut publisher).unwrap().unwrap();
    s2.release(b, &mut publisher).unwrap();
    assert_eq!(publisher.slot_state(offset), SlotState::Free);
}

#[test]
fn send_without_subscribers_frees_chunk() {
    let mut publisher = Publisher::<u64, u64>::new(1, config(true, UnableToDeliverStrategy::Block, 0));
    let sample = publisher.loan(1, 1).unwrap();
    let offset = sample.offset();
    assert_eq!(sample.send(&mut publisher).unwrap(), 0);
    assert_eq!(publisher.slot_state(offset), SlotState::Free);
}

#[test]
fn history_is_replayed_to_late_subscriber() {
    let mut publisher = Publisher::<u64, u64>::new(1, config(true, UnableToDeliverStrategy::Block, 2));
    for v in 1..=3u64 {
        assert_eq!(send_value(&mut publisher, v).unwrap(), 0);
    }
    assert_eq!(publisher.history().len(), 2);
    let subscriber = Subscriber::new(7, 4, 4);
    subscriber.connect(&mut publisher).unwrap();
    send_value(&mut publisher, 4).unwrap();
    assert_eq!(receive_value(&subscriber, &mut publisher), Some(2));
    assert_eq!(receive_value(&subscriber, &mut publisher), Some(3));
    assert_eq!(receive_value(&subscriber, &mut publisher), Some(4));
    assert_eq!(receive_value(&subscriber, &mut publisher), None);
}

#[test]
fn history_with_fewer_samples_than_its_size() {
    let mut publisher = Publisher::<u64, u64>::new(1, config(true, UnableToDeliverStrategy::Block, 3));
    send_value(&mut publisher, 9).unwrap();
    let subscriber = Subscriber::new(7, 3, 3);
    subscriber.connect(&mut publisher).unwrap();
    assert_eq!(receive_value(&subscriber, &mut publisher), Some(9));
    assert_eq!(receive_value(&subscriber, &mut publisher), None);
}

#[test]
fn loan_errors() {
    let mut cfg = config(true, UnableToDeliverStrategy::Block, 0);
    cfg.number_of_chunks = 1;
    let mut publisher = Publisher::<u64, u64>::new(1, cfg);
    let _first = publisher.loan(0, 0).unwrap();
    assert_eq!(publisher.loan(0, 0).err(), Some(PublisherLoanError::OutOfMemory));

    let mut publisher = Publisher::<u64, u64>::new(1, config(true, UnableToDeliverStrategy::Block, 0));
    let _a = publisher.loan(0, 0).unwrap();
    let _b = publisher.loan(0, 0).unwrap();
    assert_eq!(publisher.loan(0, 0).err(), Some(PublisherLoanError::ExceedsMaxLoanedSamples));
}

#[test]
fn sending_a_chunk_that_is_not_on_loan_fails() {
    let mut publisher = Publisher::<u64, u64>::new(1, config(true, UnableToDeliverStrategy::Block, 0));
    assert_eq!(publisher.send_sample(0, 0, 0), Err(PublisherSendError::InvalidLoan));
    assert_eq!(publisher.send_sample(99, 0, 0), Err(PublisherSendError::InvalidLoan));
}

#[test]
fn connection_errors() {
    let mut publisher = Publisher::<u64, u64>::new(1, config(true, UnableToDeliverStrategy::Block, 2));
    let s = Subscriber::new(7, 2, 2);
    s.connect(&mut publisher).unwrap();
    assert_eq!(s.connect(&mut publisher), Err(ConnectionError::AlreadyConnected));
    assert_eq!(Subscriber::new(8, 1, 2).connect(&mut publisher), Err(ConnectionError::BufferTooSmall));
    assert_eq!(Subscriber::new(9, 0, 2).connect(&mut publisher), Err(ConnectionError::BufferTooSmall));
    for id in 10..13u64 {
        Subscriber::new(id, 2, 2).connect(&mut publisher).unwrap();
    }
    assert_eq!(
        Subscriber::new(20, 2, 2).connect(&mut publisher),
        Err(ConnectionError::ExceedsMaxSubscribers)
    );
    assert_eq!(publisher.number_of_connections(), 4);
}

#[test]
fn receive_and_release_errors() {
    let mut publisher = Publisher::<u64, u64>::new(1, config(true, UnableToDeliverStrategy::Block, 0));
    let stranger = Subscriber::new(99, 2, 1);
    assert_eq!(stranger.receive(&mut publisher).err(), Some(ReceiveError::NotConnected));
    let s = Subscriber::new(7, 2, 1);
    s.connect(&mut publisher).unwrap();
    send_value(&mut publisher, 1).unwrap();
    send_value(&mut publisher, 2).unwrap();
    let first = s.receive(&mut publisher).unwrap().unwrap();
    assert_eq!(s.receive(&mut publisher).err(), Some(ReceiveError::ExceedsMaxBorrowedSamples));
    let other = Subscriber::new(8, 2, 1);
    other.connect(&mut publisher).unwrap();
    let copy_offset = first.offset();
    assert_eq!(stranger.release(first, &mut publisher), Err(ReleaseError::NotConnected));
    let again = s.receive(&mut publisher).err();
    assert_eq!(again, Some(ReceiveError::ExceedsMaxBorrowedSamples));
    assert_eq!(publisher.slot_state(copy_offset), SlotState::InFlight(1));
    send_value(&mut publisher, 3).unwrap();
    let for_other = other.receive(&mut publisher).unwrap().unwrap();
    assert_eq!(*for_other.payload(), 3);
    assert_eq!(s.release(for_other, &mut publisher), Err(ReleaseError::NotBorrowed));
}

#[test]
fn crashed_publisher_keeps_samples_until_released() {
    let mut cfg = config(true, UnableToDeliverStrategy::Block, 0);
    cfg.max_loaned_samples = 4;
    let mut publisher = Publisher::<u64, u64>::new(1, cfg);
    let subscriber = Subscriber::new(7, 3, 3);
    subscriber.connect(&mut publisher).unwrap();
    for v in 1..=3u64 {
        send_value(&mut publisher, v).unwrap();
    }
    let _unsent = publisher.loan(0, 0).unwrap();
    assert_eq!(publisher.in_flight(), 3);
    publisher.mark_dead();
    assert!(!publisher.is_alive());
    assert!(!publisher.can_remove_data_segment());
    let mut received = Vec::new();
    for _ in 0..3 {
        let s = subscriber.receive(&mut publisher).unwrap().unwrap();
        received.push(*s.payload());
        subscriber.release(s, &mut publisher).unwrap();
    }
    assert_eq!(received, vec![1, 2, 3]);
    assert!(publisher.can_remove_data_segment());
}

#[test]
fn disconnecting_subscriber_releases_its_chunks() {
    let mut publisher = Publisher::<u64, u64>::new(1, config(true, UnableToDeliverStrategy::Block, 0));
    let s1 = Subscriber::new(7, 2, 2);
    let s2 = Subscriber::new(8, 2, 2);
    s1.connect(&mut publisher).unwrap();
    s2.connect(&mut publisher).unwrap();
    send_value(&mut publisher, 1).unwrap();
    send_value(&mut publisher, 2).unwrap();
    let held = s1.receive(&mut publisher).unwrap().unwrap();
    let offset = held.offset();
    assert_eq!(publisher.slot_state(offset), SlotState::InFlight(2));
    assert!(s1.disconnect(&mut publisher));
    assert!(!s1.disconnect(&mut publisher));
    assert_eq!(publisher.number_of_connections(), 1);
    assert_eq!(publisher.slot_state(offset), SlotState::InFlight(1));
    assert_eq!(receive_value(&s2, &mut publisher), Some(1));
    assert_eq!(receive_value(&s2, &mut publisher), Some(2));
    assert_eq!(publisher.in_flight(), 0);
}

#[test]
fn connection_that_could_overflow_holder_counts_is_refused() {
    let mut publisher = Publisher::<u64, u64>::new(1, config(true, UnableToDeliverStrategy::Block, 0));
    let huge = Subscriber::new(7, usize::MAX, 1);
    assert_eq!(huge.connect(&mut publisher), Err(ConnectionError::ExceedsHolderLimit));
    assert_eq!(publisher.number_of_connections(), 0);
}

#[test]
fn loaned_sample_header_names_its_publisher() {
    let mut publisher = Publisher::<u64, u64>::new(9, config(true, UnableToDeliverStrategy::Block, 0));
    let sample = publisher.loan(0, 0).unwrap();
    assert_eq!(sample.header().publisher_id(), 9);
}

#[test]
fn expired_connections_are_bounded_and_force_released() {
    let mut expired = ExpiredConnections::new(1);
    let mut p1 = Publisher::<u64, u64>::new(1, config(true, UnableToDeliverStrategy::Block, 0));
    let mut p2 = Publisher::<u64, u64>::new(2, config(true, UnableToDeliverStrategy::Block, 0));
    let s = Subscriber::new(7, 2, 2);
    s.connect(&mut p1).unwrap();
    s.connect(&mut p2).unwrap();
    send_value(&mut p1, 10).unwrap();
    send_value(&mut p2, 20).unwrap();

    p1.mark_dead();
    assert!(s.has_unread_samples(&p1));
    assert_eq!(expired.expire(1), None);
    assert!(expired.contains(1));
    assert!(!p1.can_remove_data_segment());

    p2.mark_dead();
    assert!(s.has_unread_samples(&p2));
    assert_eq!(expired.expire(2), Some(1));
    assert!(s.disconnect(&mut p1));
    assert!(p1.can_remove_data_segment());

    assert_eq!(receive_value(&s, &mut p2), Some(20));
    assert!(!s.has_unread_samples(&p2));
    assert!(expired.drained(2));
    assert_eq!(expired.len(), 0);
    assert!(p2.can_remove_data_segment());
}

#[test]
fn expired_connection_buffer_takes_its_size_from_the_config() {
    let cfg = Config::default();
    let mut expired =
        ExpiredConnections::new(cfg.defaults.publish_subscribe.subscriber_expired_connection_buffer);
    for id in 0..128u64 {
        assert_eq!(expired.expire(id), None);
    }
    assert_eq!(expired.expire(128), Some(0));
    assert_eq!(expired.expire(128), None);
    assert_eq!(expired.len(), 128);
}
