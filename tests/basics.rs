use iceoryx2::arena::{ArenaError, SampleArena, SlotState};
use iceoryx2::channel::{Channel, PushOutcome};
use iceoryx2::config::{Config, ConfigCreationError, Timeout};
use iceoryx2::names::{FileName, Path, SemanticStringError};
use iceoryx2::publisher::UnableToDeliverStrategy;
use iceoryx2::version::{get_package_version, PackageVersion};

#[test]
fn version_packing() {
    let v = PackageVersion::from_version(1, 2, 3);
    assert_eq!(v.value, (1u64 << 32) | (2u64 << 16) | 3);
    assert_eq!((v.major(), v.minor(), v.patch()), (1, 2, 3));
    assert_eq!(PackageVersion::from_u64(v.value), v);
    assert!(PackageVersion::from_u64(0).is_unset());
    let current = get_package_version();
    assert!(!current.is_unset());
    assert_eq!((current.major(), current.minor(), current.patch()), (0, 4, 1));
}

#[test]
fn file_name_validation() {
    assert!(FileName::new(b"service.dyn").is_ok());
    assert_eq!(FileName::new(b"").err(), Some(SemanticStringError::InvalidContent));
    assert_eq!(FileName::new(b"a/b").err(), Some(SemanticStringError::InvalidContent));
    assert_eq!(FileName::new(b".").err(), Some(SemanticStringError::InvalidContent));
    assert_eq!(FileName::new(b"..").err(), Some(SemanticStringError::InvalidContent));
    assert_eq!(FileName::new(b"a\0b").err(), Some(SemanticStringError::InvalidContent));
    assert!(FileName::new(&[b'x'; 255]).is_ok());
    assert_eq!(FileName::new(&[b'x'; 256]).err(), Some(SemanticStringError::ExceedsMaximumLength));
    assert!(Path::new(b"/tmp/a/b").is_ok());
    assert!(Path::new(b"").is_ok());
    assert_eq!(Path::new(b"/tmp\0").err(), Some(SemanticStringError::InvalidContent));
    assert_eq!(Path::new(&[b'/'; 256]).err(), Some(SemanticStringError::ExceedsMaximumLength));
}

#[test]
fn arena_slot_transitions() {
    let mut arena = SampleArena::new(2);
    assert_eq!(arena.acquire(), Some(0));
    assert_eq!(arena.acquire(), Some(1));
    assert_eq!(arena.acquire(), None);
    assert!(arena.publish(0, 2));
    assert!(!arena.publish(0, 1));
    assert!(arena.borrow(0));
    assert_eq!(arena.state(0), SlotState::InFlight(3));
    assert_eq!(arena.release(0), Ok(false));
    assert_eq!(arena.release(0), Ok(false));
    assert_eq!(arena.release(0), Ok(true));
    assert_eq!(arena.release(0), Err(ArenaError::NotInFlight));
    assert_eq!(arena.release(5), Err(ArenaError::OutOfBounds));
    assert!(!arena.borrow(0));
    assert_eq!(arena.acquire(), Some(0));
    assert!(arena.return_loan(1));
    assert!(!arena.return_loan(1));
    assert!(arena.publish(0, 0));
    assert_eq!(arena.state(0), SlotState::Free);
    assert_eq!(arena.in_flight(), 0);
    assert_eq!(arena.loaned(), 0);
}

#[test]
fn channel_order_and_overflow() {
    let mut c = Channel::new(2);
    assert_eq!(c.pop(), None);
    assert_eq!(c.push(1, false), PushOutcome::Enqueued);
    assert_eq!(c.push(2, false), PushOutcome::Enqueued);
    assert!(c.is_full());
    assert_eq!(c.push(3, false), PushOutcome::Rejected);
    assert_eq!(c.push(3, true), PushOutcome::Displaced(1));
    assert_eq!(c.pop(), Some(2));
    assert_eq!(c.pop(), Some(3));
    assert!(c.is_empty());
    assert_eq!(c.capacity(), 2);
}

#[test]
fn config_setters_validate() {
    let mut cfg = Config::default();
    assert_eq!(cfg.global.prefix.as_bytes(), b"iox2_");
    assert_eq!(cfg.set_global_prefix(b"my_"), Ok(()));
    assert_eq!(cfg.global.prefix.as_bytes(), b"my_");
    assert_eq!(cfg.set_global_prefix(b"a/b"), Err(SemanticStringError::InvalidContent));
    assert_eq!(cfg.global.prefix.as_bytes(), b"my_");
    assert_eq!(cfg.set_global_root_path(b"/var/run/"), Ok(()));
    assert_eq!(cfg.global.root_path.as_bytes(), b"/var/run/");
    assert_eq!(cfg.set_node_monitor_suffix(b".mon"), Ok(()));
    assert_eq!(cfg.set_service_connection_suffix(b""), Err(SemanticStringError::InvalidContent));
    assert_eq!(cfg.set_service_event_connection_suffix(b".ev"), Ok(()));
    assert_eq!(cfg.global.service.event_connection_suffix.as_bytes(), b".ev");
    assert!(cfg.set_service_creation_timeout(2, 1_500_000_000));
    assert_eq!(cfg.global.service.creation_timeout, Timeout { secs: 3, nanos: 500_000_000 });
    assert!(!cfg.set_service_creation_timeout(u64::MAX, 1_000_000_000));
    assert_eq!(cfg.global.service.creation_timeout, Timeout { secs: 3, nanos: 500_000_000 });
}

#[test]
fn config_defaults() {
    let cfg = Config::default();
    assert_eq!(cfg.defaults.publish_subscribe.subscriber_max_buffer_size, 2);
    assert_eq!(cfg.defaults.publish_subscribe.unable_to_deliver_strategy, UnableToDeliverStrategy::Block);
    assert!(cfg.global.node.cleanup_dead_nodes_on_creation);
    assert_eq!(cfg.global.service.dynamic_config_storage_suffix.as_bytes(), b".dynamic");
}

#[test]
fn error_codes() {
    assert_eq!(ConfigCreationError::FailedToOpenConfigFile.into_c_int(), 1);
    assert_eq!(ConfigCreationError::FailedToReadConfigFileContents.into_c_int(), 2);
    assert_eq!(ConfigCreationError::UnableToDeserializeContents.into_c_int(), 3);
    assert_eq!(SemanticStringError::ExceedsMaximumLength.into_c_int(), 2);
    assert_eq!(UnableToDeliverStrategy::DiscardSample.into_c_int(), 1);
    assert_eq!(UnableToDeliverStrategy::from_c_int(1), UnableToDeliverStrategy::DiscardSample);
    assert_eq!(UnableToDeliverStrategy::from_c_int(0), UnableToDeliverStrategy::Block);
}

#[test]
fn timeout_normalisation() {
    let t = Timeout::from_secs_and_nanos(1, 2_000_000_001);
    assert_eq!(t, Timeout { secs: 3, nanos: 1 });
}
