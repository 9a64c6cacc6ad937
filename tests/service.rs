use iceoryx2::config::Config;
use iceoryx2::descriptor::ServiceStaticConfig;
use iceoryx2::dynamic_storage::{BumpAllocator, Builder, DynamicStorageCreateError, DynamicStorageOpenError};
use iceoryx2::event::{Listener, Notifier, NotifierError};
use iceoryx2::memory::{HostLimits, Permission, SharedMemoryProvider};
use iceoryx2::names::FileName;
use iceoryx2::pattern::{EventStaticConfig, MessagingPattern, PublishSubscribeStaticConfig};
use iceoryx2::service::{create_service, open_service, ServiceCreateError, ServiceOpenError};
use iceoryx2::static_storage::{hash_content, read, reserve, seal, unseal, publish, StaticStorageReadError};
use iceoryx2::version::PackageVersion;

fn demo_config() -> ServiceStaticConfig {
    let cfg = Config::default();
    ServiceStaticConfig {
        service_name: b"demo".to_vec(),
        pattern: MessagingPattern::PublishSubscribe(PublishSubscribeStaticConfig::new(&cfg)),
        payload_type: 0xfeed,
        user_header_type: 7,
    }
}

fn builder() -> Builder {
    Builder::new(&FileName::new(b"demo").unwrap())
}

#[test]
fn descriptor_round_trip() {
    let c = demo_config();
    let bytes = c.encode();
    assert_eq!(bytes.len(), 16 + 4 + 88);
    assert_eq!(&bytes[0..8], &[1, 0, 0, 0, 0, 0, 0, 0]);
    assert_eq!(&bytes[8..16], &[4, 0, 0, 0, 0, 0, 0, 0]);
    assert_eq!(&bytes[16..20], b"demo");
    assert_eq!(ServiceStaticConfig::decode(&bytes), Some(c));
    let e = ServiceStaticConfig {
        service_name: b"My/Funk/ServiceName".to_vec(),
        pattern: MessagingPattern::Event(EventStaticConfig::new(&Config::default())),
        payload_type: 0,
        user_header_type: u64::MAX,
    };
    assert_eq!(ServiceStaticConfig::decode(&e.encode()), Some(e));
}

#[test]
fn descriptor_rejects_other_schemas_and_garbage() {
    let mut bytes = demo_config().encode();
    bytes[0] = 2;
    assert_eq!(ServiceStaticConfig::decode(&bytes), None);
    let mut bytes = demo_config().encode();
    bytes.pop();
    assert_eq!(ServiceStaticConfig::decode(&bytes), None);
    let mut bytes = demo_config().encode();
    bytes[20] = 9;
    assert_eq!(ServiceStaticConfig::decode(&bytes), None);
    assert_eq!(ServiceStaticConfig::decode(&[]), None);
}

#[test]
fn content_hash_is_fnv1a() {
    assert_eq!(hash_content(b""), 0xcbf29ce484222325);
    assert_eq!(hash_content(b"a"), 0xaf63dc4c8601ec8c);
    assert_eq!(hash_content(b"foobar"), 0x85944171f73967e8);
}

#[test]
fn sealed_descriptor_detects_corruption() {
    let file = seal(b"content");
    assert_eq!(file.len(), 15);
    assert_eq!(unseal(&file), Some(b"content".to_vec()));
    let mut broken = file.clone();
    broken[0] = b'C';
    assert_eq!(unseal(&broken), None);
    assert_eq!(unseal(b"short"), None);
}

#[test]
fn descriptor_is_unreadable_until_published() {
    let mut statics = SharedMemoryProvider::<Vec<u8>>::new();
    assert_eq!(read(b"svc", &statics), Err(StaticStorageReadError::DoesNotExist));
    let index = reserve(b"svc", &mut statics).unwrap();
    assert!(reserve(b"svc", &mut statics).is_err());
    assert_eq!(read(b"svc", &statics), Err(StaticStorageReadError::NotYetFinalized));
    statics.set_permission(index, Permission::OwnerAll).unwrap();
    assert_eq!(read(b"svc", &statics), Err(StaticStorageReadError::NotYetFinalized));
    statics.store(index, b"bad hash".to_vec());
    assert_eq!(read(b"svc", &statics), Err(StaticStorageReadError::NotYetFinalized));
    publish(index, b"hello", &mut statics).unwrap();
    assert_eq!(read(b"svc", &statics), Ok(b"hello".to_vec()));
}

#[test]
fn two_phase_visibility_of_a_service() {
    let mut statics = SharedMemoryProvider::<Vec<u8>>::new();
    let mut dynamics = SharedMemoryProvider::<u64>::new();
    // creator has reserved the descriptor but not yet published it
    reserve(b"demo.service", &mut statics).unwrap();
    assert_eq!(
        open_service(b"demo.service", &statics, &builder(), &dynamics).err(),
        Some(ServiceOpenError::NotYetFinalized)
    );
    statics.remove(b"demo.service");
    let config = demo_config();
    create_service(
        b"demo.service",
        &config,
        &mut statics,
        builder(),
        &mut dynamics,
        0u64,
        |v: u64, _a: BumpAllocator| Some(v),
    )
    .unwrap();
    let (opened, storage) = open_service(b"demo.service", &statics, &builder(), &dynamics).unwrap();
    assert_eq!(opened, config);
    assert_eq!(storage.get(&dynamics), Some(&0));
}

#[test]
fn service_creation_errors() {
    let mut statics = SharedMemoryProvider::<Vec<u8>>::new();
    let mut dynamics = SharedMemoryProvider::<u64>::new();
    let config = demo_config();
    let failed = create_service(
        b"demo.service",
        &config,
        &mut statics,
        builder(),
        &mut dynamics,
        0u64,
        |_v: u64, _a: BumpAllocator| None,
    );
    assert_eq!(
        failed.err(),
        Some(ServiceCreateError::DynamicStorage(DynamicStorageCreateError::InitializationFailed))
    );
    assert_eq!(statics.len(), 0);
    assert_eq!(dynamics.len(), 0);
    create_service(b"demo.service", &config, &mut statics, builder(), &mut dynamics, 0u64, |v: u64, _a: BumpAllocator| Some(v)).unwrap();
    let again = create_service(b"demo.service", &config, &mut statics, builder(), &mut dynamics, 0u64, |v: u64, _a: BumpAllocator| Some(v));
    assert_eq!(again.err(), Some(ServiceCreateError::AlreadyExists));
}

#[test]
fn service_open_errors() {
    let mut statics = SharedMemoryProvider::<Vec<u8>>::new();
    let mut dynamics = SharedMemoryProvider::<u64>::new();
    assert_eq!(
        open_service(b"demo.service", &statics, &builder(), &dynamics).err(),
        Some(ServiceOpenError::DoesNotExist)
    );
    let index = reserve(b"odd.service", &mut statics).unwrap();
    publish(index, b"not a descriptor", &mut statics).unwrap();
    assert_eq!(
        open_service(b"odd.service", &statics, &builder(), &dynamics).err(),
        Some(ServiceOpenError::IncompatibleDescriptor)
    );
    let created = PackageVersion::from_version(1, 2, 3);
    create_service(
        b"demo.service",
        &demo_config(),
        &mut statics,
        builder().version(created),
        &mut dynamics,
        0u64,
        |v: u64, _a: BumpAllocator| Some(v),
    )
    .unwrap();
    let required = PackageVersion::from_version(1, 3, 0);
    assert_eq!(
        open_service(b"demo.service", &statics, &builder().version(required), &dynamics).err(),
        Some(ServiceOpenError::DynamicStorage(DynamicStorageOpenError::VersionMismatch {
            found: created,
            expected: required
        }))
    );
}

#[test]
fn events_coalesce_and_come_out_in_order() {
    let mut listener = Listener::new(8);
    let notifier = Notifier { event_id_max_value: 8 };
    assert_eq!(listener.event_id_max_value(), 8);
    assert_eq!(notifier.notify(&mut listener, 5), Ok(()));
    assert_eq!(notifier.notify(&mut listener, 2), Ok(()));
    assert_eq!(notifier.notify(&mut listener, 5), Ok(()));
    assert_eq!(notifier.notify(&mut listener, 9), Err(NotifierError::EventIdOutOfBounds));
    assert_eq!(listener.try_wait_all(), vec![2, 5]);
    assert_eq!(listener.try_wait_all(), Vec::<usize>::new());
    assert_eq!(listener.notify(3), Ok(()));
    assert_eq!(listener.notify(1), Ok(()));
    assert_eq!(listener.try_wait_one(), Some(1));
    assert_eq!(listener.try_wait_one(), Some(3));
    assert_eq!(listener.try_wait_one(), None);
    let narrow = Notifier { event_id_max_value: 2 };
    assert_eq!(narrow.notify(&mut listener, 4), Err(NotifierError::EventIdOutOfBounds));
}

#[test]
fn failed_service_creation_leaves_nothing_behind() {
    let limits = |may_create: bool, may_change_permissions: bool| HostLimits {
        may_create,
        max_regions: 8,
        may_change_permissions,
    };
    let config = demo_config();
    let accept = |v: u64, _a: BumpAllocator| Some(v);

    let mut statics = SharedMemoryProvider::<Vec<u8>>::with_limits(limits(false, true));
    let mut dynamics = SharedMemoryProvider::<u64>::new();
    let r = create_service(b"demo.service", &config, &mut statics, builder(), &mut dynamics, 0u64, accept);
    assert_eq!(r.err(), Some(ServiceCreateError::InsufficientPermissions));
    assert_eq!((statics.len(), dynamics.len()), (0, 0));

    let mut statics = SharedMemoryProvider::<Vec<u8>>::with_limits(limits(true, false));
    let mut dynamics = SharedMemoryProvider::<u64>::new();
    let r = create_service(b"demo.service", &config, &mut statics, builder(), &mut dynamics, 0u64, accept);
    assert_eq!(r.err(), Some(ServiceCreateError::InternalError));
    assert_eq!((statics.len(), dynamics.len()), (0, 0));

    let mut statics = SharedMemoryProvider::<Vec<u8>>::new();
    let mut dynamics = SharedMemoryProvider::<u64>::with_limits(limits(true, false));
    let r = create_service(b"demo.service", &config, &mut statics, builder(), &mut dynamics, 0u64, accept);
    assert_eq!(
        r.err(),
        Some(ServiceCreateError::DynamicStorage(DynamicStorageCreateError::InternalError))
    );
    assert_eq!((statics.len(), dynamics.len()), (0, 0));
}
