use iceoryx2::dynamic_storage::{
    BumpAllocator, Builder, Configuration, DynamicStorageCreateError, DynamicStorageOpenError,
    Storage,
};
use iceoryx2::memory::{HostLimits, Permission, SharedMemoryProvider};
use iceoryx2::names::FileName;
use iceoryx2::version::{get_package_version, PackageVersion};

fn name(text: &str) -> FileName {
    FileName::new(text.as_bytes()).unwrap()
}

#[test]
fn created_record_can_be_opened_and_read() {
    let mut provider = SharedMemoryProvider::<u64>::new();
    let storage = Builder::new(&name("counter"))
        .create_and_initialize(&mut provider, 123u64, |v: u64, _a: BumpAllocator| Some(v + 1))
        .unwrap();
    assert!(storage.has_ownership());
    assert_eq!(storage.get(&provider), Some(&124));
    let opened = Builder::new(&name("counter")).open(&provider).unwrap();
    assert!(!opened.has_ownership());
    assert_eq!(opened.get(&provider), Some(&124));
    assert_eq!(opened.name().as_bytes(), b"counter");
}

#[test]
fn record_is_not_visible_before_finalization() {
    let mut provider = SharedMemoryProvider::<u64>::new();
    let full = Configuration::default().full_name(&name("svc"));
    provider.create_exclusive(&full, 16, Permission::OwnerWrite).unwrap();
    let opener = Builder::new(&name("svc"));
    assert_eq!(
        opener.try_open(&provider).err(),
        Some(DynamicStorageOpenError::InitializationNotYetFinalized)
    );
    provider.store(0, 5);
    provider.set_permission(0, Permission::OwnerAll).unwrap();
    assert_eq!(
        opener.try_open(&provider).err(),
        Some(DynamicStorageOpenError::InitializationNotYetFinalized)
    );
    provider.write_version(0, get_package_version().value);
    let storage = opener.try_open(&provider).unwrap();
    assert_eq!(storage.get(&provider), Some(&5));
}

#[test]
fn version_mismatch_names_both_versions() {
    let mut provider = SharedMemoryProvider::<u64>::new();
    let created = PackageVersion::from_version(1, 2, 3);
    let required = PackageVersion::from_version(1, 3, 0);
    Builder::new(&name("svc"))
        .version(created)
        .create_and_initialize(&mut provider, 7u64, |v: u64, _a: BumpAllocator| Some(v))
        .unwrap();
    let r = Builder::new(&name("svc")).version(required).open(&provider);
    assert_eq!(
        r.err(),
        Some(DynamicStorageOpenError::VersionMismatch { found: created, expected: required })
    );
    assert_eq!(provider.version_of_region(0), created.value);
    assert_eq!(provider.data_of_region(0), Some(&7));
}

#[test]
fn open_errors() {
    let mut provider = SharedMemoryProvider::<u64>::new();
    assert_eq!(
        Builder::new(&name("none")).open(&provider).err(),
        Some(DynamicStorageOpenError::DoesNotExist)
    );
    Builder::new(&name("small"))
        .create_and_initialize(&mut provider, 1u64, |v: u64, _a: BumpAllocator| Some(v))
        .unwrap();
    assert_eq!(
        Builder::new(&name("small")).supplementary_size(64).open(&provider).err(),
        Some(DynamicStorageOpenError::InternalError)
    );
}

#[test]
fn create_errors_leave_nothing_behind() {
    let mut provider = SharedMemoryProvider::<u64>::new();
    let r = Builder::new(&name("svc"))
        .create_and_initialize(&mut provider, 1u64, |_v: u64, _a: BumpAllocator| None);
    assert_eq!(r.err(), Some(DynamicStorageCreateError::InitializationFailed));
    assert_eq!(provider.len(), 0);
    Builder::new(&name("svc"))
        .create_and_initialize(&mut provider, 1u64, |v: u64, _a: BumpAllocator| Some(v))
        .unwrap();
    let again = Builder::new(&name("svc"))
        .create_and_initialize(&mut provider, 2u64, |v: u64, _a: BumpAllocator| Some(v));
    assert_eq!(again.err(), Some(DynamicStorageCreateError::AlreadyExists));
    assert_eq!(provider.len(), 1);
}

#[test]
fn initializer_gets_the_tail_arena() {
    let mut provider = SharedMemoryProvider::<u64>::new();
    Builder::new(&name("arena"))
        .supplementary_size(32)
        .create_and_initialize(&mut provider, 0u64, |_v: u64, mut a: BumpAllocator| {
            assert_eq!(a.capacity(), 32);
            assert_eq!(a.used(), 0);
            let first = a.allocate(3, 1).unwrap();
            let second = a.allocate(8, 8).unwrap();
            assert_eq!(first, 16);
            assert_eq!(second, 24);
            assert_eq!(a.allocate(64, 1), None);
            Some(second as u64)
        })
        .unwrap();
    assert_eq!(provider.size_of_region(0), 48);
    assert_eq!(provider.data_of_region(0), Some(&24));
}

#[test]
fn bump_allocator_aligns_and_refuses_overflow() {
    let mut a = BumpAllocator::new(100, 20);
    assert_eq!(a.allocate(1, 1), Some(100));
    assert_eq!(a.allocate(4, 4), Some(104));
    assert_eq!(a.used(), 8);
    assert_eq!(a.allocate(16, 8), None);
    assert_eq!(a.used(), 8);
    assert_eq!(a.allocate(8, 8), Some(112));
    assert_eq!(a.used(), 20);
}

#[test]
fn names_are_listed_checked_and_removed() {
    let mut provider = SharedMemoryProvider::<u64>::new();
    let cfg = Configuration::default();
    for n in ["a", "b"] {
        Builder::new(&name(n))
            .create_and_initialize(&mut provider, 0u64, |v: u64, _a: BumpAllocator| Some(v))
            .unwrap();
    }
    provider.create_exclusive(b"unrelated", 8, Permission::OwnerAll).unwrap();
    let listed: Vec<Vec<u8>> = Storage::list_cfg(&cfg, &provider)
        .iter()
        .map(|n| n.as_bytes().to_vec())
        .collect();
    assert_eq!(listed, vec![b"a".to_vec(), b"b".to_vec()]);
    assert!(Storage::does_exist_cfg(&name("a"), &cfg, &provider));
    assert!(Storage::remove_cfg(&name("a"), &cfg, &mut provider));
    assert!(!Storage::remove_cfg(&name("a"), &cfg, &mut provider));
    assert!(!Storage::does_exist_cfg(&name("a"), &cfg, &provider));
    assert!(Storage::does_support_persistency());
}

#[test]
fn full_names_and_extraction() {
    let cfg = Configuration::default();
    assert_eq!(cfg.full_name(&name("x")), b"iox2_x.dyn".to_vec());
    assert_eq!(cfg.extract_name_from_file(b"iox2_x.dyn").map(|n| n.as_bytes().to_vec()), Some(b"x".to_vec()));
    assert!(cfg.extract_name_from_file(b"iox2_.dyn").is_none());
    assert!(cfg.extract_name_from_file(b"other_x.dyn").is_none());
    assert!(cfg.extract_name_from_file(b"iox2_x.dat").is_none());
    let custom = Configuration::default().prefix(name("p_")).suffix(name(".s"));
    assert_eq!(custom.full_name(&name("y")), b"p_y.s".to_vec());
    assert_eq!(custom.get_prefix().as_bytes(), b"p_");
}

#[test]
fn owning_handle_removes_region_on_close() {
    let mut provider = SharedMemoryProvider::<u64>::new();
    let mut owner = Builder::new(&name("svc"))
        .create_and_initialize(&mut provider, 0u64, |v: u64, _a: BumpAllocator| Some(v))
        .unwrap();
    let peer = Builder::new(&name("svc")).open(&provider).unwrap();
    assert!(!peer.close(&mut provider));
    assert_eq!(provider.len(), 1);
    owner.release_ownership();
    assert!(!owner.has_ownership());
    owner.acquire_ownership();
    assert!(owner.close(&mut provider));
    assert_eq!(provider.len(), 0);
}

#[test]
fn non_owning_builder_hands_out_non_owning_handle() {
    let mut provider = SharedMemoryProvider::<u64>::new();
    let s = Builder::new(&name("svc"))
        .has_ownership(false)
        .create_and_initialize(&mut provider, 0u64, |v: u64, _a: BumpAllocator| Some(v))
        .unwrap();
    assert!(!s.has_ownership());
}

#[test]
fn opener_sees_the_initialized_payload() {
    let mut provider = SharedMemoryProvider::<u64>::new();
    let owner = Builder::new(&name("svc"))
        .supplementary_size(8)
        .create_and_initialize(&mut provider, 5u64, |v: u64, _a: BumpAllocator| Some(v * 10))
        .unwrap();
    let peer = Builder::new(&name("svc")).supplementary_size(8).open(&provider).unwrap();
    assert_eq!(peer.get(&provider), Some(&50));
    assert_eq!(owner.get(&provider), Some(&50));
}

#[test]
fn record_with_unset_version_word_is_not_read() {
    let mut provider = SharedMemoryProvider::<u64>::new();
    let storage = Builder::new(&name("svc"))
        .create_and_initialize(&mut provider, 3u64, |v: u64, _a: BumpAllocator| Some(v))
        .unwrap();
    provider.write_version(0, 0);
    assert_eq!(storage.get(&provider), None);
}

#[test]
fn open_reports_missing_and_unfinished_before_size() {
    let mut provider = SharedMemoryProvider::<u64>::new();
    let huge = Builder::new(&name("svc")).supplementary_size(usize::MAX);
    assert_eq!(huge.try_open(&provider).err(), Some(DynamicStorageOpenError::DoesNotExist));
    let full = Configuration::default().full_name(&name("svc"));
    provider.create_exclusive(&full, 16, Permission::OwnerWrite).unwrap();
    assert_eq!(
        huge.try_open(&provider).err(),
        Some(DynamicStorageOpenError::InitializationNotYetFinalized)
    );
    provider.set_permission(0, Permission::OwnerAll).unwrap();
    assert_eq!(huge.try_open(&provider).err(), Some(DynamicStorageOpenError::InternalError));
}

#[test]
fn builder_defaults() {
    let b = Builder::new(&name("svc"));
    assert_eq!(b.config.prefix.as_bytes(), b"iox2_");
    assert_eq!(b.config.suffix.as_bytes(), b".dyn");
    assert_eq!(b.config.path.as_bytes(), b"/tmp/");
    assert_eq!(b.supplementary_size, 0);
    assert!(b.has_ownership);
}

#[test]
fn zero_version_word_is_refused_at_creation() {
    let mut provider = SharedMemoryProvider::<u64>::new();
    let r = Builder::new(&name("svc"))
        .version(PackageVersion::from_u64(0))
        .create_and_initialize(&mut provider, 1u64, |v: u64, _a: BumpAllocator| Some(v));
    assert_eq!(r.err(), Some(DynamicStorageCreateError::InternalError));
    assert_eq!(provider.len(), 0);
}

fn host(may_create: bool, max_regions: usize, may_change_permissions: bool) -> HostLimits {
    HostLimits { may_create, max_regions, may_change_permissions }
}

#[test]
fn creation_failures_of_the_host_leave_nothing_behind() {
    let mut denied = SharedMemoryProvider::<u64>::with_limits(host(false, 8, true));
    let r = Builder::new(&name("svc"))
        .create_and_initialize(&mut denied, 1u64, |_v: u64, _a: BumpAllocator| -> Option<u64> {
            panic!("the initializer must not run")
        });
    assert_eq!(r.err(), Some(DynamicStorageCreateError::InsufficientPermissions));
    assert_eq!(denied.len(), 0);

    let mut full = SharedMemoryProvider::<u64>::with_limits(host(true, 0, true));
    let r = Builder::new(&name("svc"))
        .create_and_initialize(&mut full, 1u64, |v: u64, _a: BumpAllocator| Some(v));
    assert_eq!(r.err(), Some(DynamicStorageCreateError::InternalError));
    assert_eq!(full.len(), 0);
}

#[test]
fn failed_final_permission_step_leaves_an_unopened_record() {
    let mut provider = SharedMemoryProvider::<u64>::with_limits(host(true, 8, false));
    let r = Builder::new(&name("svc"))
        .create_and_initialize(&mut provider, 4u64, |v: u64, _a: BumpAllocator| Some(v + 1));
    assert_eq!(r.err(), Some(DynamicStorageCreateError::InternalError));
    assert_eq!(provider.len(), 1);
    assert_eq!(provider.version_of_region(0), get_package_version().value);
    assert_eq!(provider.data_of_region(0), Some(&5));
    assert_eq!(
        Builder::new(&name("svc")).open(&provider).err(),
        Some(DynamicStorageOpenError::InitializationNotYetFinalized)
    );
}
