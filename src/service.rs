//! Creating and opening a service: its static descriptor and its dynamic
//! storage. A service becomes visible only when its creator opens the
//! descriptor to readers, after the dynamic storage is in place; an opener
//! sees either nothing, "not yet finalized", or a complete service.

use crate::descriptor::{decode_spec, encode_spec, ServiceStaticConfig, TRAILING_WORDS};
use crate::dynamic_storage::{
    open_outcome, record_size, BumpAllocator, Builder, DynamicStorageCreateError,
    DynamicStorageOpenError, Storage, VERSION_WORD_SIZE,
};
use vstd::layout::size_of;
use crate::memory::{
    contains_name, is_region_named, Permission, RegionView, SharedMemoryError, SharedMemoryProvider,
};
use crate::static_storage::{read_outcome, StaticStorageReadError};
use vstd::prelude::*;

verus! {

#[derive(PartialEq, Eq, Structural, Clone, Copy, Debug)]
pub enum ServiceCreateError {
    AlreadyExists,
    /// The process may not create the descriptor.
    InsufficientPermissions,
    /// The host could not hold the descriptor, or it could not be opened to
    /// readers.
    InternalError,
    DynamicStorage(DynamicStorageCreateError),
}

#[derive(PartialEq, Eq, Structural, Clone, Copy, Debug)]
pub enum ServiceOpenError {
    DoesNotExist,
    NotYetFinalized,
    /// The descriptor is intact but not a static configuration of this
    /// schema.
    IncompatibleDescriptor,
    DynamicStorage(DynamicStorageOpenError),
}

/// Whether the descriptor `name` can be reserved in `statics`.
pub open spec fn can_reserve(statics: &SharedMemoryProvider<Vec<u8>>, name: Seq<u8>) -> bool {
    &&& !contains_name(statics@, name)
    &&& statics.spec_limits().may_create
    &&& statics@.len() < statics.spec_limits().max_regions
}

/// Whether `builder` can create its record in `dynamics`, up to the
/// initializer.
pub open spec fn can_create<T>(builder: Builder, dynamics: &SharedMemoryProvider<T>) -> bool {
    &&& builder.version.value != 0
    &&& record_size::<T>(builder.supplementary_size as nat) <= usize::MAX
    &&& !contains_name(dynamics@, builder.spec_full_name())
    &&& dynamics.spec_limits().may_create
    &&& dynamics@.len() < dynamics.spec_limits().max_regions
}

/// Removing the region that was added last, by its name, gives back the
/// table as it was before.
proof fn lemma_remove_last_added<T>(before: Seq<RegionView<T>>, after: Seq<RegionView<T>>, name: Seq<u8>, i: int)
    requires
        crate::memory::names_unique(after),
        after.len() == before.len() + 1,
        after.drop_last() == before,
        after.last().name == name,
        is_region_named(after, name, i),
    ensures
        after.remove(i) == before,
{
    let last = after.len() - 1;
    if i != last {
        assert(after[i].name != after[last].name);
    }
    assert(after.remove(i) =~= before);
}

/// Creates a service: reserves its descriptor `descriptor_name`, creates its
/// dynamic storage with `builder`, writes the descriptor, and at last opens
/// it to readers. When any step fails nothing of the service is left.
pub fn create_service<T, F: FnOnce(T, BumpAllocator) -> Option<T>>(
    descriptor_name: &[u8],
    config: &ServiceStaticConfig,
    statics: &mut SharedMemoryProvider<Vec<u8>>,
    builder: Builder,
    dynamics: &mut SharedMemoryProvider<T>,
    initial_value: T,
    initializer: F,
) -> (r: Result<Storage, ServiceCreateError>)
    requires
        old(statics).wf(),
        old(dynamics).wf(),
        config.service_name@.len() + 16 + 8 * TRAILING_WORDS <= usize::MAX,
        forall|v: T, a: BumpAllocator| initializer.requires((v, a)),
    ensures
        final(statics).wf(),
        final(dynamics).wf(),
        final(statics).spec_limits() == old(statics).spec_limits(),
        final(dynamics).spec_limits() == old(dynamics).spec_limits(),
        r is Err ==> final(statics)@ == old(statics)@ && final(dynamics)@ == old(dynamics)@,
        contains_name(old(statics)@, descriptor_name@) ==> r == Err::<Storage, ServiceCreateError>(
            ServiceCreateError::AlreadyExists),
        !contains_name(old(statics)@, descriptor_name@) && !old(statics).spec_limits().may_create ==> r
            == Err::<Storage, ServiceCreateError>(ServiceCreateError::InsufficientPermissions),
        !contains_name(old(statics)@, descriptor_name@) && old(statics).spec_limits().may_create
            && old(statics)@.len() >= old(statics).spec_limits().max_regions ==> r == Err::<
            Storage,
            ServiceCreateError,
        >(ServiceCreateError::InternalError),
        can_reserve(&*old(statics), descriptor_name@) && (builder.version.value == 0 || record_size::<T>(
            builder.supplementary_size as nat,
        ) > usize::MAX) ==> r == Err::<Storage, ServiceCreateError>(
            ServiceCreateError::DynamicStorage(DynamicStorageCreateError::InternalError),
        ),
        can_reserve(&*old(statics), descriptor_name@) && builder.version.value != 0 && record_size::<T>(
            builder.supplementary_size as nat,
        ) <= usize::MAX && contains_name(old(dynamics)@, builder.spec_full_name()) ==> r == Err::<
            Storage,
            ServiceCreateError,
        >(ServiceCreateError::DynamicStorage(DynamicStorageCreateError::AlreadyExists)),
        can_reserve(&*old(statics), descriptor_name@) && builder.version.value != 0 && record_size::<T>(
            builder.supplementary_size as nat,
        ) <= usize::MAX && !contains_name(old(dynamics)@, builder.spec_full_name())
            && !old(dynamics).spec_limits().may_create ==> r == Err::<Storage, ServiceCreateError>(
            ServiceCreateError::DynamicStorage(DynamicStorageCreateError::InsufficientPermissions),
        ),
        can_reserve(&*old(statics), descriptor_name@) && builder.version.value != 0 && record_size::<T>(
            builder.supplementary_size as nat,
        ) <= usize::MAX && !contains_name(old(dynamics)@, builder.spec_full_name())
            && old(dynamics).spec_limits().may_create && old(dynamics)@.len()
            >= old(dynamics).spec_limits().max_regions ==> r == Err::<Storage, ServiceCreateError>(
            ServiceCreateError::DynamicStorage(DynamicStorageCreateError::InternalError),
        ),
        can_reserve(&*old(statics), descriptor_name@) && can_create(builder, &*old(dynamics)) ==> exists|
            a: BumpAllocator,
            outcome: Option<T>,
        |
            {
                &&& a.spec_start() == VERSION_WORD_SIZE + size_of::<T>()
                &&& a.spec_capacity() == builder.supplementary_size
                &&& a.spec_used() == 0
                &&& #[trigger] initializer.ensures((initial_value, a), outcome)
                &&& outcome is None ==> r == Err::<Storage, ServiceCreateError>(
                    ServiceCreateError::DynamicStorage(DynamicStorageCreateError::InitializationFailed),
                )
                &&& outcome is Some && !old(dynamics).spec_limits().may_change_permissions ==> r == Err::<
                    Storage,
                    ServiceCreateError,
                >(ServiceCreateError::DynamicStorage(DynamicStorageCreateError::InternalError))
                &&& outcome is Some && old(dynamics).spec_limits().may_change_permissions
                    && !old(statics).spec_limits().may_change_permissions ==> r == Err::<
                    Storage,
                    ServiceCreateError,
                >(ServiceCreateError::InternalError)
                &&& outcome matches Some(v) ==> (old(dynamics).spec_limits().may_change_permissions
                    && old(statics).spec_limits().may_change_permissions ==> r is Ok
                    && final(dynamics)@.last().data == Some(v))
            },
        r matches Ok(s) ==> {
            &&& read_outcome(final(statics)@, descriptor_name@) == Ok::<Seq<u8>, StaticStorageReadError>(
                encode_spec(config@))
            &&& s.spec_full_name() == builder.spec_full_name()
            &&& final(dynamics)@.drop_last() == old(dynamics)@
            &&& final(dynamics)@.last().name == builder.spec_full_name()
            &&& final(dynamics)@.last().permission == Permission::OwnerAll
            &&& final(dynamics)@.last().version == builder.version.value
        },
{
    let dynamic_name = builder.config.full_name(&builder.storage_name);
    let index = match crate::static_storage::reserve(descriptor_name, statics) {
        Ok(i) => i,
        Err(SharedMemoryError::AlreadyExists) => return Err(ServiceCreateError::AlreadyExists),
        Err(SharedMemoryError::InsufficientPermissions) => {
            return Err(ServiceCreateError::InsufficientPermissions)
        },
        Err(_) => return Err(ServiceCreateError::InternalError),
    };
    let ghost reserved = statics@;
    assert(reserved.drop_last() =~= old(statics)@);
    assert(reserved[index as int].name == descriptor_name@);
    assert(is_region_named(reserved, descriptor_name@, index as int));
    let dynamics_before = dynamics.len();
    let storage = match builder.create_and_initialize(dynamics, initial_value, initializer) {
        Ok(s) => s,
        Err(e) => {
            statics.remove(descriptor_name);
            proof {
                let i = choose|i: int| #[trigger] is_region_named(reserved, descriptor_name@, i) && statics@ == reserved.remove(i);
                lemma_remove_last_added(old(statics)@, reserved, descriptor_name@, i);
            }
            if dynamics.len() != dynamics_before {
                let ghost left = dynamics@;
                assert(is_region_named(left, dynamic_name@, left.len() - 1));
                dynamics.remove(dynamic_name.as_slice());
                proof {
                    let i = choose|i: int| #[trigger] is_region_named(left, dynamic_name@, i) && dynamics@ == left.remove(i);
                    lemma_remove_last_added(old(dynamics)@, left, dynamic_name@, i);
                }
            }
            return Err(ServiceCreateError::DynamicStorage(e));
        },
    };
    let ghost created = dynamics@;
    let content = config.encode();
    match crate::static_storage::publish(index, content.as_slice(), statics) {
        Ok(()) => {
            proof {
                let fin = statics@;
                assert(is_region_named(fin, descriptor_name@, index as int));
                crate::memory::lemma_named_region_is_chosen(fin, descriptor_name@);
                crate::static_storage::lemma_seal_round_trip(content@);
            }
            Ok(storage)
        },
        Err(_) => {
            let ghost written = statics@;
            assert(is_region_named(written, descriptor_name@, index as int));
            assert(written.drop_last() =~= old(statics)@);
            statics.remove(descriptor_name);
            proof {
                let i = choose|i: int| #[trigger] is_region_named(written, descriptor_name@, i) && statics@ == written.remove(i);
                lemma_remove_last_added(old(statics)@, written, descriptor_name@, i);
            }
            assert(is_region_named(created, dynamic_name@, created.len() - 1));
            dynamics.remove(dynamic_name.as_slice());
            proof {
                let i = choose|i: int| #[trigger] is_region_named(created, dynamic_name@, i) && dynamics@ == created.remove(i);
                lemma_remove_last_added(old(dynamics)@, created, dynamic_name@, i);
            }
            Err(ServiceCreateError::InternalError)
        },
    }
}

/// Opens a service: reads its descriptor `descriptor_name`, decodes the
/// static configuration, and opens the dynamic storage with `builder`.
pub fn open_service<T>(
    descriptor_name: &[u8],
    statics: &SharedMemoryProvider<Vec<u8>>,
    builder: &Builder,
    dynamics: &SharedMemoryProvider<T>,
) -> (r: Result<(ServiceStaticConfig, Storage), ServiceOpenError>)
    requires
        statics.wf(),
        dynamics.wf(),
    ensures
        read_outcome(statics@, descriptor_name@) == Err::<Seq<u8>, StaticStorageReadError>(
            StaticStorageReadError::DoesNotExist) ==> r is Err && r->Err_0 == ServiceOpenError::DoesNotExist,
        read_outcome(statics@, descriptor_name@) == Err::<Seq<u8>, StaticStorageReadError>(
            StaticStorageReadError::NotYetFinalized) ==> r is Err && r->Err_0 == ServiceOpenError::NotYetFinalized,
        read_outcome(statics@, descriptor_name@) matches Ok(content) ==> {
            &&& decode_spec(content) is None ==> r is Err && r->Err_0 == ServiceOpenError::IncompatibleDescriptor
            &&& decode_spec(content) is Some ==> ({
                let outcome = open_outcome(
                    dynamics@,
                    builder.spec_full_name(),
                    record_size::<T>(builder.supplementary_size as nat),
                    builder.version.value,
                );
                &&& outcome is Ok ==> r is Ok
                &&& outcome is Err ==> r is Err && r->Err_0 == ServiceOpenError::DynamicStorage(outcome->Err_0)
            })
        },
        r matches Ok((c, s)) ==> {
            &&& read_outcome(statics@, descriptor_name@) matches Ok(content) && decode_spec(content) == Some(c@)
            &&& open_outcome(
                dynamics@,
                builder.spec_full_name(),
                record_size::<T>(builder.supplementary_size as nat),
                builder.version.value,
            ) is Ok
            &&& s.spec_full_name() == builder.spec_full_name()
        },
{
    let content = match crate::static_storage::read(descriptor_name, statics) {
        Ok(c) => c,
        Err(StaticStorageReadError::DoesNotExist) => return Err(ServiceOpenError::DoesNotExist),
        Err(StaticStorageReadError::NotYetFinalized) => return Err(ServiceOpenError::NotYetFinalized),
    };
    let config = match ServiceStaticConfig::decode(content.as_slice()) {
        Some(c) => c,
        None => return Err(ServiceOpenError::IncompatibleDescriptor),
    };
    match builder.try_open(dynamics) {
        Ok(s) => Ok((config, s)),
        Err(e) => Err(ServiceOpenError::DynamicStorage(e)),
    }
}

/// A service that an opener could open is consistent: its descriptor is
/// open to readers and its hash matches its content, and its dynamic
/// storage is open to peers with a version word that is set and equal to
/// the opener's.
pub proof fn lemma_visible_service_is_consistent<T>(
    statics: Seq<RegionView<Vec<u8>>>,
    descriptor_name: Seq<u8>,
    content: Seq<u8>,
    dynamics: Seq<RegionView<T>>,
    full_name: Seq<u8>,
    required: int,
    expected: u64,
)
    requires
        read_outcome(statics, descriptor_name) == Ok::<Seq<u8>, StaticStorageReadError>(content),
        open_outcome(dynamics, full_name, required, expected) is Ok,
    ensures
        exists|i: int| #[trigger] is_region_named(statics, descriptor_name, i) && {
            &&& statics[i].permission == Permission::OwnerAll
            &&& statics[i].data matches Some(file) && file@.len() == content.len() + 8
                && file@.subrange(0, content.len() as int) == content
                && crate::descriptor::word_at(file@, content.len() as int) == crate::static_storage::content_hash(content)
        },
        exists|i: int| #[trigger] is_region_named(dynamics, full_name, i) && {
            &&& dynamics[i].permission == Permission::OwnerAll
            &&& dynamics[i].version != 0
            &&& dynamics[i].version == expected
        },
{
    crate::static_storage::lemma_read_descriptor_is_intact(statics, descriptor_name, content);
    crate::dynamic_storage::lemma_opened_record_is_finalized(dynamics, full_name, required, expected);
}

} // verus!
