//! Dynamic storage: a typed record in a shared region, stamped with the
//! package version once its creator has initialised it. Peers refuse the
//! record until the version word is set and the region is open to them.

use crate::memory::{
    contains_name, is_region_named, Permission, RegionView, SharedMemoryError, SharedMemoryProvider,
};
use crate::names::{bytes_equal, is_valid_file_name, sub_bytes, FileName, Path};
use crate::version::{
    get_package_version, version_word, PackageVersion, PACKAGE_VERSION_MAJOR, PACKAGE_VERSION_MINOR,
    PACKAGE_VERSION_PATCH,
};
use vstd::layout::size_of;
use vstd::prelude::*;

verus! {

/// The bytes that the version word takes in front of the payload.
pub const VERSION_WORD_SIZE: usize = 8;

#[derive(PartialEq, Eq, Structural, Clone, Copy, Debug)]
pub enum DynamicStorageCreateError {
    AlreadyExists,
    InsufficientPermissions,
    InitializationFailed,
    InternalError,
}

#[derive(PartialEq, Eq, Structural, Clone, Copy, Debug)]
pub enum DynamicStorageOpenError {
    DoesNotExist,
    InitializationNotYetFinalized,
    /// The record was created by another version of the library.
    VersionMismatch { found: PackageVersion, expected: PackageVersion },
    InternalError,
}

/// The address `x` rounded up to a multiple of `align`.
pub open spec fn aligned_up(x: int, align: int) -> int {
    x + (align - x % align) % align
}

/// A bump allocator over the tail arena of a region: hands out aligned,
/// disjoint pieces in increasing address order and never frees.
#[derive(Debug)]
pub struct BumpAllocator {
    start: usize,
    capacity: usize,
    used: usize,
}

impl BumpAllocator {
    pub closed spec fn spec_start(&self) -> nat {
        self.start as nat
    }

    pub closed spec fn spec_capacity(&self) -> nat {
        self.capacity as nat
    }

    pub closed spec fn spec_used(&self) -> nat {
        self.used as nat
    }

    /// The allocator's invariant: the arena lies in the address space and
    /// the used part lies in the arena.
    pub open spec fn wf(&self) -> bool {
        &&& self.spec_used() <= self.spec_capacity()
        &&& self.spec_start() + self.spec_capacity() <= usize::MAX
    }

    /// An allocator over `capacity` bytes from address `start`.
    pub fn new(start: usize, capacity: usize) -> (r: BumpAllocator)
        requires
            start + capacity <= usize::MAX,
        ensures
            r.wf(),
            r.spec_start() == start,
            r.spec_capacity() == capacity,
            r.spec_used() == 0,
    {
        BumpAllocator { start, capacity, used: 0 }
    }

    pub fn used(&self) -> (r: usize)
        ensures
            r == self.spec_used(),
    {
        self.used
    }

    pub fn capacity(&self) -> (r: usize)
        ensures
            r == self.spec_capacity(),
    {
        self.capacity
    }

    /// Hands out `size` bytes at the next address that is a multiple of
    /// `align`, or nothing when the arena has no room for them.
    pub fn allocate(&mut self, size: usize, align: usize) -> (r: Option<usize>)
        requires
            old(self).wf(),
            align > 0,
        ensures
            final(self).wf(),
            final(self).spec_start() == old(self).spec_start(),
            final(self).spec_capacity() == old(self).spec_capacity(),
            ({
                let at = aligned_up((old(self).spec_start() + old(self).spec_used()) as int, align as int);
                let end = (old(self).spec_start() + old(self).spec_capacity()) as int;
                &&& at + size <= end ==> r == Some(at as usize) && final(self).spec_used() == at + size
                    - old(self).spec_start()
                &&& at + size > end ==> r is None && final(self).spec_used() == old(self).spec_used()
            }),
    {
        let current = self.start + self.used;
        let padding = (align - current % align) % align;
        let room = self.capacity - self.used;
        if padding > room || size > room - padding {
            return None;
        }
        let at = current + padding;
        self.used = self.used + padding + size;
        Some(at)
    }
}

/// A piece that the allocator handed out is aligned and lies within the
/// arena, after everything handed out before.
pub proof fn lemma_allocation_aligned(start: int, used: int, capacity: int, size: int, align: int)
    requires
        0 <= start,
        0 <= used <= capacity,
        align > 0,
        size >= 0,
        aligned_up(start + used, align) + size <= start + capacity,
    ensures
        aligned_up(start + used, align) % align == 0,
        start + used <= aligned_up(start + used, align),
{
    let x = start + used;
    let m = x % align;
    vstd::arithmetic::div_mod::lemma_mod_pos_bound(x, align);
    if m == 0 {
        vstd::arithmetic::div_mod::lemma_mod_self_0(align);
        assert(aligned_up(x, align) == x);
    } else {
        vstd::arithmetic::div_mod::lemma_small_mod((align - m) as nat, align as nat);
        vstd::arithmetic::div_mod::lemma_fundamental_div_mod(x, align);
        assert(aligned_up(x, align) == (x / align + 1) * align) by (nonlinear_arith)
            requires
                x == align * (x / align) + m,
                aligned_up(x, align) == x + (align - m),
        ;
        vstd::arithmetic::div_mod::lemma_mod_multiples_basic(x / align + 1, align);
    }
}

/// How names of stored records are turned into region names.
#[derive(Debug)]
pub struct Configuration {
    pub suffix: FileName,
    pub prefix: FileName,
    pub path: Path,
}

impl Clone for Configuration {
    fn clone(&self) -> (r: Self)
        ensures
            r.prefix@ == self.prefix@,
            r.suffix@ == self.suffix@,
            r.path@ == self.path@,
    {
        Configuration { prefix: self.prefix.clone(), suffix: self.suffix.clone(), path: self.path.clone() }
    }
}

/// The region name of the record `name`: prefix, name and suffix.
pub open spec fn full_name_of(prefix: Seq<u8>, name: Seq<u8>, suffix: Seq<u8>) -> Seq<u8> {
    prefix + name + suffix
}

/// The record name that a region name carries, if it has the prefix and
/// suffix and what lies between them is a valid file name.
pub open spec fn name_in_file(prefix: Seq<u8>, suffix: Seq<u8>, file: Seq<u8>) -> Option<Seq<u8>> {
    if file.len() >= prefix.len() + suffix.len() && file.subrange(0, prefix.len() as int) == prefix
        && file.subrange(file.len() - suffix.len(), file.len() as int) == suffix && is_valid_file_name(
        file.subrange(prefix.len() as int, file.len() - suffix.len()),
    ) {
        Some(file.subrange(prefix.len() as int, file.len() - suffix.len()))
    } else {
        None
    }
}

/// The record names among `files`, in order.
pub open spec fn names_in_files(prefix: Seq<u8>, suffix: Seq<u8>, files: Seq<Seq<u8>>) -> Seq<Seq<u8>>
    decreases files.len(),
{
    if files.len() == 0 {
        Seq::empty()
    } else {
        let rest = names_in_files(prefix, suffix, files.drop_last());
        match name_in_file(prefix, suffix, files.last()) {
            Some(n) => rest.push(n),
            None => rest,
        }
    }
}

impl Default for Configuration {
    fn default() -> (r: Configuration)
        ensures
            r.prefix@ == seq![105u8, 111u8, 120u8, 50u8, 95u8],
            r.suffix@ == seq![46u8, 100u8, 121u8, 110u8],
            r.path@ == seq![47u8, 116u8, 109u8, 112u8, 47u8],
    {
        let prefix: Vec<u8> = vec![105u8, 111u8, 120u8, 50u8, 95u8];
        let suffix: Vec<u8> = vec![46u8, 100u8, 121u8, 110u8];
        let path: Vec<u8> = vec![47u8, 116u8, 109u8, 112u8, 47u8];
        assert(prefix@ =~= seq![105u8, 111u8, 120u8, 50u8, 95u8]);
        assert(suffix@ =~= seq![46u8, 100u8, 121u8, 110u8]);
        assert(path@ =~= seq![47u8, 116u8, 109u8, 112u8, 47u8]);
        Configuration {
            prefix: FileName::from_valid_bytes(prefix),
            suffix: FileName::from_valid_bytes(suffix),
            path: Path::from_valid_bytes(path),
        }
    }
}

impl Configuration {
    pub fn prefix(self, value: FileName) -> (r: Configuration)
        ensures
            r.prefix == value,
            r.suffix == self.suffix,
            r.path == self.path,
    {
        Configuration { prefix: value, ..self }
    }

    pub fn get_prefix(&self) -> (r: &FileName)
        ensures
            *r == self.prefix,
    {
        &self.prefix
    }

    pub fn suffix(self, value: FileName) -> (r: Configuration)
        ensures
            r.suffix == value,
            r.prefix == self.prefix,
            r.path == self.path,
    {
        Configuration { suffix: value, ..self }
    }

    pub fn get_suffix(&self) -> (r: &FileName)
        ensures
            *r == self.suffix,
    {
        &self.suffix
    }

    pub fn path_hint(self, value: Path) -> (r: Configuration)
        ensures
            r.path == value,
            r.prefix == self.prefix,
            r.suffix == self.suffix,
    {
        Configuration { path: value, ..self }
    }

    pub fn get_path_hint(&self) -> (r: &Path)
        ensures
            *r == self.path,
    {
        &self.path
    }

    /// The region name of the record `name`.
    pub fn full_name(&self, name: &FileName) -> (r: Vec<u8>)
        ensures
            r@ == full_name_of(self.prefix@, name@, self.suffix@),
    {
        let mut r = crate::names::bytes_to_vec(self.prefix.as_bytes());
        crate::names::append_bytes(&mut r, name.as_bytes());
        crate::names::append_bytes(&mut r, self.suffix.as_bytes());
        r
    }

    /// The record name that the region name `file` carries, if any.
    pub fn extract_name_from_file(&self, file: &[u8]) -> (r: Option<FileName>)
        ensures
            r is None <==> name_in_file(self.prefix@, self.suffix@, file@) is None,
            r matches Some(n) ==> name_in_file(self.prefix@, self.suffix@, file@) == Some(n@),
    {
        let p = self.prefix.as_bytes();
        let s = self.suffix.as_bytes();
        if file.len() < p.len() || file.len() - p.len() < s.len() {
            return None;
        }
        let head = sub_bytes(file, 0, p.len());
        let tail = sub_bytes(file, file.len() - s.len(), file.len());
        if !bytes_equal(head.as_slice(), p) || !bytes_equal(tail.as_slice(), s) {
            return None;
        }
        let middle = sub_bytes(file, p.len(), file.len() - s.len());
        match FileName::new(middle.as_slice()) {
            Ok(n) => Some(n),
            Err(_) => None,
        }
    }
}

/// The size of the region that holds a record of type `T` and `supplementary`
/// tail bytes.
pub open spec fn record_size<T>(supplementary: nat) -> int {
    VERSION_WORD_SIZE + size_of::<T>() + supplementary
}

/// What a peer's open of the region `full` yields, for a record that needs
/// `required` bytes and the version word `expected`.
pub open spec fn open_outcome<T>(
    regions: Seq<RegionView<T>>,
    full: Seq<u8>,
    required: int,
    expected: u64,
) -> Result<(), DynamicStorageOpenError> {
    if !contains_name(regions, full) {
        Err(DynamicStorageOpenError::DoesNotExist)
    } else {
        let region = regions[choose|i: int| is_region_named(regions, full, i)];
        if region.permission == Permission::OwnerWrite {
            Err(DynamicStorageOpenError::InitializationNotYetFinalized)
        } else if region.size < required {
            Err(DynamicStorageOpenError::InternalError)
        } else if region.version == 0 {
            Err(DynamicStorageOpenError::InitializationNotYetFinalized)
        } else if region.version != expected {
            Err(
                DynamicStorageOpenError::VersionMismatch {
                    found: PackageVersion { value: region.version },
                    expected: PackageVersion { value: expected },
                },
            )
        } else {
            Ok(())
        }
    }
}

/// A handle to a stored record.
#[derive(Debug)]
pub struct Storage {
    name: FileName,
    full_name: Vec<u8>,
    has_ownership: bool,
}

/// Builds a `Storage`: creates and initialises a new record, or opens one
/// that a peer created.
#[derive(Debug)]
pub struct Builder {
    pub storage_name: FileName,
    pub supplementary_size: usize,
    pub has_ownership: bool,
    pub config: Configuration,
    /// The version word this process writes and requires.
    pub version: PackageVersion,
}

impl Builder {
    /// The region name of the record this builder makes.
    pub open spec fn spec_full_name(&self) -> Seq<u8> {
        full_name_of(self.config.prefix@, self.storage_name@, self.config.suffix@)
    }

    pub fn new(storage_name: &FileName) -> (r: Builder)
        ensures
            r.storage_name@ == storage_name@,
            r.config.prefix@ == seq![105u8, 111u8, 120u8, 50u8, 95u8],
            r.config.suffix@ == seq![46u8, 100u8, 121u8, 110u8],
            r.config.path@ == seq![47u8, 116u8, 109u8, 112u8, 47u8],
            r.supplementary_size == 0,
            r.has_ownership,
            r.version.value == version_word(PACKAGE_VERSION_MAJOR, PACKAGE_VERSION_MINOR, PACKAGE_VERSION_PATCH),
            r.version.value != 0,
    {
        Builder {
            storage_name: storage_name.clone(),
            supplementary_size: 0,
            has_ownership: true,
            config: Configuration::default(),
            version: get_package_version(),
        }
    }

    pub fn config(self, config: &Configuration) -> (r: Builder)
        ensures
            r.config.prefix@ == config.prefix@,
            r.config.suffix@ == config.suffix@,
            r.config.path@ == config.path@,
            r.storage_name == self.storage_name,
            r.supplementary_size == self.supplementary_size,
            r.has_ownership == self.has_ownership,
            r.version == self.version,
    {
        Builder { config: config.clone(), ..self }
    }

    pub fn has_ownership(self, value: bool) -> (r: Builder)
        ensures
            r == (Builder { has_ownership: value, ..self }),
    {
        Builder { has_ownership: value, ..self }
    }

    pub fn supplementary_size(self, value: usize) -> (r: Builder)
        ensures
            r == (Builder { supplementary_size: value, ..self }),
    {
        Builder { supplementary_size: value, ..self }
    }

    /// Sets the version word this builder writes and requires.
    pub fn version(self, value: PackageVersion) -> (r: Builder)
        ensures
            r == (Builder { version: value, ..self }),
    {
        Builder { version: value, ..self }
    }

    fn required_size<T>(&self) -> (r: Option<usize>)
        ensures
            r is None <==> record_size::<T>(self.supplementary_size as nat) > usize::MAX,
            r matches Some(n) ==> n == record_size::<T>(self.supplementary_size as nat),
    {
        let payload = core::mem::size_of::<T>();
        if payload > usize::MAX - VERSION_WORD_SIZE {
            return None;
        }
        let record = VERSION_WORD_SIZE + payload;
        if self.supplementary_size > usize::MAX - record {
            return None;
        }
        Some(record + self.supplementary_size)
    }

    /// Creates the record: reserves a region that only its creator may use,
    /// hands `initial_value` and an allocator over the tail arena to
    /// `initializer`, places the payload it returns, writes the version word,
    /// and only then opens the region to peers. A zero version word is
    /// refused, as it marks an unfinished record. When the initializer gives
    /// no payload, or any step fails, the region is gone again.
    pub fn create_and_initialize<T, F: FnOnce(T, BumpAllocator) -> Option<T>>(
        self,
        provider: &mut SharedMemoryProvider<T>,
        initial_value: T,
        initializer: F,
    ) -> (r: Result<Storage, DynamicStorageCreateError>)
        requires
            old(provider).wf(),
            forall|v: T, a: BumpAllocator| initializer.requires((v, a)),
        ensures
            final(provider).wf(),
            final(provider).spec_limits() == old(provider).spec_limits(),
            r is Err ==> final(provider)@ == old(provider)@ || left_unopened(
                old(provider)@,
                final(provider)@,
                self.spec_full_name(),
            ),
            (self.version.value == 0 || record_size::<T>(self.supplementary_size as nat) > usize::MAX) ==> r
                == Err::<Storage, DynamicStorageCreateError>(DynamicStorageCreateError::InternalError)
                && final(provider)@ == old(provider)@,
            self.version.value != 0 && record_size::<T>(self.supplementary_size as nat) <= usize::MAX
                && contains_name(old(provider)@, self.spec_full_name()) ==> r == Err::<
                Storage,
                DynamicStorageCreateError,
            >(DynamicStorageCreateError::AlreadyExists) && final(provider)@ == old(provider)@,
            self.version.value != 0 && record_size::<T>(self.supplementary_size as nat) <= usize::MAX
                && !contains_name(old(provider)@, self.spec_full_name())
                && !old(provider).spec_limits().may_create ==> r == Err::<Storage, DynamicStorageCreateError>(
                DynamicStorageCreateError::InsufficientPermissions) && final(provider)@ == old(provider)@,
            self.version.value != 0 && record_size::<T>(self.supplementary_size as nat) <= usize::MAX
                && !contains_name(old(provider)@, self.spec_full_name()) && old(provider).spec_limits().may_create
                && old(provider)@.len() >= old(provider).spec_limits().max_regions ==> r == Err::<
                Storage,
                DynamicStorageCreateError,
            >(DynamicStorageCreateError::InternalError) && final(provider)@ == old(provider)@,
            self.version.value != 0 && record_size::<T>(self.supplementary_size as nat) <= usize::MAX
                && !contains_name(old(provider)@, self.spec_full_name()) && old(provider).spec_limits().may_create
                && old(provider)@.len() < old(provider).spec_limits().max_regions ==> exists|
                a: BumpAllocator,
                outcome: Option<T>,
            |
                {
                    &&& a.spec_start() == VERSION_WORD_SIZE + size_of::<T>()
                    &&& a.spec_capacity() == self.supplementary_size
                    &&& a.spec_used() == 0
                    &&& #[trigger] initializer.ensures((initial_value, a), outcome)
                    &&& outcome is None ==> r == Err::<Storage, DynamicStorageCreateError>(
                        DynamicStorageCreateError::InitializationFailed) && final(provider)@ == old(provider)@
                    &&& outcome matches Some(v) ==> {
                        &&& final(provider)@.len() == old(provider)@.len() + 1
                        &&& final(provider)@.drop_last() == old(provider)@
                        &&& final(provider)@.last().name == self.spec_full_name()
                        &&& final(provider)@.last().size == record_size::<T>(self.supplementary_size as nat)
                        &&& final(provider)@.last().version == self.version.value
                        &&& final(provider)@.last().data == Some(v)
                        &&& old(provider).spec_limits().may_change_permissions ==> r is Ok
                            && final(provider)@.last().permission == Permission::OwnerAll
                        &&& !old(provider).spec_limits().may_change_permissions ==> r == Err::<
                            Storage,
                            DynamicStorageCreateError,
                        >(DynamicStorageCreateError::InternalError) && final(provider)@.last().permission
                            == Permission::OwnerWrite
                    }
                },
            r matches Ok(s) ==> {
                &&& s.spec_name() == self.storage_name@
                &&& s.spec_full_name() == self.spec_full_name()
                &&& s.spec_has_ownership() == self.has_ownership
                &&& final(provider)@.len() == old(provider)@.len() + 1
                &&& final(provider)@.drop_last() == old(provider)@
                &&& final(provider)@.last().name == self.spec_full_name()
                &&& final(provider)@.last().size == record_size::<T>(self.supplementary_size as nat)
                &&& final(provider)@.last().permission == Permission::OwnerAll
                &&& final(provider)@.last().version == self.version.value
                &&& self.version.value != 0
                &&& final(provider)@.last().data is Some
            },
    {
        if self.version.is_unset() {
            return Err(DynamicStorageCreateError::InternalError);
        }
        let full_name = self.config.full_name(&self.storage_name);
        let size = match self.required_size::<T>() {
            Some(n) => n,
            None => return Err(DynamicStorageCreateError::InternalError),
        };
        match provider.create_exclusive(full_name.as_slice(), size, Permission::OwnerWrite) {
            Ok(()) => {},
            Err(SharedMemoryError::AlreadyExists) => return Err(DynamicStorageCreateError::AlreadyExists),
            Err(SharedMemoryError::InsufficientPermissions) => {
                return Err(DynamicStorageCreateError::InsufficientPermissions)
            },
            Err(_) => return Err(DynamicStorageCreateError::InternalError),
        }
        let ghost reserved = provider@;
        let index = provider.len() - 1;
        let record = size - self.supplementary_size;
        let allocator = BumpAllocator::new(record, self.supplementary_size);
        assert(reserved[index as int].name == full_name@);
        assert(is_region_named(reserved, full_name@, index as int));
        let outcome = initializer(initial_value, allocator);
        match outcome {
            None => {
                provider.remove(full_name.as_slice());
                proof {
                    let i = choose|i: int| #[trigger] is_region_named(reserved, full_name@, i) && provider@ == reserved.remove(i);
                    if i != index {
                        assert(reserved[i].name != reserved[index as int].name);
                    }
                    assert(provider@ =~= old(provider)@);
                }
                Err(DynamicStorageCreateError::InitializationFailed)
            },
            Some(value) => {
                provider.store(index, value);
                provider.write_version(index, self.version.value);
                let published = provider.set_permission(index, Permission::OwnerAll);
                proof {
                    assert(provider@.drop_last() =~= old(provider)@);
                }
                match published {
                    Ok(()) => Ok(Storage { name: self.storage_name, full_name, has_ownership: self.has_ownership }),
                    Err(_) => Err(DynamicStorageCreateError::InternalError),
                }
            },
        }
    }

    /// Opens a record that a peer created: refuses it while it does not
    /// exist, while its region is not open to peers, when it is smaller than
    /// the record needs, while its version word is still zero, and when its
    /// version differs.
    pub fn try_open<T>(&self, provider: &SharedMemoryProvider<T>) -> (r: Result<Storage, DynamicStorageOpenError>)
        requires
            provider.wf(),
        ensures
            ({
                let outcome = open_outcome(
                    provider@,
                    self.spec_full_name(),
                    record_size::<T>(self.supplementary_size as nat),
                    self.version.value,
                );
                &&& r is Ok <==> outcome is Ok
                &&& r matches Err(e) ==> outcome == Err::<(), DynamicStorageOpenError>(e)
            }),
            r matches Ok(s) ==> {
                &&& s.spec_name() == self.storage_name@
                &&& s.spec_full_name() == self.spec_full_name()
                &&& !s.spec_has_ownership()
            },
    {
        let full_name = self.config.full_name(&self.storage_name);
        let index = match provider.open(full_name.as_slice()) {
            Ok(i) => i,
            Err(SharedMemoryError::DoesNotExist) => return Err(DynamicStorageOpenError::DoesNotExist),
            Err(SharedMemoryError::InsufficientPermissions) => {
                proof {
                    crate::memory::lemma_named_region_is_chosen(provider@, full_name@);
                }
                return Err(DynamicStorageOpenError::InitializationNotYetFinalized)
            },
            Err(_) => {
                proof {
                    crate::memory::lemma_named_region_is_chosen(provider@, full_name@);
                }
                return Err(DynamicStorageOpenError::InternalError)
            },
        };
        proof {
            crate::memory::lemma_named_region_is_chosen(provider@, full_name@);
        }
        let actual = provider.size_of_region(index);
        match self.required_size::<T>() {
            None => return Err(DynamicStorageOpenError::InternalError),
            Some(required) => {
                if actual < required {
                    return Err(DynamicStorageOpenError::InternalError);
                }
            },
        }
        let version = PackageVersion::from_u64(provider.version_of_region(index));
        if version.is_unset() {
            return Err(DynamicStorageOpenError::InitializationNotYetFinalized);
        } else if version.value != self.version.value {
            return Err(DynamicStorageOpenError::VersionMismatch { found: version, expected: self.version });
        }
        Ok(Storage { name: self.storage_name.clone(), full_name, has_ownership: false })
    }

    /// Opens a record that a peer created; see `try_open`.
    pub fn open<T>(&self, provider: &SharedMemoryProvider<T>) -> (r: Result<Storage, DynamicStorageOpenError>)
        requires
            provider.wf(),
        ensures
            ({
                let outcome = open_outcome(
                    provider@,
                    self.spec_full_name(),
                    record_size::<T>(self.supplementary_size as nat),
                    self.version.value,
                );
                &&& r is Ok <==> outcome is Ok
                &&& r matches Err(e) ==> outcome == Err::<(), DynamicStorageOpenError>(e)
            }),
            r matches Ok(s) ==> {
                &&& s.spec_name() == self.storage_name@
                &&& s.spec_full_name() == self.spec_full_name()
                &&& !s.spec_has_ownership()
            },
    {
        self.try_open(provider)
    }
}

/// A creation that failed at its last step: the record is in place,
/// initialised and stamped with its version, but not open to peers.
pub open spec fn left_unopened<T>(before: Seq<RegionView<T>>, after: Seq<RegionView<T>>, full: Seq<u8>) -> bool {
    &&& after.len() == before.len() + 1
    &&& after.drop_last() == before
    &&& after.last().name == full
    &&& after.last().permission == Permission::OwnerWrite
    &&& after.last().version != 0
    &&& after.last().data is Some
}

/// A record as creation leaves it (open to peers, version word set, large
/// enough) opens for a peer that requires that version.
pub proof fn lemma_created_record_opens<T>(regions: Seq<RegionView<T>>, full: Seq<u8>, required: int, version: u64)
    requires
        crate::memory::names_unique(regions),
        regions.len() > 0,
        regions.last().name == full,
        regions.last().permission == Permission::OwnerAll,
        regions.last().version == version,
        version != 0,
        regions.last().size >= required,
    ensures
        open_outcome(regions, full, required, version) is Ok,
{
    let last = regions.len() - 1;
    assert(is_region_named(regions, full, last));
    crate::memory::lemma_named_region_is_chosen(regions, full);
}

/// A record that a peer could open is finalised: its region is open to
/// peers, its version word is set, and it is the version the peer requires.
pub proof fn lemma_opened_record_is_finalized<T>(
    regions: Seq<RegionView<T>>,
    full: Seq<u8>,
    required: int,
    expected: u64,
)
    requires
        open_outcome(regions, full, required, expected) is Ok,
    ensures
        exists|i: int| #[trigger] is_region_named(regions, full, i) && {
            &&& regions[i].permission == Permission::OwnerAll
            &&& regions[i].version != 0
            &&& regions[i].version == expected
            &&& regions[i].size >= required
        },
{
    let i = choose|i: int| is_region_named(regions, full, i);
    assert(is_region_named(regions, full, i));
}

impl Storage {
    pub closed spec fn spec_name(&self) -> Seq<u8> {
        self.name@
    }

    pub closed spec fn spec_full_name(&self) -> Seq<u8> {
        self.full_name@
    }

    pub closed spec fn spec_has_ownership(&self) -> bool {
        self.has_ownership
    }

    pub fn name(&self) -> (r: &FileName)
        ensures
            r@ == self.spec_name(),
    {
        &self.name
    }

    /// The payload of the record; nothing while the record does not exist,
    /// has no payload, or its version word is still zero.
    pub fn get<'a, T>(&self, provider: &'a SharedMemoryProvider<T>) -> (r: Option<&'a T>)
        requires
            provider.wf(),
        ensures
            !contains_name(provider@, self.spec_full_name()) ==> r is None,
            forall|i: int| #[trigger] is_region_named(provider@, self.spec_full_name(), i) ==> (r is Some
                == (provider@[i].data is Some && provider@[i].version != 0)) && (r matches Some(d)
                ==> provider@[i].data == Some(*d)),
    {
        match provider.find(self.full_name.as_slice()) {
            None => None,
            Some(i) => {
                proof {
                    crate::memory::lemma_named_region_is_chosen(provider@, self.full_name@);
                }
                if provider.version_of_region(i) == 0 {
                    None
                } else {
                    provider.data_of_region(i)
                }
            },
        }
    }

    pub fn has_ownership(&self) -> (r: bool)
        ensures
            r == self.spec_has_ownership(),
    {
        self.has_ownership
    }

    pub fn acquire_ownership(&mut self)
        ensures
            final(self).spec_has_ownership(),
            final(self).spec_name() == old(self).spec_name(),
            final(self).spec_full_name() == old(self).spec_full_name(),
    {
        self.has_ownership = true;
    }

    pub fn release_ownership(&mut self)
        ensures
            !final(self).spec_has_ownership(),
            final(self).spec_name() == old(self).spec_name(),
            final(self).spec_full_name() == old(self).spec_full_name(),
    {
        self.has_ownership = false;
    }

    /// Regions outlive the processes that use them.
    pub fn does_support_persistency() -> (r: bool)
        ensures
            r,
    {
        true
    }

    /// Drops the handle; an owning handle removes the record's region.
    pub fn close<T>(self, provider: &mut SharedMemoryProvider<T>) -> (r: bool)
        requires
            old(provider).wf(),
        ensures
            final(provider).wf(),
            r == (self.spec_has_ownership() && contains_name(old(provider)@, self.spec_full_name())),
            !self.spec_has_ownership() ==> final(provider)@ == old(provider)@,
            self.spec_has_ownership() ==> !contains_name(final(provider)@, self.spec_full_name()),
    {
        if self.has_ownership {
            provider.remove(self.full_name.as_slice())
        } else {
            false
        }
    }

    /// Whether a record named `name` exists under `config`.
    pub fn does_exist_cfg<T>(name: &FileName, config: &Configuration, provider: &SharedMemoryProvider<T>) -> (r: bool)
        ensures
            r == contains_name(provider@, full_name_of(config.prefix@, name@, config.suffix@)),
    {
        let full_name = config.full_name(name);
        provider.does_exist(full_name.as_slice())
    }

    /// The names of all records under `config`, in region order.
    pub fn list_cfg<T>(config: &Configuration, provider: &SharedMemoryProvider<T>) -> (r: Vec<FileName>)
        ensures
            r@.len() == names_in_files(
                config.prefix@,
                config.suffix@,
                provider@.map_values(|region: RegionView<T>| region.name),
            ).len(),
            forall|i: int| 0 <= i < r@.len() ==> (#[trigger] r@[i])@ == names_in_files(
                config.prefix@,
                config.suffix@,
                provider@.map_values(|region: RegionView<T>| region.name),
            )[i],
    {
        let entries = provider.list();
        let ghost files = provider@.map_values(|region: RegionView<T>| region.name);
        let mut r: Vec<FileName> = Vec::new();
        let mut i: usize = 0;
        while i < entries.len()
            invariant
                i <= entries@.len(),
                entries@.len() == files.len(),
                forall|j: int| 0 <= j < entries@.len() ==> (#[trigger] entries@[j])@ == files[j],
                r@.len() == names_in_files(config.prefix@, config.suffix@, files.subrange(0, i as int)).len(),
                forall|j: int| 0 <= j < r@.len() ==> (#[trigger] r@[j])@ == names_in_files(
                    config.prefix@,
                    config.suffix@,
                    files.subrange(0, i as int),
                )[j],
            decreases entries@.len() - i,
        {
            let ghost before = names_in_files(config.prefix@, config.suffix@, files.subrange(0, i as int));
            proof {
                assert(files.subrange(0, i + 1).drop_last() =~= files.subrange(0, i as int));
                assert(files.subrange(0, i + 1).last() == entries@[i as int]@);
            }
            match config.extract_name_from_file(entries[i].as_slice()) {
                Some(n) => {
                    r.push(n);
                },
                None => {},
            }
            i = i + 1;
        }
        proof {
            assert(files.subrange(0, files.len() as int) =~= files);
        }
        r
    }

    /// Removes the record named `name` under `config`. Returns whether there
    /// was one.
    pub fn remove_cfg<T>(name: &FileName, config: &Configuration, provider: &mut SharedMemoryProvider<T>) -> (r: bool)
        requires
            old(provider).wf(),
        ensures
            final(provider).wf(),
            r == contains_name(old(provider)@, full_name_of(config.prefix@, name@, config.suffix@)),
            !contains_name(final(provider)@, full_name_of(config.prefix@, name@, config.suffix@)),
            !r ==> final(provider)@ == old(provider)@,
    {
        let full_name = config.full_name(name);
        provider.remove(full_name.as_slice())
    }
}

} // verus!
