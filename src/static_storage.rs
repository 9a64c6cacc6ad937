//! Static storage: write-once descriptors. The creator reserves the
//! descriptor so that only it may write, writes the content followed by its
//! hash, and then opens it to readers. Readers refuse a descriptor that is
//! not open to them yet, or whose hash does not match its content.

use crate::descriptor::{le_bytes, word_at};
use crate::memory::{contains_name, is_region_named, Permission, SharedMemoryError, SharedMemoryProvider};
use vstd::prelude::*;

verus! {

pub const FNV_OFFSET_BASIS: u64 = 0xcbf29ce484222325;

pub const FNV_PRIME: u64 = 0x100000001b3;

/// The 64-bit FNV-1a hash of `s`.
pub open spec fn content_hash(s: Seq<u8>) -> u64
    decreases s.len(),
{
    if s.len() == 0 {
        FNV_OFFSET_BASIS
    } else {
        let h = content_hash(s.drop_last()) ^ (s.last() as u64);
        ((h as nat * FNV_PRIME as nat) % 0x1_0000_0000_0000_0000nat) as u64
    }
}

/// A descriptor file: the content followed by the bytes of its hash.
pub open spec fn sealed(content: Seq<u8>) -> Seq<u8> {
    content + le_bytes(content_hash(content))
}

/// The content of a descriptor file whose hash matches it.
pub open spec fn unsealed(file: Seq<u8>) -> Option<Seq<u8>> {
    if file.len() >= 8 && word_at(file, file.len() - 8) == content_hash(file.subrange(0, file.len() - 8)) {
        Some(file.subrange(0, file.len() - 8))
    } else {
        None
    }
}

#[derive(PartialEq, Eq, Structural, Clone, Copy, Debug)]
pub enum StaticStorageReadError {
    DoesNotExist,
    /// The descriptor is not open to readers yet, has no content yet, or its
    /// hash does not match its content.
    NotYetFinalized,
}

/// What a reader of the descriptor `name` gets.
pub open spec fn read_outcome(regions: Seq<crate::memory::RegionView<Vec<u8>>>, name: Seq<u8>) -> Result<Seq<u8>, StaticStorageReadError> {
    if !contains_name(regions, name) {
        Err(StaticStorageReadError::DoesNotExist)
    } else {
        let region = regions[choose|i: int| is_region_named(regions, name, i)];
        if region.permission == Permission::OwnerWrite {
            Err(StaticStorageReadError::NotYetFinalized)
        } else {
            match region.data {
                None => Err(StaticStorageReadError::NotYetFinalized),
                Some(file) => match unsealed(file@) {
                    None => Err(StaticStorageReadError::NotYetFinalized),
                    Some(content) => Ok(content),
                },
            }
        }
    }
}

/// The 64-bit FNV-1a hash of `bytes`.
pub fn hash_content(bytes: &[u8]) -> (r: u64)
    ensures
        r == content_hash(bytes@),
{
    let mut h: u64 = FNV_OFFSET_BASIS;
    let mut i: usize = 0;
    while i < bytes.len()
        invariant
            i <= bytes@.len(),
            h == content_hash(bytes@.subrange(0, i as int)),
        decreases bytes@.len() - i,
    {
        assert(bytes@.subrange(0, i + 1).drop_last() =~= bytes@.subrange(0, i as int));
        h = (h ^ (bytes[i] as u64)).wrapping_mul(FNV_PRIME);
        i = i + 1;
    }
    assert(bytes@.subrange(0, bytes@.len() as int) =~= bytes@);
    h
}

/// The descriptor file for `content`.
pub fn seal(content: &[u8]) -> (r: Vec<u8>)
    ensures
        r@ == sealed(content@),
{
    let h = hash_content(content);
    let mut r = crate::names::bytes_to_vec(content);
    let bytes = crate::descriptor::word_bytes(h);
    crate::names::append_bytes(&mut r, bytes.as_slice());
    r
}

/// The content of a descriptor file, if its hash matches.
pub fn unseal(file: &[u8]) -> (r: Option<Vec<u8>>)
    ensures
        r is None <==> unsealed(file@) is None,
        r matches Some(c) ==> unsealed(file@) == Some(c@),
{
    if file.len() < 8 {
        return None;
    }
    let end = file.len() - 8;
    let content = crate::names::sub_bytes(file, 0, end);
    let stored = crate::descriptor::read_word_at(file, end);
    if stored != hash_content(content.as_slice()) {
        return None;
    }
    Some(content)
}

/// A sealed file unseals to its content.
pub proof fn lemma_seal_round_trip(content: Seq<u8>)
    ensures
        unsealed(sealed(content)) == Some(content),
{
    let f = sealed(content);
    crate::descriptor::lemma_le_round_trip(content_hash(content));
    assert(f.subrange(0, f.len() - 8) =~= content);
    assert(f.subrange(f.len() - 8, f.len() as int) =~= le_bytes(content_hash(content)));
}

/// Reserves the descriptor `name`: only its creator may use it, and it has
/// no content yet. Returns the index of its region.
pub fn reserve(name: &[u8], provider: &mut SharedMemoryProvider<Vec<u8>>) -> (r: Result<usize, SharedMemoryError>)
    requires
        old(provider).wf(),
    ensures
        final(provider).wf(),
        final(provider).spec_limits() == old(provider).spec_limits(),
        r is Err ==> final(provider)@ == old(provider)@,
        contains_name(old(provider)@, name@) ==> r == Err::<usize, SharedMemoryError>(SharedMemoryError::AlreadyExists),
        !contains_name(old(provider)@, name@) && !old(provider).spec_limits().may_create ==> r == Err::<
            usize,
            SharedMemoryError,
        >(SharedMemoryError::InsufficientPermissions),
        !contains_name(old(provider)@, name@) && old(provider).spec_limits().may_create && old(provider)@.len()
            >= old(provider).spec_limits().max_regions ==> r == Err::<usize, SharedMemoryError>(
            SharedMemoryError::OutOfResources),
        !contains_name(old(provider)@, name@) && old(provider).spec_limits().may_create && old(provider)@.len()
            < old(provider).spec_limits().max_regions ==> r == Ok::<usize, SharedMemoryError>(
            old(provider)@.len() as usize,
        ) && final(provider)@ == old(provider)@.push(
            crate::memory::RegionView { name: name@, size: 0, permission: Permission::OwnerWrite, version: 0, data: None },
        ),
{
    let before = provider.len();
    match provider.create_exclusive(name, 0, Permission::OwnerWrite) {
        Ok(()) => Ok(before),
        Err(e) => Err(e),
    }
}

/// Writes the content of the reserved descriptor at `index` and opens it to
/// readers. When the descriptor cannot be opened to readers its content is
/// written but it stays unreadable.
pub fn publish(index: usize, content: &[u8], provider: &mut SharedMemoryProvider<Vec<u8>>) -> (r: Result<(), SharedMemoryError>)
    requires
        old(provider).wf(),
        index < old(provider)@.len(),
    ensures
        final(provider).wf(),
        final(provider).spec_limits() == old(provider).spec_limits(),
        r is Ok == old(provider).spec_limits().may_change_permissions,
        final(provider)@.len() == old(provider)@.len(),
        forall|j: int| 0 <= j < old(provider)@.len() && j != index ==> final(provider)@[j] == old(provider)@[j],
        final(provider)@[index as int].name == old(provider)@[index as int].name,
        r is Ok ==> final(provider)@[index as int].permission == Permission::OwnerAll,
        r is Err ==> final(provider)@[index as int].permission == old(provider)@[index as int].permission,
        final(provider)@[index as int].data matches Some(file) && file@ == sealed(content@),
{
    let file = seal(content);
    provider.store(index, file);
    provider.set_permission(index, Permission::OwnerAll)
}

/// Reads the content of the descriptor `name`.
pub fn read(name: &[u8], provider: &SharedMemoryProvider<Vec<u8>>) -> (r: Result<Vec<u8>, StaticStorageReadError>)
    requires
        provider.wf(),
    ensures
        r is Ok <==> read_outcome(provider@, name@) is Ok,
        r matches Ok(c) ==> read_outcome(provider@, name@) == Ok::<Seq<u8>, StaticStorageReadError>(c@),
        r matches Err(e) ==> read_outcome(provider@, name@) == Err::<Seq<u8>, StaticStorageReadError>(e),
{
    let index = match provider.open(name) {
        Ok(i) => i,
        Err(SharedMemoryError::DoesNotExist) => return Err(StaticStorageReadError::DoesNotExist),
        Err(_) => {
            proof {
                crate::memory::lemma_named_region_is_chosen(provider@, name@);
            }
            return Err(StaticStorageReadError::NotYetFinalized)
        },
    };
    proof {
        crate::memory::lemma_named_region_is_chosen(provider@, name@);
    }
    match provider.data_of_region(index) {
        None => Err(StaticStorageReadError::NotYetFinalized),
        Some(file) => match unseal(file.as_slice()) {
            None => Err(StaticStorageReadError::NotYetFinalized),
            Some(content) => Ok(content),
        },
    }
}

/// A descriptor that a reader could read is open to readers and intact: its
/// file is the content followed by the content's hash.
pub proof fn lemma_read_descriptor_is_intact(regions: Seq<crate::memory::RegionView<Vec<u8>>>, name: Seq<u8>, content: Seq<u8>)
    requires
        read_outcome(regions, name) == Ok::<Seq<u8>, StaticStorageReadError>(content),
    ensures
        exists|i: int| #[trigger] is_region_named(regions, name, i) && {
            &&& regions[i].permission == Permission::OwnerAll
            &&& regions[i].data matches Some(file) && file@.len() == content.len() + 8
                && file@.subrange(0, content.len() as int) == content
                && word_at(file@, content.len() as int) == content_hash(content)
        },
{
    let i = choose|i: int| is_region_named(regions, name, i);
    assert(is_region_named(regions, name, i));
}

} // verus!
