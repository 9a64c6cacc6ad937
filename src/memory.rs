//! The memory provider: named, fixed-size shared regions with permissions,
//! each holding a version word, a typed payload and a tail arena.

use crate::names::{bytes_equal, bytes_to_vec};
use vstd::prelude::*;

verus! {

/// Who may open a region.
#[derive(PartialEq, Eq, Structural, Clone, Copy, Debug)]
pub enum Permission {
    /// Only the creator may write; peers cannot open the region yet.
    OwnerWrite,
    /// The region is open to peers.
    OwnerAll,
}

/// Why a region operation failed.
#[derive(PartialEq, Eq, Structural, Clone, Copy, Debug)]
pub enum SharedMemoryError {
    AlreadyExists,
    DoesNotExist,
    InsufficientPermissions,
    /// The host has no room for another region.
    OutOfResources,
}

/// What the host allows this process.
#[derive(PartialEq, Eq, Structural, Clone, Copy, Debug)]
pub struct HostLimits {
    /// Whether the process may create regions at all.
    pub may_create: bool,
    /// The most regions the host holds at once.
    pub max_regions: usize,
    /// Whether the process may change a region's permission.
    pub may_change_permissions: bool,
}

/// One region, as the contracts see it.
pub struct RegionView<T> {
    pub name: Seq<u8>,
    pub size: nat,
    pub permission: Permission,
    pub version: u64,
    pub data: Option<T>,
}

/// Whether region `i` is the one named `name`.
pub open spec fn is_region_named<T>(s: Seq<RegionView<T>>, name: Seq<u8>, i: int) -> bool {
    0 <= i < s.len() && s[i].name == name
}

/// Whether some region has the name `name`.
pub open spec fn contains_name<T>(s: Seq<RegionView<T>>, name: Seq<u8>) -> bool {
    exists|i: int| #[trigger] is_region_named(s, name, i)
}

/// Whether no two regions share a name.
pub open spec fn names_unique<T>(s: Seq<RegionView<T>>) -> bool {
    forall|i: int, j: int| 0 <= i < s.len() && 0 <= j < s.len() && i != j ==> (#[trigger] s[i]).name != (#[trigger] s[j]).name
}

struct Region<T> {
    name: Vec<u8>,
    size: usize,
    permission: Permission,
    version: u64,
    data: Option<T>,
}

impl<T> Region<T> {
    spec fn view(&self) -> RegionView<T> {
        RegionView {
            name: self.name@,
            size: self.size as nat,
            permission: self.permission,
            version: self.version,
            data: self.data,
        }
    }
}

/// The table of regions of one host.
pub struct SharedMemoryProvider<T> {
    regions: Vec<Region<T>>,
    limits: HostLimits,
}

impl<T> View for SharedMemoryProvider<T> {
    type V = Seq<RegionView<T>>;

    closed spec fn view(&self) -> Seq<RegionView<T>> {
        Seq::new(self.regions@.len(), |i: int| self.regions@[i].view())
    }
}

impl<T> SharedMemoryProvider<T> {
    /// The provider's invariant: region names are unique.
    pub open spec fn wf(&self) -> bool {
        names_unique(self@)
    }

    /// What the host allows this process.
    pub closed spec fn spec_limits(&self) -> HostLimits {
        self.limits
    }

    /// An empty table on a host that allows everything.
    pub fn new() -> (r: SharedMemoryProvider<T>)
        ensures
            r.wf(),
            r@ == Seq::<RegionView<T>>::empty(),
            r.spec_limits() == (HostLimits { may_create: true, max_regions: usize::MAX, may_change_permissions: true }),
    {
        Self::with_limits(HostLimits { may_create: true, max_regions: usize::MAX, may_change_permissions: true })
    }

    /// An empty table on a host with the given limits.
    pub fn with_limits(limits: HostLimits) -> (r: SharedMemoryProvider<T>)
        ensures
            r.wf(),
            r@ == Seq::<RegionView<T>>::empty(),
            r.spec_limits() == limits,
    {
        let r = SharedMemoryProvider { regions: Vec::new(), limits };
        assert(r@ =~= Seq::<RegionView<T>>::empty());
        r
    }

    pub fn limits(&self) -> (r: HostLimits)
        ensures
            r == self.spec_limits(),
    {
        self.limits
    }

    pub fn len(&self) -> (r: usize)
        ensures
            r == self@.len(),
    {
        self.regions.len()
    }

    /// The index of the region named `name`.
    pub fn find(&self, name: &[u8]) -> (r: Option<usize>)
        ensures
            r is None <==> !contains_name(self@, name@),
            r matches Some(i) ==> is_region_named(self@, name@, i as int),
    {
        let mut i: usize = 0;
        while i < self.regions.len()
            invariant
                i <= self@.len(),
                self@.len() == self.regions@.len(),
                forall|j: int| 0 <= j < i ==> (#[trigger] self@[j]).name != name@,
            decreases self@.len() - i,
        {
            if bytes_equal(self.regions[i].name.as_slice(), name) {
                assert(is_region_named(self@, name@, i as int));
                return Some(i);
            }
            i = i + 1;
        }
        None
    }

    pub fn does_exist(&self, name: &[u8]) -> (r: bool)
        ensures
            r == contains_name(self@, name@),
    {
        self.find(name).is_some()
    }

    /// Creates a region of `size` bytes named `name`, with a zero version word
    /// and no payload. Fails when the name is taken, when the process may not
    /// create regions, and when the host holds as many as it can.
    pub fn create_exclusive(&mut self, name: &[u8], size: usize, permission: Permission) -> (r: Result<(), SharedMemoryError>)
        requires
            old(self).wf(),
        ensures
            final(self).wf(),
            final(self).spec_limits() == old(self).spec_limits(),
            r is Err ==> final(self)@ == old(self)@,
            contains_name(old(self)@, name@) ==> r == Err::<(), SharedMemoryError>(SharedMemoryError::AlreadyExists),
            !contains_name(old(self)@, name@) && !old(self).spec_limits().may_create ==> r == Err::<
                (),
                SharedMemoryError,
            >(SharedMemoryError::InsufficientPermissions),
            !contains_name(old(self)@, name@) && old(self).spec_limits().may_create && old(self)@.len()
                >= old(self).spec_limits().max_regions ==> r == Err::<(), SharedMemoryError>(
                SharedMemoryError::OutOfResources),
            !contains_name(old(self)@, name@) && old(self).spec_limits().may_create && old(self)@.len()
                < old(self).spec_limits().max_regions ==> r is Ok && final(self)@ == old(self)@.push(
                RegionView { name: name@, size: size as nat, permission, version: 0, data: None },
            ),
    {
        if self.find(name).is_some() {
            return Err(SharedMemoryError::AlreadyExists);
        }
        if !self.limits.may_create {
            return Err(SharedMemoryError::InsufficientPermissions);
        }
        if self.regions.len() >= self.limits.max_regions {
            return Err(SharedMemoryError::OutOfResources);
        }
        let ghost old_view = self@;
        self.regions.push(Region { name: bytes_to_vec(name), size, permission, version: 0, data: None });
        proof {
            let new_region = RegionView { name: name@, size: size as nat, permission, version: 0, data: None };
            assert(self@ =~= old_view.push(new_region));
            assert forall|i: int, j: int| 0 <= i < self@.len() && 0 <= j < self@.len() && i != j implies (#[trigger] self@[i]).name
                != (#[trigger] self@[j]).name by {
                if i < old_view.len() && j < old_view.len() {
                    assert(self@[i] == old_view[i]);
                    assert(self@[j] == old_view[j]);
                } else if i < old_view.len() {
                    assert(self@[i] == old_view[i]);
                    assert(!is_region_named(old_view, name@, i));
                } else {
                    assert(self@[j] == old_view[j]);
                    assert(!is_region_named(old_view, name@, j));
                }
            }
        }
        Ok(())
    }

    /// Opens the region named `name` for a peer: it must exist and be open to
    /// peers. Returns its index.
    pub fn open(&self, name: &[u8]) -> (r: Result<usize, SharedMemoryError>)
        requires
            self.wf(),
        ensures
            !contains_name(self@, name@) ==> r == Err::<usize, SharedMemoryError>(SharedMemoryError::DoesNotExist),
            r matches Ok(i) ==> is_region_named(self@, name@, i as int) && self@[i as int].permission
                == Permission::OwnerAll,
            r matches Err(e) ==> e != SharedMemoryError::AlreadyExists,
            forall|i: int| #[trigger] is_region_named(self@, name@, i) ==> {
                &&& self@[i].permission == Permission::OwnerWrite ==> r == Err::<usize, SharedMemoryError>(
                    SharedMemoryError::InsufficientPermissions)
                &&& self@[i].permission == Permission::OwnerAll ==> r == Ok::<usize, SharedMemoryError>(i as usize)
            },
    {
        match self.find(name) {
            None => Err(SharedMemoryError::DoesNotExist),
            Some(i) => {
                proof {
                    assert forall|j: int| #[trigger] is_region_named(self@, name@, j) implies j == i by {
                        if j != i {
                            assert(self@[j].name != self@[i as int].name);
                        }
                    }
                }
                assert(self@[i as int] == self.regions@[i as int].view());
                if self.regions[i].permission == Permission::OwnerWrite {
                    Err(SharedMemoryError::InsufficientPermissions)
                } else {
                    Ok(i)
                }
            },
        }
    }

    pub fn size_of_region(&self, i: usize) -> (r: usize)
        requires
            i < self@.len(),
        ensures
            r == self@[i as int].size,
    {
        self.regions[i].size
    }

    pub fn version_of_region(&self, i: usize) -> (r: u64)
        requires
            i < self@.len(),
        ensures
            r == self@[i as int].version,
    {
        self.regions[i].version
    }

    pub fn data_of_region(&self, i: usize) -> (r: Option<&T>)
        requires
            i < self@.len(),
        ensures
            r is Some == self@[i as int].data is Some,
            r matches Some(d) ==> self@[i as int].data == Some(*d),
    {
        match &self.regions[i].data {
            Some(d) => Some(d),
            None => None,
        }
    }

    /// The payload of the region named `name`, if it exists and has one.
    pub fn get(&self, name: &[u8]) -> (r: Option<&T>)
        requires
            self.wf(),
        ensures
            !contains_name(self@, name@) ==> r is None,
            forall|i: int| #[trigger] is_region_named(self@, name@, i) ==> (
                r is Some == self@[i].data is Some) && (r matches Some(d) ==> self@[i].data == Some(*d)),
    {
        match self.find(name) {
            None => None,
            Some(i) => {
                proof {
                    assert forall|j: int| #[trigger] is_region_named(self@, name@, j) implies j == i by {
                        if j != i {
                            assert(self@[j].name != self@[i as int].name);
                        }
                    }
                }
                self.data_of_region(i)
            },
        }
    }

    proof fn lemma_same_names_keep_unique(old_view: Seq<RegionView<T>>, new_view: Seq<RegionView<T>>)
        requires
            names_unique(old_view),
            old_view.len() == new_view.len(),
            forall|a: int| 0 <= a < old_view.len() ==> (#[trigger] new_view[a]).name == old_view[a].name,
        ensures
            names_unique(new_view),
    {
        assert forall|a: int, b: int| 0 <= a < new_view.len() && 0 <= b < new_view.len() && a != b implies (#[trigger] new_view[a]).name
            != (#[trigger] new_view[b]).name by {
            assert(new_view[a].name == old_view[a].name);
            assert(new_view[b].name == old_view[b].name);
        }
    }

    /// Sets the permission of region `i`; fails, changing nothing, when the
    /// process may not change permissions.
    pub fn set_permission(&mut self, i: usize, permission: Permission) -> (r: Result<(), SharedMemoryError>)
        requires
            old(self).wf(),
            i < old(self)@.len(),
        ensures
            final(self).wf(),
            final(self).spec_limits() == old(self).spec_limits(),
            r is Ok == old(self).spec_limits().may_change_permissions,
            r is Err ==> r == Err::<(), SharedMemoryError>(SharedMemoryError::InsufficientPermissions)
                && final(self)@ == old(self)@,
            r is Ok ==> final(self)@ == old(self)@.update(i as int, RegionView { permission, ..old(self)@[i as int] }),
    {
        if !self.limits.may_change_permissions {
            return Err(SharedMemoryError::InsufficientPermissions);
        }
        let ghost old_view = self@;
        self.regions[i].permission = permission;
        proof {
            assert(self@ =~= old_view.update(i as int, RegionView { permission, ..old_view[i as int] }));
            Self::lemma_same_names_keep_unique(old_view, self@);
        }
        Ok(())
    }

    /// Writes the version word of region `i`.
    pub fn write_version(&mut self, i: usize, version: u64)
        requires
            old(self).wf(),
            i < old(self)@.len(),
        ensures
            final(self).wf(),
            final(self).spec_limits() == old(self).spec_limits(),
            final(self)@ == old(self)@.update(i as int, RegionView { version, ..old(self)@[i as int] }),
    {
        let ghost old_view = self@;
        self.regions[i].version = version;
        proof {
            assert(self@ =~= old_view.update(i as int, RegionView { version, ..old_view[i as int] }));
            Self::lemma_same_names_keep_unique(old_view, self@);
        }
    }

    /// Places the payload of region `i`.
    pub fn store(&mut self, i: usize, data: T)
        requires
            old(self).wf(),
            i < old(self)@.len(),
        ensures
            final(self).wf(),
            final(self).spec_limits() == old(self).spec_limits(),
            final(self)@ == old(self)@.update(i as int, RegionView { data: Some(data), ..old(self)@[i as int] }),
    {
        let ghost old_view = self@;
        self.regions[i].data = Some(data);
        proof {
            assert(self@ =~= old_view.update(i as int, RegionView { data: Some(data), ..old_view[i as int] }));
            Self::lemma_same_names_keep_unique(old_view, self@);
        }
    }

    /// Removes the region named `name`. Returns whether there was one.
    pub fn remove(&mut self, name: &[u8]) -> (r: bool)
        requires
            old(self).wf(),
        ensures
            final(self).wf(),
            final(self).spec_limits() == old(self).spec_limits(),
            r == contains_name(old(self)@, name@),
            !r ==> final(self)@ == old(self)@,
            r ==> exists|i: int| #[trigger] is_region_named(old(self)@, name@, i) && final(self)@ == old(self)@.remove(i),
            !contains_name(final(self)@, name@),
    {
        match self.find(name) {
            None => false,
            Some(i) => {
                let ghost old_view = self@;
                let _ = self.regions.remove(i);
                proof {
                    assert(self@ =~= old_view.remove(i as int));
                    assert(is_region_named(old_view, name@, i as int));
                    assert forall|a: int, b: int| 0 <= a < self@.len() && 0 <= b < self@.len() && a != b implies (#[trigger] self@[a]).name
                        != (#[trigger] self@[b]).name by {
                        let oa = if a < i { a } else { a + 1 };
                        let ob = if b < i { b } else { b + 1 };
                        assert(self@[a] == old_view[oa]);
                        assert(self@[b] == old_view[ob]);
                    }
                    assert forall|a: int| 0 <= a < self@.len() implies (#[trigger] self@[a]).name != name@ by {
                        let oa = if a < i { a } else { a + 1 };
                        assert(self@[a] == old_view[oa]);
                        assert(old_view[oa].name != old_view[i as int].name);
                    }
                }
                true
            },
        }
    }

    /// The names of all regions, in table order.
    pub fn list(&self) -> (r: Vec<Vec<u8>>)
        ensures
            r@.len() == self@.len(),
            forall|i: int| 0 <= i < r@.len() ==> (#[trigger] r@[i])@ == self@[i].name,
    {
        let mut r: Vec<Vec<u8>> = Vec::new();
        let mut i: usize = 0;
        while i < self.regions.len()
            invariant
                i <= self@.len(),
                self@.len() == self.regions@.len(),
                r@.len() == i,
                forall|j: int| 0 <= j < i ==> (#[trigger] r@[j])@ == self@[j].name,
            decreases self@.len() - i,
        {
            r.push(bytes_to_vec(self.regions[i].name.as_slice()));
            assert(self@[i as int].name == self.regions@[i as int].name@);
            i = i + 1;
        }
        r
    }
}

/// Where names are unique, the region named `name` is the one that
/// `choose` picks.
pub proof fn lemma_named_region_is_chosen<T>(regions: Seq<RegionView<T>>, name: Seq<u8>)
    requires
        names_unique(regions),
    ensures
        forall|i: int| #[trigger] is_region_named(regions, name, i) ==> i == choose|j: int| is_region_named(regions, name, j),
{
    assert forall|i: int| #[trigger] is_region_named(regions, name, i) implies i == choose|j: int| is_region_named(regions, name, j) by {
        let c = choose|j: int| is_region_named(regions, name, j);
        assert(is_region_named(regions, name, c));
        if i != c {
            assert(regions[i].name != regions[c].name);
        }
    }
}

} // verus!
