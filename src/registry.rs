//! The node registry: liveness tokens of nodes, the service tags that tie
//! nodes to services, and the participant counts of services. A node whose
//! liveness token can be locked by another process is dead; the cleanup
//! removes its token and tags and the services that nothing uses any more.

use vstd::prelude::*;

verus! {

/// A tag saying that a node takes part in a service.
#[derive(PartialEq, Eq, Structural, Clone, Copy, Debug)]
pub struct ServiceTag {
    pub node_id: u64,
    pub service_id: u64,
}

/// The participant counts of a service.
#[derive(PartialEq, Eq, Structural, Clone, Copy, Debug)]
pub struct ServiceEntry {
    pub service_id: u64,
    pub node_count: usize,
    pub port_count: usize,
}

/// The registry, as the contracts see it.
pub struct RegistryView {
    pub tokens: Seq<u64>,
    pub tags: Seq<ServiceTag>,
    pub services: Seq<ServiceEntry>,
}

/// The tokens other than `node_id`, in order.
pub open spec fn tokens_without(s: Seq<u64>, node_id: u64) -> Seq<u64>
    decreases s.len(),
{
    if s.len() == 0 {
        s
    } else {
        let rest = tokens_without(s.drop_last(), node_id);
        if s.last() != node_id {
            rest.push(s.last())
        } else {
            rest
        }
    }
}

/// The tags of nodes other than `node_id`, in order.
pub open spec fn tags_without(s: Seq<ServiceTag>, node_id: u64) -> Seq<ServiceTag>
    decreases s.len(),
{
    if s.len() == 0 {
        s
    } else {
        let rest = tags_without(s.drop_last(), node_id);
        if s.last().node_id != node_id {
            rest.push(s.last())
        } else {
            rest
        }
    }
}

/// The number of tags that tie `node_id` to `service_id`.
pub open spec fn tag_count(s: Seq<ServiceTag>, node_id: u64, service_id: u64) -> nat
    decreases s.len(),
{
    if s.len() == 0 {
        0
    } else {
        tag_count(s.drop_last(), node_id, service_id) + if s.last() == (ServiceTag { node_id, service_id }) {
            1nat
        } else {
            0nat
        }
    }
}

/// A service entry after its tags of `node_id` are gone.
pub open spec fn entry_after(e: ServiceEntry, tags: Seq<ServiceTag>, node_id: u64) -> ServiceEntry {
    let gone = tag_count(tags, node_id, e.service_id);
    ServiceEntry {
        node_count: if e.node_count >= gone {
            (e.node_count - gone) as usize
        } else {
            0
        },
        ..e
    }
}

/// Whether the cleanup removes the service: the dead node took part in it,
/// and no node and no port is left.
pub open spec fn is_abandoned(e: ServiceEntry, tags: Seq<ServiceTag>, node_id: u64) -> bool {
    &&& tag_count(tags, node_id, e.service_id) > 0
    &&& entry_after(e, tags, node_id).node_count == 0
    &&& e.port_count == 0
}

/// The services that remain after the cleanup of `node_id`, with their node
/// counts lowered.
pub open spec fn services_after(s: Seq<ServiceEntry>, tags: Seq<ServiceTag>, node_id: u64) -> Seq<ServiceEntry>
    decreases s.len(),
{
    if s.len() == 0 {
        s
    } else {
        let rest = services_after(s.drop_last(), tags, node_id);
        if is_abandoned(s.last(), tags, node_id) {
            rest
        } else {
            rest.push(entry_after(s.last(), tags, node_id))
        }
    }
}

/// The ids of the services that the cleanup of `node_id` removes.
pub open spec fn removed_services(s: Seq<ServiceEntry>, tags: Seq<ServiceTag>, node_id: u64) -> Seq<u64>
    decreases s.len(),
{
    if s.len() == 0 {
        Seq::empty()
    } else {
        let rest = removed_services(s.drop_last(), tags, node_id);
        if is_abandoned(s.last(), tags, node_id) {
            rest.push(s.last().service_id)
        } else {
            rest
        }
    }
}

pub struct NodeRegistry {
    tokens: Vec<u64>,
    tags: Vec<ServiceTag>,
    services: Vec<ServiceEntry>,
}

impl View for NodeRegistry {
    type V = RegistryView;

    closed spec fn view(&self) -> RegistryView {
        RegistryView { tokens: self.tokens@, tags: self.tags@, services: self.services@ }
    }
}

fn count_tags(tags: &Vec<ServiceTag>, node_id: u64, service_id: u64) -> (r: usize)
    ensures
        r == tag_count(tags@, node_id, service_id),
{
    let mut count: usize = 0;
    let mut i: usize = 0;
    while i < tags.len()
        invariant
            i <= tags@.len(),
            count == tag_count(tags@.subrange(0, i as int), node_id, service_id),
            count <= i,
        decreases tags@.len() - i,
    {
        assert(tags@.subrange(0, i + 1).drop_last() =~= tags@.subrange(0, i as int));
        if tags[i].node_id == node_id && tags[i].service_id == service_id {
            count = count + 1;
        }
        i = i + 1;
    }
    assert(tags@.subrange(0, tags@.len() as int) =~= tags@);
    count
}

impl NodeRegistry {
    pub fn new() -> (r: NodeRegistry)
        ensures
            r@.tokens.len() == 0,
            r@.tags.len() == 0,
            r@.services.len() == 0,
    {
        NodeRegistry { tokens: Vec::new(), tags: Vec::new(), services: Vec::new() }
    }

    /// Places the liveness token of a new node.
    pub fn register_node(&mut self, node_id: u64)
        ensures
            final(self)@.tokens == old(self)@.tokens.push(node_id),
            final(self)@.tags == old(self)@.tags,
            final(self)@.services == old(self)@.services,
    {
        self.tokens.push(node_id);
    }

    /// Records a service with no participants yet.
    pub fn add_service(&mut self, service_id: u64)
        ensures
            final(self)@.services == old(self)@.services.push(
                ServiceEntry { service_id, node_count: 0, port_count: 0 },
            ),
            final(self)@.tokens == old(self)@.tokens,
            final(self)@.tags == old(self)@.tags,
    {
        self.services.push(ServiceEntry { service_id, node_count: 0, port_count: 0 });
    }

    /// Ties a node to service `index`: writes its tag and counts the node.
    pub fn join_service(&mut self, node_id: u64, index: usize) -> (r: bool)
        requires
            index < old(self)@.services.len(),
        ensures
            r == (old(self)@.services[index as int].node_count < usize::MAX),
            r ==> final(self)@.tags == old(self)@.tags.push(
                ServiceTag { node_id, service_id: old(self)@.services[index as int].service_id },
            ),
            r ==> final(self)@.services == old(self)@.services.update(
                index as int,
                ServiceEntry {
                    node_count: (old(self)@.services[index as int].node_count + 1) as usize,
                    ..old(self)@.services[index as int]
                },
            ),
            !r ==> final(self)@ == old(self)@,
            final(self)@.tokens == old(self)@.tokens,
    {
        let e = self.services[index];
        if e.node_count == usize::MAX {
            return false;
        }
        self.tags.push(ServiceTag { node_id, service_id: e.service_id });
        self.services.set(index, ServiceEntry { node_count: e.node_count + 1, ..e });
        true
    }

    /// Sets the number of ports of service `index`.
    pub fn set_port_count(&mut self, index: usize, port_count: usize)
        requires
            index < old(self)@.services.len(),
        ensures
            final(self)@.services == old(self)@.services.update(
                index as int,
                ServiceEntry { port_count, ..old(self)@.services[index as int] },
            ),
            final(self)@.tokens == old(self)@.tokens,
            final(self)@.tags == old(self)@.tags,
    {
        let e = self.services[index];
        self.services.set(index, ServiceEntry { port_count, ..e });
    }

    pub fn services(&self) -> (r: &Vec<ServiceEntry>)
        ensures
            r@ == self@.services,
    {
        &self.services
    }

    pub fn tags(&self) -> (r: &Vec<ServiceTag>)
        ensures
            r@ == self@.tags,
    {
        &self.tags
    }

    pub fn tokens(&self) -> (r: &Vec<u64>)
        ensures
            r@ == self@.tokens,
    {
        &self.tokens
    }

    /// Cleans up after the dead node `node_id`, whose liveness token the
    /// caller could lock: removes its token and every tag of it, lowers the
    /// node count of each service it took part in, and removes the services
    /// that are left with no node and no port. Returns the ids of the
    /// removed services. Cleaning up twice changes nothing more.
    pub fn cleanup_dead_node(&mut self, node_id: u64) -> (r: Vec<u64>)
        ensures
            final(self)@.tokens == tokens_without(old(self)@.tokens, node_id),
            final(self)@.tags == tags_without(old(self)@.tags, node_id),
            final(self)@.services == services_after(old(self)@.services, old(self)@.tags, node_id),
            r@ == removed_services(old(self)@.services, old(self)@.tags, node_id),
    {
        let ghost old_tokens = self.tokens@;
        let ghost old_tags = self.tags@;
        let ghost old_services = self.services@;

        let mut tokens: Vec<u64> = Vec::new();
        let mut i: usize = 0;
        while i < self.tokens.len()
            invariant
                i <= old_tokens.len(),
                self.tokens@ == old_tokens,
                tokens@ == tokens_without(old_tokens.subrange(0, i as int), node_id),
            decreases old_tokens.len() - i,
        {
            assert(old_tokens.subrange(0, i + 1).drop_last() =~= old_tokens.subrange(0, i as int));
            if self.tokens[i] != node_id {
                tokens.push(self.tokens[i]);
            }
            i = i + 1;
        }
        assert(old_tokens.subrange(0, old_tokens.len() as int) =~= old_tokens);

        let mut services: Vec<ServiceEntry> = Vec::new();
        let mut removed: Vec<u64> = Vec::new();
        let mut j: usize = 0;
        while j < self.services.len()
            invariant
                j <= old_services.len(),
                self.services@ == old_services,
                self.tags@ == old_tags,
                services@ == services_after(old_services.subrange(0, j as int), old_tags, node_id),
                removed@ == removed_services(old_services.subrange(0, j as int), old_tags, node_id),
            decreases old_services.len() - j,
        {
            assert(old_services.subrange(0, j + 1).drop_last() =~= old_services.subrange(0, j as int));
            let e = self.services[j];
            let gone = count_tags(&self.tags, node_id, e.service_id);
            let node_count = if e.node_count >= gone {
                e.node_count - gone
            } else {
                0
            };
            if gone > 0 && node_count == 0 && e.port_count == 0 {
                removed.push(e.service_id);
            } else {
                services.push(ServiceEntry { node_count, ..e });
            }
            j = j + 1;
        }
        assert(old_services.subrange(0, old_services.len() as int) =~= old_services);

        let mut tags: Vec<ServiceTag> = Vec::new();
        let mut k: usize = 0;
        while k < self.tags.len()
            invariant
                k <= old_tags.len(),
                self.tags@ == old_tags,
                tags@ == tags_without(old_tags.subrange(0, k as int), node_id),
            decreases old_tags.len() - k,
        {
            assert(old_tags.subrange(0, k + 1).drop_last() =~= old_tags.subrange(0, k as int));
            if self.tags[k].node_id != node_id {
                tags.push(self.tags[k]);
            }
            k = k + 1;
        }
        assert(old_tags.subrange(0, old_tags.len() as int) =~= old_tags);

        self.tokens = tokens;
        self.tags = tags;
        self.services = services;
        removed
    }
}

proof fn lemma_tokens_without_excludes(s: Seq<u64>, node_id: u64)
    ensures
        !tokens_without(s, node_id).contains(node_id),
        tokens_without(tokens_without(s, node_id), node_id) == tokens_without(s, node_id),
    decreases s.len(),
{
    if s.len() > 0 {
        lemma_tokens_without_excludes(s.drop_last(), node_id);
        let rest = tokens_without(s.drop_last(), node_id);
        if s.last() != node_id {
            assert(rest.push(s.last()).drop_last() =~= rest);
            assert forall|i: int| 0 <= i < rest.push(s.last()).len() implies rest.push(s.last())[i] != node_id by {
                if i < rest.len() {
                    assert(!rest.contains(node_id));
                    assert(rest[i] != node_id);
                }
            }
        }
    }
}

proof fn lemma_tags_without_excludes(s: Seq<ServiceTag>, node_id: u64)
    ensures
        forall|i: int| 0 <= i < tags_without(s, node_id).len() ==> (#[trigger] tags_without(s, node_id)[i]).node_id != node_id,
        tags_without(tags_without(s, node_id), node_id) == tags_without(s, node_id),
        forall|service_id: u64| #[trigger] tag_count(tags_without(s, node_id), node_id, service_id) == 0,
    decreases s.len(),
{
    if s.len() > 0 {
        lemma_tags_without_excludes(s.drop_last(), node_id);
        let rest = tags_without(s.drop_last(), node_id);
        if s.last().node_id != node_id {
            assert(rest.push(s.last()).drop_last() =~= rest);
            assert forall|service_id: u64| #[trigger] tag_count(rest.push(s.last()), node_id, service_id) == 0 by {
                assert(tag_count(rest, node_id, service_id) == 0);
            }
        }
    }
}

proof fn lemma_no_tags_keeps_services(s: Seq<ServiceEntry>, tags: Seq<ServiceTag>, node_id: u64)
    requires
        forall|service_id: u64| #[trigger] tag_count(tags, node_id, service_id) == 0,
    ensures
        services_after(s, tags, node_id) == s,
        removed_services(s, tags, node_id) == Seq::<u64>::empty(),
    decreases s.len(),
{
    if s.len() > 0 {
        lemma_no_tags_keeps_services(s.drop_last(), tags, node_id);
        assert(tag_count(tags, node_id, s.last().service_id) == 0);
        assert(entry_after(s.last(), tags, node_id) == s.last());
        assert(s.drop_last().push(s.last()) =~= s);
    }
}

/// After the cleanup of a dead node, neither its token nor any tag of it is
/// left, and cleaning up after it again changes nothing.
pub proof fn lemma_cleanup_is_idempotent(r: RegistryView, node_id: u64)
    ensures
        !tokens_without(r.tokens, node_id).contains(node_id),
        forall|i: int| 0 <= i < tags_without(r.tags, node_id).len() ==> (#[trigger] tags_without(r.tags, node_id)[i]).node_id != node_id,
        tokens_without(tokens_without(r.tokens, node_id), node_id) == tokens_without(r.tokens, node_id),
        tags_without(tags_without(r.tags, node_id), node_id) == tags_without(r.tags, node_id),
        services_after(services_after(r.services, r.tags, node_id), tags_without(r.tags, node_id), node_id)
            == services_after(r.services, r.tags, node_id),
        removed_services(services_after(r.services, r.tags, node_id), tags_without(r.tags, node_id), node_id)
            == Seq::<u64>::empty(),
{
    lemma_tokens_without_excludes(r.tokens, node_id);
    lemma_tags_without_excludes(r.tags, node_id);
    lemma_no_tags_keeps_services(services_after(r.services, r.tags, node_id), tags_without(r.tags, node_id), node_id);
}

} // verus!
