//! The incremental visibility cache.
//!
//! The cache maintains four interlocking relations — attribute to
//! conditions, condition to entity set, condition to client set, and client
//! to attribute set — and keeps them consistent under arbitrary
//! interleavings of inserts, removals, and resets. On every change it
//! forwards the resulting per-(entity, client) booleans to the host's
//! replication sink as [`VisibilityUpdate`] records; a ghost model of the
//! sink certifies that the last value forwarded for each pair always equals
//! the evaluation of the entity's condition against the client's attribute
//! set.
//!
//! Redundant operations — re-adding a held attribute, re-assigning the same
//! condition — are silently absorbed, not errors. Index look-ups that the
//! data model guarantees (a condition id reachable through the attribute
//! index is tracked, a tracked entity's condition entry exists) are proven
//! to succeed, so the operations have no failure paths to surface.

use vstd::prelude::*;
use std::collections::HashMap;
use crate::builtin_attributes::Client;
use crate::builtin_attributes::Global;
use crate::visibility_attribute::VisibilityAttribute;
use crate::visibility_attribute::VisibilityAttributeId;
use crate::visibility_condition::attrs_of;
use crate::visibility_condition::inspector_models;
use crate::visibility_condition::mentioned_keys;
use crate::visibility_condition::spec_condition_id;
use crate::visibility_condition::VisibilityCondition;
use crate::visibility_condition_constructors::sem;

verus! {

broadcast use vstd::seq_lib::group_seq_properties;

/// One visibility transition for the host's replication sink: the pair
/// (entity, client) transitions to `visible`.
#[derive(Copy, Clone, Debug, PartialEq, Eq, Structural)]
pub struct VisibilityUpdate {
    pub entity: u64,
    pub client: u64,
    pub visible: bool,
}

/// Evaluation of a condition against a client's attribute list: the
/// classical boolean semantics of the condition's expression, where an
/// attribute holds iff the list contains it.
pub open spec fn eval_attrs(c: VisibilityCondition, attrs: Seq<VisibilityAttributeId>) -> bool {
    sem(c.expr, |a: VisibilityAttributeId| attrs.contains(a))
}

/// Whether the sink model records `true` as the last value forwarded for
/// the pair; a pair never written is not visible.
pub open spec fn emitted_or_false(m: Map<(u64, u64), bool>, entity: u64, client: u64) -> bool {
    m.contains_key((entity, client)) && m[(entity, client)]
}

/// The sink state after applying a sequence of updates in order.
pub open spec fn apply_updates(m: Map<(u64, u64), bool>, s: Seq<VisibilityUpdate>) -> Map<
    (u64, u64),
    bool,
>
    decreases s.len(),
{
    if s.len() == 0 {
        m
    } else {
        apply_updates(m, s.drop_last()).insert(
            (s.last().entity, s.last().client),
            s.last().visible,
        )
    }
}

/// Applying two update sequences in turn applies their concatenation.
pub proof fn lemma_apply_updates_concat(
    m: Map<(u64, u64), bool>,
    s1: Seq<VisibilityUpdate>,
    s2: Seq<VisibilityUpdate>,
)
    ensures
        apply_updates(apply_updates(m, s1), s2) == apply_updates(m, s1 + s2),
    decreases s2.len(),
{
    if s2.len() == 0 {
        assert(s1 + s2 =~= s1);
    } else {
        lemma_apply_updates_concat(m, s1, s2.drop_last());
        assert((s1 + s2).drop_last() =~= s1 + s2.drop_last());
        assert((s1 + s2).last() == s2.last());
    }
}

/// Appending one update to a sequence updates the applied sink state at
/// that update's pair.
pub proof fn lemma_apply_updates_push(
    m: Map<(u64, u64), bool>,
    s: Seq<VisibilityUpdate>,
    u: VisibilityUpdate,
)
    ensures
        apply_updates(m, s.push(u)) == apply_updates(m, s).insert((u.entity, u.client), u.visible),
{
    assert(s.push(u).drop_last() =~= s);
    assert(s.push(u).last() == u);
}

/// All vectors in a buffer pool are cleared.
pub open spec fn all_empty<T>(pool: Seq<Vec<T>>) -> bool {
    forall|i: int| 0 <= i < pool.len() ==> #[trigger] pool[i]@.len() == 0
}

/// Takes a cleared vector from the pool, or allocates one.
fn acquire_buffer<T>(pool: &mut Vec<Vec<T>>) -> (r: Vec<T>)
    requires
        all_empty(old(pool)@),
    ensures
        all_empty(final(pool)@),
        r@.len() == 0,
{
    match pool.pop() {
        Some(v) => {
            proof {
                assert(old(pool)@[old(pool)@.len() - 1]@.len() == 0);
                assert(forall|i: int|
                    0 <= i < final(pool)@.len() ==> final(pool)@[i] == old(pool)@[i]);
            }
            v
        },
        None => Vec::new(),
    }
}

/// Clears a vector and returns it to the pool for future use.
fn release_buffer<T>(pool: &mut Vec<Vec<T>>, v: Vec<T>)
    requires
        all_empty(old(pool)@),
    ensures
        all_empty(final(pool)@),
{
    let mut v = v;
    v.clear();
    pool.push(v);
}

/// Whether a client id list contains the given id.
fn vec_contains_u64(v: &Vec<u64>, x: u64) -> (r: bool)
    ensures
        r == v@.contains(x),
{
    let n = v.len();
    let mut i: usize = 0;
    while i < n
        invariant
            i <= n,
            n == v@.len(),
            forall|j: int| 0 <= j < i ==> v@[j] != x,
        decreases n - i,
    {
        if v[i] == x {
            return true;
        }
        i += 1;
    }
    false
}

/// Whether a condition id list contains the given id.
fn vec_contains_u128(v: &Vec<u128>, x: u128) -> (r: bool)
    ensures
        r == v@.contains(x),
{
    let n = v.len();
    let mut i: usize = 0;
    while i < n
        invariant
            i <= n,
            n == v@.len(),
            forall|j: int| 0 <= j < i ==> v@[j] != x,
        decreases n - i,
    {
        if v[i] == x {
            return true;
        }
        i += 1;
    }
    false
}

/// Whether an attribute list contains the given attribute id.
fn vec_contains_attr(v: &Vec<VisibilityAttributeId>, x: VisibilityAttributeId) -> (r: bool)
    ensures
        r == v@.contains(x),
{
    let n = v.len();
    let mut i: usize = 0;
    while i < n
        invariant
            i <= n,
            n == v@.len(),
            forall|j: int| 0 <= j < i ==> v@[j] != x,
        decreases n - i,
    {
        if v[i] == x {
            return true;
        }
        i += 1;
    }
    false
}

/// Copies an attribute list.
fn copy_attrs(v: &Vec<VisibilityAttributeId>) -> (r: Vec<VisibilityAttributeId>)
    ensures
        r@ == v@,
{
    let mut out: Vec<VisibilityAttributeId> = Vec::new();
    let n = v.len();
    let mut i: usize = 0;
    while i < n
        invariant
            i <= n,
            n == v@.len(),
            out@ == v@.take(i as int),
        decreases n - i,
    {
        out.push(v[i]);
        proof {
            assert(v@.take(i + 1) =~= v@.take(i as int).push(v@[i as int]));
        }
        i += 1;
    }
    proof {
        assert(v@.take(n as int) =~= v@);
    }
    out
}

/// Removes one occurrence of `x` from a duplicate-free list, if present.
fn vec_remove_value_u64(v: &mut Vec<u64>, x: u64) -> (r: bool)
    requires
        old(v)@.no_duplicates(),
    ensures
        final(v)@.no_duplicates(),
        r == old(v)@.contains(x),
        forall|y: u64| final(v)@.contains(y) <==> (old(v)@.contains(y) && y != x),
        r ==> final(v)@.len() + 1 == old(v)@.len(),
        !r ==> *final(v) == *old(v),
{
    let n = v.len();
    let mut i: usize = 0;
    while i < n
        invariant
            i <= n,
            n == v@.len(),
            *v == *old(v),
            old(v)@.no_duplicates(),
            forall|j: int| 0 <= j < i ==> v@[j] != x,
        decreases n - i,
    {
        if v[i] == x {
            v.remove(i);
            proof {
                assert(final(v)@ =~= old(v)@.subrange(0, i as int) + old(v)@.subrange(
                    i + 1,
                    n as int,
                ));
                lemma_remove_preserves(old(v)@, i as int);
            }
            return true;
        }
        i += 1;
    }
    proof {
        assert(forall|j: int| 0 <= j < old(v)@.len() ==> old(v)@[j] != x);
        assert(!old(v)@.contains(x));
    }
    false
}

/// Removing the element at one index of a duplicate-free sequence yields a
/// duplicate-free sequence holding exactly the other values.
proof fn lemma_remove_preserves(s: Seq<u64>, i: int)
    requires
        s.no_duplicates(),
        0 <= i < s.len(),
    ensures
        s.remove(i).no_duplicates(),
        forall|y: u64| s.remove(i).contains(y) <==> (s.contains(y) && y != s[i]),
{
    let t = s.remove(i);
    assert forall|y: u64| t.contains(y) implies (s.contains(y) && y != s[i]) by {
        let j = choose|j: int| 0 <= j < t.len() && t[j] == y;
        if j < i {
            assert(s[j] == y);
        } else {
            assert(s[j + 1] == y);
        }
    }
    assert forall|y: u64| s.contains(y) && y != s[i] implies t.contains(y) by {
        let j = choose|j: int| 0 <= j < s.len() && s[j] == y;
        if j < i {
            assert(t[j] == y);
        } else {
            assert(t[j - 1] == y);
        }
    }
}

/// The record a cache keeps for one tracked condition: the condition value,
/// the entities currently carrying it, and the clients currently evaluating
/// true for it.
pub struct ConditionEntry {
    pub condition: VisibilityCondition,
    pub entities: Vec<u64>,
    pub clients: Vec<u64>,
}

/// The incremental visibility index.
///
/// The cache is an explicitly-owned context object, mutated by one logical
/// actor per update cycle; it holds no locks. Mutation entry points append
/// the visibility transitions they derive to a caller-supplied
/// [`VisibilityUpdate`] list, which the host applies, in order, to its
/// replication sink.
pub struct VisibilityCache {
    /// attribute key -> ids of the conditions that mention the attribute.
    pub attributes: HashMap<u128, Vec<u128>>,
    /// entity -> id of the condition it carries.
    pub entities: HashMap<u64, u128>,
    /// condition id -> (condition, entity set, client set).
    pub conditions: HashMap<u128, ConditionEntry>,
    /// The ids of all tracked conditions, for iteration.
    pub cond_ids: Vec<u128>,
    /// client -> attributes currently held.
    pub clients: HashMap<u64, Vec<VisibilityAttributeId>>,
    /// The ids of all known clients, for iteration.
    pub client_ids: Vec<u64>,
    /// Condition id sets cached for future use.
    pub condition_ids_buffer: Vec<Vec<u128>>,
    /// Entity sets cached for future conditions.
    pub entities_buffer: Vec<Vec<u64>>,
    /// Client id sets cached for future conditions.
    pub client_ids_buffer: Vec<Vec<u64>>,
    /// Attribute id sets cached for future clients.
    pub attribute_ids_buffer: Vec<Vec<VisibilityAttributeId>>,
    /// Server id if the server is treated as a player.
    pub server_id: Option<u64>,
    /// Model of the replication sink: the last value forwarded per
    /// (entity, client) pair.
    pub emitted: Ghost<Map<(u64, u64), bool>>,
}

impl VisibilityCache {
    /// The tracked entity-to-condition-id relation.
    pub open spec fn spec_entities(self) -> Map<u64, u128> {
        self.entities@
    }

    /// The known client-to-attribute-list relation.
    pub open spec fn spec_clients(self) -> Map<u64, Vec<VisibilityAttributeId>> {
        self.clients@
    }

    /// The tracked condition records.
    pub open spec fn spec_conditions(self) -> Map<u128, ConditionEntry> {
        self.conditions@
    }

    /// The sink model: the last value forwarded per (entity, client) pair.
    pub open spec fn spec_emitted(self) -> Map<(u64, u64), bool> {
        self.emitted@
    }

    /// The configured server id, if any.
    pub open spec fn spec_server_id(self) -> Option<u64> {
        self.server_id
    }

    /// Each tracked condition record is internally coherent: the condition
    /// is well-formed and keyed by its content hash, its entity set points
    /// back into the entity map, and its client set holds exactly the known
    /// clients that evaluate true.
    pub open spec fn inv_conditions(self) -> bool {
        forall|cid: u128| #[trigger]
            self.conditions@.contains_key(cid) ==> {
                let en = self.conditions@[cid];
                &&& en.condition.wf()
                &&& spec_condition_id(en.condition.nodes@) == cid
                &&& en.entities@.no_duplicates()
                &&& en.entities@.len() > 0
                &&& en.clients@.no_duplicates()
                &&& (forall|i: int|
                    0 <= i < en.entities@.len() ==> self.entities@.contains_key(
                        #[trigger] en.entities@[i],
                    ) && self.entities@[en.entities@[i]] == cid)
                &&& (forall|k: u64| #[trigger]
                    en.clients@.contains(k) ==> self.clients@.contains_key(k) && eval_attrs(
                        en.condition,
                        self.clients@[k]@,
                    ))
                &&& (forall|k: u64|
                    self.clients@.contains_key(k) && #[trigger] eval_attrs(
                        en.condition,
                        self.clients@[k]@,
                    ) ==> en.clients@.contains(k))
            }
    }

    /// Each tracked entity's condition id is tracked and lists the entity.
    pub open spec fn inv_entities(self) -> bool {
        forall|e: u64| #[trigger]
            self.entities@.contains_key(e) ==> self.conditions@.contains_key(self.entities@[e])
                && self.conditions@[self.entities@[e]].entities@.contains(e)
    }

    /// The condition id list mirrors the condition map's domain.
    pub open spec fn inv_cond_ids(self) -> bool {
        &&& self.cond_ids@.no_duplicates()
        &&& (forall|cid: u128| #[trigger]
            self.cond_ids@.contains(cid) ==> self.conditions@.contains_key(cid))
        &&& (forall|cid: u128| #[trigger]
            self.conditions@.contains_key(cid) ==> self.cond_ids@.contains(cid))
    }

    /// The attribute index holds exactly the back-references of the tracked
    /// conditions: an attribute maps to a condition id iff that condition
    /// mentions the attribute. Entries are never empty.
    pub open spec fn inv_attributes(self) -> bool {
        &&& (forall|a: u128| #[trigger]
            self.attributes@.contains_key(a) ==> self.attributes@[a]@.no_duplicates()
                && self.attributes@[a]@.len() > 0)
        &&& (forall|a: u128, cid: u128|
            self.attributes@.contains_key(a) && #[trigger] self.attributes@[a]@.contains(cid)
                ==> self.conditions@.contains_key(cid) && mentioned_keys(
                self.conditions@[cid].condition.nodes@,
            ).contains(a))
        &&& (forall|a: u128, cid: u128|
            #[trigger] self.conditions@.contains_key(cid) && #[trigger] mentioned_keys(
                self.conditions@[cid].condition.nodes@,
            ).contains(a) ==> self.attributes@.contains_key(a) && self.attributes@[a]@.contains(
                cid,
            ))
    }

    /// The client id list mirrors the client map's domain, and attribute
    /// lists are duplicate-free.
    pub open spec fn inv_clients(self) -> bool {
        &&& self.client_ids@.no_duplicates()
        &&& (forall|k: u64| #[trigger]
            self.client_ids@.contains(k) ==> self.clients@.contains_key(k))
        &&& (forall|k: u64| #[trigger]
            self.clients@.contains_key(k) ==> self.client_ids@.contains(k))
        &&& (forall|k: u64| #[trigger]
            self.clients@.contains_key(k) ==> self.clients@[k]@.no_duplicates())
    }

    /// All pooled buffers are cleared.
    pub open spec fn inv_buffers(self) -> bool {
        &&& all_empty(self.condition_ids_buffer@)
        &&& all_empty(self.entities_buffer@)
        &&& all_empty(self.client_ids_buffer@)
        &&& all_empty(self.attribute_ids_buffer@)
    }

    /// Sink consistency: for every tracked entity and known client, the
    /// last value forwarded equals the evaluation of the entity's condition
    /// against the client's attribute set. Rows exist only for known
    /// clients, and a row whose last forwarded value is `true` always names
    /// a tracked entity.
    pub open spec fn inv_sink(self) -> bool {
        &&& (forall|e: u64, k: u64|
            #[trigger] self.entities@.contains_key(e) && #[trigger] self.clients@.contains_key(k)
                ==> emitted_or_false(self.emitted@, e, k) == eval_attrs(
                self.conditions@[self.entities@[e]].condition,
                self.clients@[k]@,
            ))
        &&& (forall|p: (u64, u64)| #[trigger]
            self.emitted@.contains_key(p) ==> self.clients@.contains_key(p.1))
        &&& (forall|e: u64, k: u64|
            #[trigger] emitted_or_false(self.emitted@, e, k) ==> self.entities@.contains_key(e))
    }

    /// The cache invariant: every index is coherent with every other, and
    /// the sink model is consistent with the indices. Holds after every
    /// public operation.
    pub open spec fn inv(self) -> bool {
        &&& self.inv_conditions()
        &&& self.inv_entities()
        &&& self.inv_cond_ids()
        &&& self.inv_attributes()
        &&& self.inv_clients()
        &&& self.inv_buffers()
        &&& self.inv_sink()
    }

    /// Makes a new, empty cache.
    pub fn new() -> (r: Self)
        ensures
            r.inv(),
            r.spec_entities() == Map::<u64, u128>::empty(),
            r.spec_clients() == Map::<u64, Vec<VisibilityAttributeId>>::empty(),
            r.spec_conditions() == Map::<u128, ConditionEntry>::empty(),
            r.spec_emitted() == Map::<(u64, u64), bool>::empty(),
            r.spec_server_id() is None,
    {
        VisibilityCache {
            attributes: HashMap::new(),
            entities: HashMap::new(),
            conditions: HashMap::new(),
            cond_ids: Vec::new(),
            clients: HashMap::new(),
            client_ids: Vec::new(),
            condition_ids_buffer: Vec::new(),
            entities_buffer: Vec::new(),
            client_ids_buffer: Vec::new(),
            attribute_ids_buffer: Vec::new(),
            server_id: None,
            emitted: Ghost(Map::empty()),
        }
    }

    /// Gets the server player's client id, if one was configured.
    pub fn server_id(&self) -> (r: Option<u64>)
        ensures
            r == self.spec_server_id(),
    {
        self.server_id
    }

    /// Accesses a client's attributes.
    pub fn client_attributes(&self, client_id: u64) -> (r: Option<&Vec<VisibilityAttributeId>>)
        ensures
            match r {
                Some(v) => self.clients@.contains_key(client_id) && v@ == self.clients@[client_id]@,
                None => !self.clients@.contains_key(client_id),
            },
    {
        self.clients.get(&client_id)
    }

    /// Lists a client's attributes; an unknown client has none.
    pub fn iter_client_attributes(&self, client_id: u64) -> (r: Vec<VisibilityAttributeId>)
        ensures
            self.clients@.contains_key(client_id) ==> r@ == self.clients@[client_id]@,
            !self.clients@.contains_key(client_id) ==> r@.len() == 0,
    {
        match self.clients.get(&client_id) {
            Some(attrs) => copy_attrs(attrs),
            None => Vec::new(),
        }
    }

    /// Evaluates a visibility condition against a single client. An
    /// unknown client satisfies no condition.
    pub fn client_visibility(&self, client_id: u64, condition: &VisibilityCondition) -> (r: bool)
        requires
            condition.wf(),
        ensures
            r == (self.clients@.contains_key(client_id) && eval_attrs(
                *condition,
                self.clients@[client_id]@,
            )),
    {
        match self.clients.get(&client_id) {
            Some(attrs) => eval_condition(condition, attrs),
            None => false,
        }
    }

    /// Evaluates a visibility condition against all known clients and
    /// returns the clients that evaluate true.
    pub fn iter_client_visibility(&self, condition: &VisibilityCondition) -> (r: Vec<u64>)
        requires
            self.inv(),
            condition.wf(),
        ensures
            r@.no_duplicates(),
            forall|k: u64| #[trigger]
                r@.contains(k) <==> (self.clients@.contains_key(k) && eval_attrs(
                    *condition,
                    self.clients@[k]@,
                )),
    {
        let mut out: Vec<u64> = Vec::new();
        let n = self.client_ids.len();
        let mut i: usize = 0;
        while i < n
            invariant
                i <= n,
                n == self.client_ids@.len(),
                self.inv(),
                condition.wf(),
                out@.no_duplicates(),
                forall|k: u64| #[trigger]
                    out@.contains(k) <==> (self.client_ids@.take(i as int).contains(k)
                        && self.clients@.contains_key(k) && eval_attrs(
                        *condition,
                        self.clients@[k]@,
                    )),
            decreases n - i,
        {
            let kid = self.client_ids[i];
            proof {
                assert(self.client_ids@.contains(kid));
            }
            let attrs_opt = self.clients.get(&kid);
            let attrs = attrs_opt.unwrap();
            if eval_condition(condition, attrs) {
                proof {
                    if out@.contains(kid) {
                        assert(self.client_ids@.take(i as int).contains(kid));
                        let j = choose|j: int|
                            0 <= j < i && (#[trigger] self.client_ids@.take(i as int)[j]) == kid;
                        assert(self.client_ids@[j] == kid);
                        assert(false);
                    }
                }
                out.push(kid);
            }
            proof {
                assert(self.client_ids@.take(i + 1).drop_last() =~= self.client_ids@.take(i as int));
                assert(self.client_ids@.take(i + 1).last() == kid);
                assert forall|k: u64| #[trigger]
                    out@.contains(k) implies (self.client_ids@.take(i + 1).contains(k)
                    && self.clients@.contains_key(k) && eval_attrs(
                    *condition,
                    self.clients@[k]@,
                )) by {
                    if k != kid {
                        assert(self.client_ids@.take(i as int).contains(k));
                        let j = choose|j: int|
                            0 <= j < i && (#[trigger] self.client_ids@.take(i as int)[j]) == k;
                        assert(self.client_ids@.take(i + 1)[j] == k);
                    } else {
                        assert(self.client_ids@.take(i + 1)[i as int] == kid);
                    }
                }
                assert forall|k: u64|
                    self.client_ids@.take(i + 1).contains(k) && self.clients@.contains_key(k)
                        && eval_attrs(*condition, self.clients@[k]@) implies #[trigger] out@.contains(
                    k,
                ) by {
                    let j = choose|j: int|
                        0 <= j <= i && (#[trigger] self.client_ids@.take(i + 1)[j]) == k;
                    if j < i {
                        assert(self.client_ids@.take(i as int)[j] == k);
                        assert(self.client_ids@.take(i as int).contains(k));
                    }
                }
            }
            i += 1;
        }
        proof {
            assert(self.client_ids@.take(n as int) =~= self.client_ids@);
            assert forall|k: u64| #[trigger]
                out@.contains(k) implies (self.clients@.contains_key(k) && eval_attrs(
                *condition,
                self.clients@[k]@,
            )) by {}
            assert forall|k: u64|
                self.clients@.contains_key(k) && eval_attrs(*condition, self.clients@[k]@) implies
                #[trigger] out@.contains(k) by {
                assert(self.client_ids@.contains(k));
            }
        }
        out
    }
}

/// The sink rows belonging to one client.
pub open spec fn client_pairs(client: u64) -> Set<(u64, u64)> {
    Set::new(|p: (u64, u64)| p.1 == client)
}

/// Whether one of the first `t` attributes in the list has packed key `a`.
pub open spec fn key_seen(attr_list: Seq<VisibilityAttributeId>, t: int, a: u128) -> bool {
    exists|t2: int| 0 <= t2 < t && (#[trigger] attr_list[t2]).spec_key() == a
}

/// Removes one occurrence of `x` from a duplicate-free condition id list,
/// if present.
fn vec_remove_value_u128(v: &mut Vec<u128>, x: u128) -> (r: bool)
    requires
        old(v)@.no_duplicates(),
    ensures
        final(v)@.no_duplicates(),
        r == old(v)@.contains(x),
        forall|y: u128| final(v)@.contains(y) <==> (old(v)@.contains(y) && y != x),
        r ==> final(v)@.len() + 1 == old(v)@.len(),
        !r ==> *final(v) == *old(v),
{
    let n = v.len();
    let mut i: usize = 0;
    while i < n
        invariant
            i <= n,
            n == v@.len(),
            *v == *old(v),
            old(v)@.no_duplicates(),
            forall|j: int| 0 <= j < i ==> v@[j] != x,
        decreases n - i,
    {
        if v[i] == x {
            v.remove(i);
            proof {
                lemma_remove_preserves_u128(old(v)@, i as int);
            }
            return true;
        }
        i += 1;
    }
    proof {
        assert(!old(v)@.contains(x));
    }
    false
}

/// Copies a condition id list.
fn copy_u128s(v: &Vec<u128>) -> (r: Vec<u128>)
    ensures
        r@ == v@,
{
    let mut out: Vec<u128> = Vec::new();
    let n = v.len();
    let mut i: usize = 0;
    while i < n
        invariant
            i <= n,
            n == v@.len(),
            out@ == v@.take(i as int),
        decreases n - i,
    {
        out.push(v[i]);
        proof {
            assert(v@.take(i + 1) =~= v@.take(i as int).push(v@[i as int]));
        }
        i += 1;
    }
    proof {
        assert(v@.take(n as int) =~= v@);
    }
    out
}

/// Copies a client id list.
fn copy_u64s(v: &Vec<u64>) -> (r: Vec<u64>)
    ensures
        r@ == v@,
{
    let mut out: Vec<u64> = Vec::new();
    let n = v.len();
    let mut i: usize = 0;
    while i < n
        invariant
            i <= n,
            n == v@.len(),
            out@ == v@.take(i as int),
        decreases n - i,
    {
        out.push(v[i]);
        proof {
            assert(v@.take(i + 1) =~= v@.take(i as int).push(v@[i as int]));
        }
        i += 1;
    }
    proof {
        assert(v@.take(n as int) =~= v@);
    }
    out
}

/// Removes one occurrence of `x` from a duplicate-free attribute list, if
/// present.
fn vec_remove_value_attr(v: &mut Vec<VisibilityAttributeId>, x: VisibilityAttributeId) -> (r: bool)
    requires
        old(v)@.no_duplicates(),
    ensures
        final(v)@.no_duplicates(),
        r == old(v)@.contains(x),
        forall|y: VisibilityAttributeId| final(v)@.contains(y) <==> (old(v)@.contains(y) && y != x),
        !r ==> *final(v) == *old(v),
{
    let n = v.len();
    let mut i: usize = 0;
    while i < n
        invariant
            i <= n,
            n == v@.len(),
            *v == *old(v),
            old(v)@.no_duplicates(),
            forall|j: int| 0 <= j < i ==> v@[j] != x,
        decreases n - i,
    {
        if v[i] == x {
            v.remove(i);
            proof {
                lemma_remove_preserves_attr(old(v)@, i as int);
            }
            return true;
        }
        i += 1;
    }
    proof {
        assert(!old(v)@.contains(x));
    }
    false
}

/// Removing the element at one index of a duplicate-free sequence yields a
/// duplicate-free sequence holding exactly the other values.
proof fn lemma_remove_preserves_attr(s: Seq<VisibilityAttributeId>, i: int)
    requires
        s.no_duplicates(),
        0 <= i < s.len(),
    ensures
        s.remove(i).no_duplicates(),
        forall|y: VisibilityAttributeId| s.remove(i).contains(y) <==> (s.contains(y) && y != s[i]),
{
    let t = s.remove(i);
    assert forall|y: VisibilityAttributeId| t.contains(y) implies (s.contains(y) && y != s[i]) by {
        let j = choose|j: int| 0 <= j < t.len() && t[j] == y;
        if j < i {
            assert(s[j] == y);
        } else {
            assert(s[j + 1] == y);
        }
    }
    assert forall|y: VisibilityAttributeId| s.contains(y) && y != s[i] implies t.contains(y) by {
        let j = choose|j: int| 0 <= j < s.len() && s[j] == y;
        if j < i {
            assert(t[j] == y);
        } else {
            assert(t[j - 1] == y);
        }
    }
}

/// Pushing a value absent from a duplicate-free client id list keeps it
/// duplicate-free.
proof fn lemma_push_unique_u64(s: Seq<u64>, x: u64)
    requires
        s.no_duplicates(),
        !s.contains(x),
    ensures
        s.push(x).no_duplicates(),
{
    let t = s.push(x);
    assert forall|i: int, j: int| 0 <= i < t.len() && 0 <= j < t.len() && i != j implies t[i]
        != t[j] by {
        if i < s.len() && j < s.len() {
            assert(s[i] == t[i] && s[j] == t[j]);
        } else if i < s.len() {
            assert(t[j] == x && t[i] == s[i]);
            assert(s.contains(s[i]));
        } else if j < s.len() {
            assert(t[i] == x && t[j] == s[j]);
            assert(s.contains(s[j]));
        }
    }
}

/// Pushing a value absent from a duplicate-free condition id list keeps it
/// duplicate-free.
proof fn lemma_push_unique_u128(s: Seq<u128>, x: u128)
    requires
        s.no_duplicates(),
        !s.contains(x),
    ensures
        s.push(x).no_duplicates(),
{
    let t = s.push(x);
    assert forall|i: int, j: int| 0 <= i < t.len() && 0 <= j < t.len() && i != j implies t[i]
        != t[j] by {
        if i < s.len() && j < s.len() {
            assert(s[i] == t[i] && s[j] == t[j]);
        } else if i < s.len() {
            assert(t[j] == x && t[i] == s[i]);
            assert(s.contains(s[i]));
        } else if j < s.len() {
            assert(t[i] == x && t[j] == s[j]);
            assert(s.contains(s[j]));
        }
    }
}

/// A condition that does not mention an attribute evaluates the same on two
/// attribute lists that differ only at that attribute.
proof fn lemma_eval_unmentioned(
    c: VisibilityCondition,
    s1: Seq<VisibilityAttributeId>,
    s2: Seq<VisibilityAttributeId>,
    a: VisibilityAttributeId,
)
    requires
        c.wf(),
        !mentioned_keys(c.nodes@).contains(a.spec_key()),
        forall|x: VisibilityAttributeId| x != a ==> s1.contains(x) == s2.contains(x),
    ensures
        eval_attrs(c, s1) == eval_attrs(c, s2),
{
    let p1 = |x: VisibilityAttributeId| s1.contains(x);
    let p2 = |x: VisibilityAttributeId| s2.contains(x);
    crate::visibility_condition::lemma_flat_attrs(c.expr, 0);
    assert(attrs_of(c.nodes@) == crate::visibility_condition::expr_attrs(c.expr));
    assert forall|x: VisibilityAttributeId| #[trigger]
        crate::visibility_condition::expr_attrs(c.expr).contains(x) implies p1(x) == p2(x) by {
        let i = choose|i: int|
            0 <= i < crate::visibility_condition::expr_attrs(c.expr).len()
                && crate::visibility_condition::expr_attrs(c.expr)[i] == x;
        assert(attrs_of(c.nodes@)[i] == x);
        assert(mentioned_keys(c.nodes@).contains(x.spec_key()));
        assert(x != a);
    }
    crate::visibility_condition::lemma_sem_agrees(c.expr, p1, p2);
    assert(eval_attrs(c, s1) == sem(c.expr, p1));
    assert(eval_attrs(c, s2) == sem(c.expr, p2));
}

/// Pushing a value absent from a duplicate-free sequence keeps it
/// duplicate-free.
proof fn lemma_push_unique(s: Seq<VisibilityAttributeId>, x: VisibilityAttributeId)
    requires
        s.no_duplicates(),
        !s.contains(x),
    ensures
        s.push(x).no_duplicates(),
{
    let t = s.push(x);
    assert forall|i: int, j: int| 0 <= i < t.len() && 0 <= j < t.len() && i != j implies t[i]
        != t[j] by {
        if i < s.len() && j < s.len() {
            assert(s[i] == t[i] && s[j] == t[j]);
        } else if i < s.len() {
            assert(t[j] == x && t[i] == s[i]);
            assert(s.contains(s[i]));
        } else if j < s.len() {
            assert(t[i] == x && t[j] == s[j]);
            assert(s.contains(s[j]));
        }
    }
}

/// Removing the element at one index of a duplicate-free sequence yields a
/// duplicate-free sequence holding exactly the other values.
proof fn lemma_remove_preserves_u128(s: Seq<u128>, i: int)
    requires
        s.no_duplicates(),
        0 <= i < s.len(),
    ensures
        s.remove(i).no_duplicates(),
        forall|y: u128| s.remove(i).contains(y) <==> (s.contains(y) && y != s[i]),
{
    let t = s.remove(i);
    assert forall|y: u128| t.contains(y) implies (s.contains(y) && y != s[i]) by {
        let j = choose|j: int| 0 <= j < t.len() && t[j] == y;
        if j < i {
            assert(s[j] == y);
        } else {
            assert(s[j + 1] == y);
        }
    }
    assert forall|y: u128| s.contains(y) && y != s[i] implies t.contains(y) by {
        let j = choose|j: int| 0 <= j < s.len() && s[j] == y;
        if j < i {
            assert(t[j] == y);
        } else {
            assert(t[j - 1] == y);
        }
    }
}

impl VisibilityCache {
    /// Detaches a client from the cache: drops its record, removes it from
    /// every condition's client set, and clears its sink rows (the host
    /// discards per-client sink state when a client goes away). Returns the
    /// client's attribute list, if the client was known.
    fn take_client_attrs(&mut self, client_id: u64) -> (r: Option<Vec<VisibilityAttributeId>>)
        requires
            old(self).inv(),
        ensures
            final(self).inv(),
            !final(self).clients@.contains_key(client_id),
            final(self).clients@ == old(self).clients@.remove(client_id),
            final(self).entities@ == old(self).entities@,
            final(self).attributes@ == old(self).attributes@,
            final(self).cond_ids@ == old(self).cond_ids@,
            final(self).conditions@.dom() == old(self).conditions@.dom(),
            forall|cid: u128| #[trigger]
                final(self).conditions@.contains_key(cid) ==> {
                    &&& final(self).conditions@[cid].condition.nodes@ == old(
                        self,
                    ).conditions@[cid].condition.nodes@
                    &&& final(self).conditions@[cid].condition.expr == old(
                        self,
                    ).conditions@[cid].condition.expr
                    &&& final(self).conditions@[cid].entities@ == old(
                        self,
                    ).conditions@[cid].entities@
                    &&& (forall|y: u64|
                        final(self).conditions@[cid].clients@.contains(y) <==> (old(
                            self,
                        ).conditions@[cid].clients@.contains(y) && y != client_id))
                },
            final(self).server_id == old(self).server_id,
            final(self).emitted@ == old(self).emitted@.remove_keys(client_pairs(client_id)),
            match r {
                Some(v) => old(self).clients@.contains_key(client_id) && v@ == old(
                    self,
                ).clients@[client_id]@,
                None => !old(self).clients@.contains_key(client_id),
            },
    {
        let attrs = self.clients.remove(&client_id);
        let r = match attrs {
            Some(v) => Some(v),
            None => None,
        };
        if r.is_none() {
            proof {
                assert(old(self).clients@.remove(client_id) =~= old(self).clients@);
                assert(old(self).emitted@.remove_keys(client_pairs(client_id)) =~= old(
                    self,
                ).emitted@) by {
                    assert forall|p: (u64, u64)| #[trigger]
                        old(self).emitted@.contains_key(p) implies !client_pairs(
                        client_id,
                    ).contains(p) by {
                        assert(old(self).clients@.contains_key(p.1));
                    }
                }
            }
            return None;
        }
        vec_remove_value_u64(&mut self.client_ids, client_id);
        let n = self.cond_ids.len();
        let mut i: usize = 0;
        while i < n
            invariant
                i <= n,
                n == self.cond_ids@.len(),
                old(self).inv(),
                self.attributes@ == old(self).attributes@,
                self.entities@ == old(self).entities@,
                self.cond_ids@ == old(self).cond_ids@,
                self.clients@ == old(self).clients@.remove(client_id),
                self.client_ids@.no_duplicates(),
                forall|k: u64| #[trigger]
                    self.client_ids@.contains(k) <==> (old(self).client_ids@.contains(k) && k
                        != client_id),
                self.condition_ids_buffer@ == old(self).condition_ids_buffer@,
                self.entities_buffer@ == old(self).entities_buffer@,
                self.client_ids_buffer@ == old(self).client_ids_buffer@,
                self.attribute_ids_buffer@ == old(self).attribute_ids_buffer@,
                self.server_id == old(self).server_id,
                self.emitted@ == old(self).emitted@,
                self.conditions@.dom() == old(self).conditions@.dom(),
                forall|cid: u128| #[trigger]
                    self.conditions@.contains_key(cid) ==> {
                        &&& self.conditions@[cid].condition.nodes@ == old(
                            self,
                        ).conditions@[cid].condition.nodes@
                        &&& self.conditions@[cid].condition.expr == old(
                            self,
                        ).conditions@[cid].condition.expr
                        &&& self.conditions@[cid].entities@ == old(
                            self,
                        ).conditions@[cid].entities@
                        &&& self.conditions@[cid].clients@.no_duplicates()
                    },
                forall|j: int, y: u64|
                    0 <= j < i ==> ((#[trigger] self.conditions@[self.cond_ids@[j]].clients@.contains(
                        y,
                    )) <==> (old(self).conditions@[self.cond_ids@[j]].clients@.contains(y) && y
                        != client_id)),
                forall|j: int|
                    i <= j < n ==> {
                        let cid = self.cond_ids@[j];
                        self.conditions@[#[trigger] self.cond_ids@[j]].clients@ == old(
                            self,
                        ).conditions@[cid].clients@
                    },
            decreases n - i,
        {
            let cid = self.cond_ids[i];
            proof {
                assert(self.cond_ids@.contains(cid));
            }
            let entry_opt = self.conditions.remove(&cid);
            let mut entry = entry_opt.unwrap();
            vec_remove_value_u64(&mut entry.clients, client_id);
            self.conditions.insert(cid, entry);
            proof {
                assert(self.conditions@.dom() =~= old(self).conditions@.dom());
                assert forall|j: int, y: u64|
                    0 <= j < i + 1 implies ((#[trigger] self.conditions@[self.cond_ids@[j]].clients@.contains(
                    y,
                )) <==> (old(self).conditions@[self.cond_ids@[j]].clients@.contains(y) && y
                    != client_id)) by {
                    let cid2 = self.cond_ids@[j];
                    if j < i {
                        assert(cid2 != cid) by {
                            if cid2 == cid {
                                assert(!old(self).cond_ids@.no_duplicates() || j == i);
                            }
                        }
                    }
                }
            }
            i += 1;
        }
        proof {
            self.emitted@ = self.emitted@.remove_keys(client_pairs(client_id));
        }
        proof {
            let fin = *self;
            let pre = *old(self);
            assert(fin.inv_conditions()) by {
                assert forall|cid: u128| #[trigger] fin.conditions@.contains_key(cid) implies {
                    let en = fin.conditions@[cid];
                    &&& en.condition.wf()
                    &&& spec_condition_id(en.condition.nodes@) == cid
                    &&& en.entities@.no_duplicates()
                    &&& en.entities@.len() > 0
                    &&& en.clients@.no_duplicates()
                    &&& (forall|q: int|
                        0 <= q < en.entities@.len() ==> fin.entities@.contains_key(
                            #[trigger] en.entities@[q],
                        ) && fin.entities@[en.entities@[q]] == cid)
                    &&& (forall|k: u64| #[trigger]
                        en.clients@.contains(k) ==> fin.clients@.contains_key(k) && eval_attrs(
                            en.condition,
                            fin.clients@[k]@,
                        ))
                    &&& (forall|k: u64|
                        fin.clients@.contains_key(k) && #[trigger] eval_attrs(
                            en.condition,
                            fin.clients@[k]@,
                        ) ==> en.clients@.contains(k))
                } by {
                    let en = fin.conditions@[cid];
                    let en0 = pre.conditions@[cid];
                    assert(fin.cond_ids@.contains(cid));
                    let j = choose|j: int|
                        0 <= j < fin.cond_ids@.len() && fin.cond_ids@[j] == cid;
                    assert(en.condition.wf() && spec_condition_id(en.condition.nodes@) == cid) by {
                        assert(en.condition.nodes@ == en0.condition.nodes@);
                        assert(en.condition.expr == en0.condition.expr);
                        assert(en0.condition.wf());
                    }
                    assert forall|k: u64| #[trigger] en.clients@.contains(k) implies
                        fin.clients@.contains_key(k) && eval_attrs(
                        en.condition,
                        fin.clients@[k]@,
                    ) by {
                        assert(en0.clients@.contains(k) && k != client_id);
                        assert(pre.clients@.contains_key(k));
                        assert(eval_attrs(en0.condition, pre.clients@[k]@));
                        assert(fin.clients@[k]@ == pre.clients@[k]@);
                        assert(eval_attrs(en.condition, fin.clients@[k]@)) by {
                            assert(en.condition.expr == en0.condition.expr);
                        }
                    }
                    assert forall|k: u64|
                        fin.clients@.contains_key(k) && #[trigger] eval_attrs(
                            en.condition,
                            fin.clients@[k]@,
                        ) implies en.clients@.contains(k) by {
                        assert(k != client_id);
                        assert(pre.clients@.contains_key(k));
                        assert(eval_attrs(en0.condition, pre.clients@[k]@)) by {
                            assert(en.condition.expr == en0.condition.expr);
                        }
                        assert(en0.clients@.contains(k));
                    }
                }
            }
            assert(fin.inv_sink()) by {
                assert forall|e: u64, k: u64|
                    #[trigger] fin.entities@.contains_key(e) && #[trigger] fin.clients@.contains_key(
                    k,
                ) implies emitted_or_false(fin.emitted@, e, k) == eval_attrs(
                    fin.conditions@[fin.entities@[e]].condition,
                    fin.clients@[k]@,
                ) by {
                    assert(k != client_id);
                    assert(!client_pairs(client_id).contains((e, k)));
                    assert(emitted_or_false(fin.emitted@, e, k) == emitted_or_false(
                        pre.emitted@,
                        e,
                        k,
                    ));
                    let cid = fin.entities@[e];
                    assert(pre.entities@.contains_key(e) && pre.entities@[e] == cid);
                    assert(fin.conditions@[cid].condition.expr == pre.conditions@[cid].condition.expr);
                    assert(fin.clients@[k]@ == pre.clients@[k]@);
                }
                assert forall|p: (u64, u64)| #[trigger] fin.emitted@.contains_key(p) implies
                    fin.clients@.contains_key(p.1) by {
                    assert(pre.emitted@.contains_key(p));
                    assert(!client_pairs(client_id).contains(p));
                    assert(pre.clients@.contains_key(p.1) && p.1 != client_id);
                }
                assert forall|e: u64, k: u64| #[trigger]
                    emitted_or_false(fin.emitted@, e, k) implies fin.entities@.contains_key(
                    e,
                ) by {
                    assert(emitted_or_false(pre.emitted@, e, k));
                }
            }
        }
        r
    }

    /// Installs a record for a previously unknown client and computes its
    /// visibility from scratch: every tracked condition is evaluated
    /// against the client's attribute list, client-set memberships are
    /// populated, and the resulting true/false is forwarded for every
    /// entity of every tracked condition.
    fn install_client(
        &mut self,
        client_id: u64,
        attrs: Vec<VisibilityAttributeId>,
        updates: &mut Vec<VisibilityUpdate>,
    )
        requires
            old(self).inv(),
            !old(self).clients@.contains_key(client_id),
            attrs@.no_duplicates(),
        ensures
            final(self).inv(),
            final(self).clients@ =~= old(self).clients@.insert(client_id, attrs),
            final(self).entities@ == old(self).entities@,
            final(self).attributes@ == old(self).attributes@,
            final(self).conditions@.dom() == old(self).conditions@.dom(),
            forall|cid: u128| #[trigger]
                final(self).conditions@.contains_key(cid) ==> {
                    &&& final(self).conditions@[cid].condition.nodes@ == old(
                        self,
                    ).conditions@[cid].condition.nodes@
                    &&& final(self).conditions@[cid].condition.expr == old(
                        self,
                    ).conditions@[cid].condition.expr
                    &&& final(self).conditions@[cid].entities@ == old(
                        self,
                    ).conditions@[cid].entities@
                },
            final(self).server_id == old(self).server_id,
            final(updates)@.len() >= old(updates)@.len(),
            final(updates)@.take(old(updates)@.len() as int) == old(updates)@,
            forall|j: int|
                old(updates)@.len() <= j < final(updates)@.len()
                    ==> (#[trigger] final(updates)@[j]).client == client_id,
            final(self).emitted@ == apply_updates(
                old(self).emitted@,
                final(updates)@.skip(old(updates)@.len() as int),
            ),
    {
        let ghost avec = attrs;
        let ghost m0 = old(self).emitted@;
        let ghost u0 = old(updates)@;
        proof {
            assert(!old(self).client_ids@.contains(client_id));
        }
        self.clients.insert(client_id, attrs);
        self.client_ids.push(client_id);
        let n = self.cond_ids.len();
        let mut i: usize = 0;
        while i < n
            invariant
                i <= n,
                n == self.cond_ids@.len(),
                old(self).inv(),
                !old(self).clients@.contains_key(client_id),
                avec@.no_duplicates(),
                self.clients@ == old(self).clients@.insert(client_id, avec),
                self.client_ids@ == old(self).client_ids@.push(client_id),
                self.entities@ == old(self).entities@,
                self.attributes@ == old(self).attributes@,
                self.cond_ids@ == old(self).cond_ids@,
                self.conditions@.dom() == old(self).conditions@.dom(),
                self.condition_ids_buffer@ == old(self).condition_ids_buffer@,
                self.entities_buffer@ == old(self).entities_buffer@,
                self.client_ids_buffer@ == old(self).client_ids_buffer@,
                self.attribute_ids_buffer@ == old(self).attribute_ids_buffer@,
                self.server_id == old(self).server_id,
                forall|cid: u128| #[trigger]
                    self.conditions@.contains_key(cid) ==> {
                        &&& self.conditions@[cid].condition.nodes@ == old(
                            self,
                        ).conditions@[cid].condition.nodes@
                        &&& self.conditions@[cid].condition.expr == old(
                            self,
                        ).conditions@[cid].condition.expr
                        &&& self.conditions@[cid].entities@ == old(
                            self,
                        ).conditions@[cid].entities@
                        &&& self.conditions@[cid].clients@.no_duplicates()
                    },
                forall|j: int, y: u64|
                    0 <= j < i ==> ((#[trigger] self.conditions@[self.cond_ids@[j]].clients@.contains(
                        y,
                    )) <==> (old(self).conditions@[self.cond_ids@[j]].clients@.contains(y) || (y
                        == client_id && eval_attrs(
                        old(self).conditions@[self.cond_ids@[j]].condition,
                        avec@,
                    )))),
                forall|j: int|
                    i <= j < n ==> self.conditions@[#[trigger] self.cond_ids@[j]].clients@ == old(
                        self,
                    ).conditions@[self.cond_ids@[j]].clients@,
                updates@.len() >= u0.len(),
                updates@.take(u0.len() as int) == u0,
                forall|j: int|
                    u0.len() <= j < updates@.len() ==> (#[trigger] updates@[j]).client
                        == client_id,
                self.emitted@ == apply_updates(m0, updates@.skip(u0.len() as int)),
                forall|e: u64, k: u64|
                    k != client_id ==> (#[trigger] self.emitted@.contains_key((e, k))
                        == m0.contains_key((e, k)) && (self.emitted@.contains_key((e, k))
                        ==> self.emitted@[(e, k)] == m0[(e, k)])),
                forall|e: u64| #[trigger]
                    self.emitted@.contains_key((e, client_id)) ==> self.entities@.contains_key(e)
                        && self.cond_ids@.take(i as int).contains(self.entities@[e]),
                forall|e: u64|
                    self.entities@.contains_key(e) && self.cond_ids@.take(i as int).contains(
                        #[trigger] self.entities@[e],
                    ) ==> (self.emitted@.contains_key((e, client_id)) && self.emitted@[(
                        e,
                        client_id,
                    )] == eval_attrs(
                        old(self).conditions@[self.entities@[e]].condition,
                        avec@,
                    )),
            decreases n - i,
        {
            let cid = self.cond_ids[i];
            proof {
                assert(self.cond_ids@.contains(cid));
            }
            let entry_opt = self.conditions.remove(&cid);
            let mut entry = entry_opt.unwrap();
            let vis = {
                let a = self.clients.get(&client_id);
                eval_condition(&entry.condition, a.unwrap())
            };
            proof {
                assert(vis == eval_attrs(old(self).conditions@[cid].condition, avec@)) by {
                    assert(entry.condition.expr == old(self).conditions@[cid].condition.expr);
                }
            }
            let ghost conds_mid = self.conditions@;
            let m = entry.entities.len();
            let mut q: usize = 0;
            while q < m
                invariant
                    q <= m,
                    m == entry.entities@.len(),
                    old(self).inv(),
                    self.conditions@ == conds_mid,
                    self.clients@ == old(self).clients@.insert(client_id, avec),
                    self.client_ids@ == old(self).client_ids@.push(client_id),
                    self.attributes@ == old(self).attributes@,
                    self.condition_ids_buffer@ == old(self).condition_ids_buffer@,
                    self.entities_buffer@ == old(self).entities_buffer@,
                    self.client_ids_buffer@ == old(self).client_ids_buffer@,
                    self.attribute_ids_buffer@ == old(self).attribute_ids_buffer@,
                    self.server_id == old(self).server_id,
                    avec@.no_duplicates(),
                    !old(self).clients@.contains_key(client_id),
                    self.entities@ == old(self).entities@,
                    self.cond_ids@ == old(self).cond_ids@,
                    self.cond_ids@.no_duplicates(),
                    0 <= i < self.cond_ids@.len(),
                    cid == self.cond_ids@[i as int],
                    entry.entities@ == old(self).conditions@[cid].entities@,
                    old(self).conditions@.contains_key(cid),
                    entry.entities@.no_duplicates(),
                    forall|t: int|
                        0 <= t < entry.entities@.len() ==> self.entities@.contains_key(
                            #[trigger] entry.entities@[t],
                        ) && self.entities@[entry.entities@[t]] == cid,
                    vis == eval_attrs(old(self).conditions@[cid].condition, avec@),
                    updates@.len() >= u0.len(),
                    updates@.take(u0.len() as int) == u0,
                    forall|j: int|
                        u0.len() <= j < updates@.len() ==> (#[trigger] updates@[j]).client
                            == client_id,
                    self.emitted@ == apply_updates(m0, updates@.skip(u0.len() as int)),
                    forall|e: u64, k: u64|
                        k != client_id ==> (#[trigger] self.emitted@.contains_key((e, k))
                            == m0.contains_key((e, k)) && (self.emitted@.contains_key((e, k))
                            ==> self.emitted@[(e, k)] == m0[(e, k)])),
                    forall|e: u64| #[trigger]
                        self.emitted@.contains_key((e, client_id)) ==> self.entities@.contains_key(
                            e,
                        ) && (self.cond_ids@.take(i as int).contains(self.entities@[e]) || (
                        self.entities@[e] == cid && entry.entities@.take(q as int).contains(e))),
                    forall|e: u64|
                        self.entities@.contains_key(e) && self.cond_ids@.take(
                            i as int,
                        ).contains(#[trigger] self.entities@[e]) ==> (self.emitted@.contains_key(
                            (e, client_id),
                        ) && self.emitted@[(e, client_id)] == eval_attrs(
                            old(self).conditions@[self.entities@[e]].condition,
                            avec@,
                        )),
                    forall|e: u64|
                        #[trigger] self.entities@.contains_key(e) && self.entities@[e] == cid
                            && entry.entities@.take(q as int).contains(e) ==> (
                        self.emitted@.contains_key((e, client_id)) && self.emitted@[(
                            e,
                            client_id,
                        )] == vis),
                decreases m - q,
            {
                let ent = entry.entities[q];
                let u = VisibilityUpdate { entity: ent, client: client_id, visible: vis };
                proof {
                    lemma_apply_updates_push(m0, updates@.skip(u0.len() as int), u);
                    assert(updates@.push(u).skip(u0.len() as int) =~= updates@.skip(
                        u0.len() as int,
                    ).push(u));
                    assert(updates@.push(u).take(u0.len() as int) =~= updates@.take(
                        u0.len() as int,
                    ));
                }
                updates.push(u);
                proof {
                    self.emitted@ = self.emitted@.insert((ent, client_id), vis);
                    assert(entry.entities@.take(q + 1).drop_last() =~= entry.entities@.take(
                        q as int,
                    ));
                }
                q += 1;
            }
            if vis {
                proof {
                    assert(!entry.clients@.contains(client_id)) by {
                        if entry.clients@.contains(client_id) {
                            assert(old(self).conditions@[cid].clients@.contains(client_id));
                            assert(old(self).clients@.contains_key(client_id));
                        }
                    }
                }
                entry.clients.push(client_id);
            }
            self.conditions.insert(cid, entry);
            proof {
                assert(self.conditions@.dom() =~= old(self).conditions@.dom());
                assert(self.cond_ids@.take(i + 1).drop_last() =~= self.cond_ids@.take(i as int));
                assert forall|j: int, y: u64|
                    0 <= j < i + 1 implies ((#[trigger] self.conditions@[self.cond_ids@[j]].clients@.contains(
                    y,
                )) <==> (old(self).conditions@[self.cond_ids@[j]].clients@.contains(y) || (y
                    == client_id && eval_attrs(
                    old(self).conditions@[self.cond_ids@[j]].condition,
                    avec@,
                )))) by {
                    let cid2 = self.cond_ids@[j];
                    if j < i {
                        assert(cid2 != cid) by {
                            if cid2 == cid {
                                assert(!self.cond_ids@.no_duplicates() || j == i);
                            }
                        }
                    }
                }
            }
            i += 1;
        }
        proof {
            let fin = *self;
            let pre = *old(self);
            assert(self.cond_ids@.take(n as int) =~= self.cond_ids@);
            assert(fin.inv_conditions()) by {
                assert forall|cid: u128| #[trigger] fin.conditions@.contains_key(cid) implies {
                    let en = fin.conditions@[cid];
                    &&& en.condition.wf()
                    &&& spec_condition_id(en.condition.nodes@) == cid
                    &&& en.entities@.no_duplicates()
                    &&& en.entities@.len() > 0
                    &&& en.clients@.no_duplicates()
                    &&& (forall|t: int|
                        0 <= t < en.entities@.len() ==> fin.entities@.contains_key(
                            #[trigger] en.entities@[t],
                        ) && fin.entities@[en.entities@[t]] == cid)
                    &&& (forall|k: u64| #[trigger]
                        en.clients@.contains(k) ==> fin.clients@.contains_key(k) && eval_attrs(
                            en.condition,
                            fin.clients@[k]@,
                        ))
                    &&& (forall|k: u64|
                        fin.clients@.contains_key(k) && #[trigger] eval_attrs(
                            en.condition,
                            fin.clients@[k]@,
                        ) ==> en.clients@.contains(k))
                } by {
                    let en = fin.conditions@[cid];
                    let en0 = pre.conditions@[cid];
                    assert(fin.cond_ids@.contains(cid));
                    let j = choose|j: int|
                        0 <= j < fin.cond_ids@.len() && fin.cond_ids@[j] == cid;
                    assert(en.condition.wf() && spec_condition_id(en.condition.nodes@) == cid) by {
                        assert(en.condition.nodes@ == en0.condition.nodes@);
                        assert(en.condition.expr == en0.condition.expr);
                        assert(en0.condition.wf());
                    }
                    assert forall|k: u64| #[trigger] en.clients@.contains(k) implies
                        fin.clients@.contains_key(k) && eval_attrs(
                        en.condition,
                        fin.clients@[k]@,
                    ) by {
                        assert(en.clients@.contains(k) <==> (en0.clients@.contains(k) || (k
                            == client_id && eval_attrs(en0.condition, avec@))));
                        if k == client_id {
                            assert(fin.clients@[k]@ == avec@);
                            if en0.clients@.contains(k) {
                                assert(pre.clients@.contains_key(client_id));
                            }
                            assert(eval_attrs(en.condition, fin.clients@[k]@)) by {
                                assert(en.condition.expr == en0.condition.expr);
                            }
                        } else {
                            assert(en0.clients@.contains(k));
                            assert(pre.clients@.contains_key(k));
                            assert(fin.clients@[k]@ == pre.clients@[k]@);
                            assert(eval_attrs(en.condition, fin.clients@[k]@)) by {
                                assert(en.condition.expr == en0.condition.expr);
                            }
                        }
                    }
                    assert forall|k: u64|
                        fin.clients@.contains_key(k) && #[trigger] eval_attrs(
                            en.condition,
                            fin.clients@[k]@,
                        ) implies en.clients@.contains(k) by {
                        if k == client_id {
                            assert(fin.clients@[k]@ == avec@);
                            assert(eval_attrs(en0.condition, avec@)) by {
                                assert(en.condition.expr == en0.condition.expr);
                            }
                        } else {
                            assert(pre.clients@.contains_key(k));
                            assert(fin.clients@[k]@ == pre.clients@[k]@);
                            assert(eval_attrs(en0.condition, pre.clients@[k]@)) by {
                                assert(en.condition.expr == en0.condition.expr);
                            }
                            assert(en0.clients@.contains(k));
                        }
                    }
                }
            }
            assert(fin.inv_sink()) by {
                assert forall|e: u64, k: u64|
                    #[trigger] fin.entities@.contains_key(e) && #[trigger] fin.clients@.contains_key(
                    k,
                ) implies emitted_or_false(fin.emitted@, e, k) == eval_attrs(
                    fin.conditions@[fin.entities@[e]].condition,
                    fin.clients@[k]@,
                ) by {
                    let cid = fin.entities@[e];
                    assert(pre.conditions@.contains_key(cid));
                    assert(fin.cond_ids@.contains(cid));
                    assert(fin.conditions@[cid].condition.expr == pre.conditions@[cid].condition.expr);
                    if k == client_id {
                        assert(fin.emitted@.contains_key((e, client_id)) && fin.emitted@[(
                            e,
                            client_id,
                        )] == eval_attrs(pre.conditions@[cid].condition, avec@));
                        assert(fin.clients@[k]@ == avec@);
                    } else {
                        assert(pre.clients@.contains_key(k));
                        assert(pre.entities@.contains_key(e));
                        assert(fin.clients@[k]@ == pre.clients@[k]@);
                        assert(fin.emitted@.contains_key((e, k)) == m0.contains_key((e, k)));
                        if fin.emitted@.contains_key((e, k)) {
                            assert(fin.emitted@[(e, k)] == m0[(e, k)]);
                        }
                        assert(emitted_or_false(fin.emitted@, e, k) == emitted_or_false(
                            m0,
                            e,
                            k,
                        ));
                        assert(emitted_or_false(m0, e, k) == eval_attrs(
                            pre.conditions@[cid].condition,
                            pre.clients@[k]@,
                        ));
                    }
                }
                assert forall|p: (u64, u64)| #[trigger] fin.emitted@.contains_key(p) implies
                    fin.clients@.contains_key(p.1) by {
                    assert(p == (p.0, p.1));
                    if p.1 != client_id {
                        assert(fin.emitted@.contains_key((p.0, p.1)));
                        assert(m0.contains_key((p.0, p.1)));
                        assert(m0.contains_key(p));
                        assert(pre.clients@.contains_key(p.1));
                    }
                }
                assert forall|e: u64, k: u64| #[trigger]
                    emitted_or_false(fin.emitted@, e, k) implies fin.entities@.contains_key(
                    e,
                ) by {
                    if k != client_id {
                        assert(emitted_or_false(m0, e, k));
                    }
                }
            }
            assert(fin.clients@ =~= pre.clients@.insert(client_id, avec));
        }
    }

    /// Adds an attribute to a client. A no-op if the client already holds
    /// the attribute; otherwise exactly the conditions referencing the
    /// attribute are re-evaluated for this client, and the new boolean is
    /// forwarded for every entity carrying such a condition.
    ///
    /// A previously unknown client gets a fresh record holding only this
    /// attribute, with its visibility computed against every tracked
    /// condition.
    pub fn add_client_attribute(
        &mut self,
        client_id: u64,
        attribute: VisibilityAttributeId,
        updates: &mut Vec<VisibilityUpdate>,
    )
        requires
            old(self).inv(),
        ensures
            final(self).inv(),
            final(self).clients@.contains_key(client_id),
            forall|x: VisibilityAttributeId|
                #[trigger] final(self).clients@[client_id]@.contains(x) <==> ((old(
                    self,
                ).clients@.contains_key(client_id) && old(self).clients@[client_id]@.contains(x))
                    || x == attribute),
            forall|k: u64|
                k != client_id ==> (#[trigger] final(self).clients@.contains_key(k) == old(
                    self,
                ).clients@.contains_key(k) && (final(self).clients@.contains_key(k)
                    ==> final(self).clients@[k]@ == old(self).clients@[k]@)),
            final(self).entities@ == old(self).entities@,
            final(self).attributes@ == old(self).attributes@,
            final(self).conditions@.dom() == old(self).conditions@.dom(),
            final(self).server_id == old(self).server_id,
            final(updates)@.len() >= old(updates)@.len(),
            final(updates)@.take(old(updates)@.len() as int) == old(updates)@,
            forall|j: int|
                old(updates)@.len() <= j < final(updates)@.len()
                    ==> (#[trigger] final(updates)@[j]).client == client_id,
            final(self).emitted@ == apply_updates(
                old(self).emitted@,
                final(updates)@.skip(old(updates)@.len() as int),
            ),
            old(self).clients@.contains_key(client_id) && old(
                self,
            ).clients@[client_id]@.contains(attribute) ==> (final(updates)@ == old(updates)@
                && final(self).emitted@ == old(self).emitted@ && final(self).clients@ == old(
                self,
            ).clients@),
    {
        self.update_client_visibility(client_id, attribute, true, updates);
        proof {
            if old(self).clients@.contains_key(client_id) && old(
                self,
            ).clients@[client_id]@.contains(attribute) {
                assert(final(updates)@ =~= old(updates)@);
            }
        }
    }

    /// Removes an attribute from a client. A no-op if the client does not
    /// hold the attribute; otherwise exactly the conditions referencing the
    /// attribute are re-evaluated for this client, and the new boolean is
    /// forwarded for every entity carrying such a condition.
    ///
    /// A previously unknown client gets a fresh, empty record.
    pub fn remove_client_attribute(
        &mut self,
        client_id: u64,
        attribute: VisibilityAttributeId,
        updates: &mut Vec<VisibilityUpdate>,
    )
        requires
            old(self).inv(),
        ensures
            final(self).inv(),
            final(self).clients@.contains_key(client_id),
            forall|x: VisibilityAttributeId|
                #[trigger] final(self).clients@[client_id]@.contains(x) <==> (old(
                    self,
                ).clients@.contains_key(client_id) && old(self).clients@[client_id]@.contains(x)
                    && x != attribute),
            forall|k: u64|
                k != client_id ==> (#[trigger] final(self).clients@.contains_key(k) == old(
                    self,
                ).clients@.contains_key(k) && (final(self).clients@.contains_key(k)
                    ==> final(self).clients@[k]@ == old(self).clients@[k]@)),
            final(self).entities@ == old(self).entities@,
            final(self).attributes@ == old(self).attributes@,
            final(self).conditions@.dom() == old(self).conditions@.dom(),
            final(self).server_id == old(self).server_id,
            final(updates)@.len() >= old(updates)@.len(),
            final(updates)@.take(old(updates)@.len() as int) == old(updates)@,
            forall|j: int|
                old(updates)@.len() <= j < final(updates)@.len()
                    ==> (#[trigger] final(updates)@[j]).client == client_id,
            final(self).emitted@ == apply_updates(
                old(self).emitted@,
                final(updates)@.skip(old(updates)@.len() as int),
            ),
    {
        self.update_client_visibility(client_id, attribute, false, updates);
    }

    /// Updates a client's visibility relative to a specific attribute:
    /// inserts or removes the attribute, then re-evaluates exactly the
    /// conditions that reference it.
    fn update_client_visibility(
        &mut self,
        client_id: u64,
        attribute: VisibilityAttributeId,
        insert: bool,
        updates: &mut Vec<VisibilityUpdate>,
    )
        requires
            old(self).inv(),
        ensures
            final(self).inv(),
            final(self).clients@.contains_key(client_id),
            forall|x: VisibilityAttributeId|
                #[trigger] final(self).clients@[client_id]@.contains(x) <==> ((old(
                    self,
                ).clients@.contains_key(client_id) && old(self).clients@[client_id]@.contains(x)
                    && !(!insert && x == attribute)) || (insert && x == attribute)),
            forall|k: u64|
                k != client_id ==> (#[trigger] final(self).clients@.contains_key(k) == old(
                    self,
                ).clients@.contains_key(k) && (final(self).clients@.contains_key(k)
                    ==> final(self).clients@[k]@ == old(self).clients@[k]@)),
            final(self).entities@ == old(self).entities@,
            final(self).attributes@ == old(self).attributes@,
            final(self).conditions@.dom() == old(self).conditions@.dom(),
            final(self).server_id == old(self).server_id,
            final(updates)@.len() >= old(updates)@.len(),
            final(updates)@.take(old(updates)@.len() as int) == old(updates)@,
            forall|j: int|
                old(updates)@.len() <= j < final(updates)@.len()
                    ==> (#[trigger] final(updates)@[j]).client == client_id,
            final(self).emitted@ == apply_updates(
                old(self).emitted@,
                final(updates)@.skip(old(updates)@.len() as int),
            ),
            old(self).clients@.contains_key(client_id) && (old(
                self,
            ).clients@[client_id]@.contains(attribute) == insert) ==> (final(updates)@ == old(
                updates,
            )@ && final(self).emitted@ == old(self).emitted@ && final(self).clients@ == old(
                self,
            ).clients@),
    {
        let ghost m0 = old(self).emitted@;
        let ghost u0 = old(updates)@;
        if !self.clients.contains_key(&client_id) {
            let mut attrs = acquire_buffer(&mut self.attribute_ids_buffer);
            if insert {
                proof {
                    lemma_push_unique(attrs@, attribute);
                }
                attrs.push(attribute);
            }
            self.install_client(client_id, attrs, updates);
            return;
        }
        let attrs_opt = self.clients.remove(&client_id);
        let mut attrs = attrs_opt.unwrap();
        let ghost oa = attrs@;
        let changed: bool;
        if insert {
            if vec_contains_attr(&attrs, attribute) {
                changed = false;
            } else {
                proof {
                    lemma_push_unique(attrs@, attribute);
                }
                attrs.push(attribute);
                changed = true;
            }
        } else {
            changed = vec_remove_value_attr(&mut attrs, attribute);
        }
        let ghost na = attrs@;
        let ghost avec = attrs;
        self.clients.insert(client_id, attrs);
        if !changed {
            proof {
                assert(self.clients@ =~= old(self).clients@);
                assert(updates@.skip(u0.len() as int) =~= Seq::<VisibilityUpdate>::empty());
                assert(updates@.take(u0.len() as int) =~= u0);
            }
            return;
        }
        proof {
            assert(na.no_duplicates());
            assert(forall|x: VisibilityAttributeId|
                x != attribute ==> #[trigger] na.contains(x) == oa.contains(x));
            assert(na.contains(attribute) == insert);
        }
        let akey = attribute.key();
        let cond_list: Vec<u128> = match self.attributes.get(&akey) {
            Some(ids) => copy_u128s(ids),
            None => Vec::new(),
        };
        proof {
            assert(cond_list@.no_duplicates() && (forall|cid: u128| #[trigger]
                cond_list@.contains(cid) ==> (old(self).attributes@.contains_key(akey) && old(
                    self,
                ).attributes@[akey]@.contains(cid)))) by {
                if old(self).attributes@.contains_key(akey) {
                    assert(old(self).attributes@[akey]@.no_duplicates());
                }
            }
            assert(forall|cid: u128|
                old(self).conditions@.contains_key(cid) && !(#[trigger] cond_list@.contains(cid))
                    ==> !mentioned_keys(old(self).conditions@[cid].condition.nodes@).contains(
                    akey,
                ));
        }
        let n = cond_list.len();
        let mut i: usize = 0;
        while i < n
            invariant
                i <= n,
                n == cond_list@.len(),
                old(self).inv(),
                old(self).clients@.contains_key(client_id),
                oa == old(self).clients@[client_id]@,
                na.no_duplicates(),
                avec@ == na,
                forall|x: VisibilityAttributeId|
                    x != attribute ==> #[trigger] na.contains(x) == oa.contains(x),
                na.contains(attribute) == insert,
                akey == attribute.spec_key(),
                cond_list@.no_duplicates(),
                forall|cid: u128| #[trigger]
                    cond_list@.contains(cid) ==> old(self).conditions@.contains_key(cid),
                forall|cid: u128|
                    old(self).conditions@.contains_key(cid) && !(#[trigger] cond_list@.contains(
                        cid,
                    )) ==> !mentioned_keys(old(self).conditions@[cid].condition.nodes@).contains(
                        akey,
                    ),
                self.clients@ == old(self).clients@.insert(client_id, avec),
                self.client_ids@ == old(self).client_ids@,
                self.entities@ == old(self).entities@,
                self.attributes@ == old(self).attributes@,
                self.cond_ids@ == old(self).cond_ids@,
                self.conditions@.dom() == old(self).conditions@.dom(),
                self.condition_ids_buffer@ == old(self).condition_ids_buffer@,
                self.entities_buffer@ == old(self).entities_buffer@,
                self.client_ids_buffer@ == old(self).client_ids_buffer@,
                self.attribute_ids_buffer@ == old(self).attribute_ids_buffer@,
                self.server_id == old(self).server_id,
                forall|cid: u128| #[trigger]
                    self.conditions@.contains_key(cid) ==> {
                        &&& self.conditions@[cid].condition.nodes@ == old(
                            self,
                        ).conditions@[cid].condition.nodes@
                        &&& self.conditions@[cid].condition.expr == old(
                            self,
                        ).conditions@[cid].condition.expr
                        &&& self.conditions@[cid].entities@ == old(
                            self,
                        ).conditions@[cid].entities@
                        &&& self.conditions@[cid].clients@.no_duplicates()
                    },
                forall|cid: u128, y: u64|
                    cond_list@.take(i as int).contains(cid) ==> ((#[trigger] self.conditions@[cid].clients@.contains(
                        y,
                    )) <==> ((y != client_id && old(self).conditions@[cid].clients@.contains(y))
                        || (y == client_id && eval_attrs(
                        old(self).conditions@[cid].condition,
                        na,
                    )))),
                forall|cid: u128|
                    #[trigger] self.conditions@.contains_key(cid) && !cond_list@.take(
                        i as int,
                    ).contains(cid) ==> self.conditions@[cid].clients@ == old(
                        self,
                    ).conditions@[cid].clients@,
                updates@.len() >= u0.len(),
                updates@.take(u0.len() as int) == u0,
                forall|j: int|
                    u0.len() <= j < updates@.len() ==> (#[trigger] updates@[j]).client
                        == client_id,
                self.emitted@ == apply_updates(m0, updates@.skip(u0.len() as int)),
                forall|e: u64, k: u64|
                    k != client_id ==> (#[trigger] self.emitted@.contains_key((e, k))
                        == m0.contains_key((e, k)) && (self.emitted@.contains_key((e, k))
                        ==> self.emitted@[(e, k)] == m0[(e, k)])),
                forall|e: u64|
                    self.entities@.contains_key(e) && cond_list@.take(i as int).contains(
                        #[trigger] self.entities@[e],
                    ) ==> (self.emitted@.contains_key((e, client_id)) && self.emitted@[(
                        e,
                        client_id,
                    )] == eval_attrs(
                        old(self).conditions@[self.entities@[e]].condition,
                        na,
                    )),
                forall|e: u64|
                    !(self.entities@.contains_key(e) && cond_list@.take(i as int).contains(
                        self.entities@[e],
                    )) ==> ((#[trigger] self.emitted@.contains_key((e, client_id)))
                        == m0.contains_key((e, client_id)) && (self.emitted@.contains_key(
                        (e, client_id),
                    ) ==> self.emitted@[(e, client_id)] == m0[(e, client_id)])),
            decreases n - i,
        {
            let cid = cond_list[i];
            proof {
                assert(cond_list@.contains(cid));
            }
            let entry_opt = self.conditions.remove(&cid);
            let mut entry = entry_opt.unwrap();
            let vis = {
                let a = self.clients.get(&client_id);
                eval_condition(&entry.condition, a.unwrap())
            };
            proof {
                assert(vis == eval_attrs(old(self).conditions@[cid].condition, na)) by {
                    assert(entry.condition.expr == old(self).conditions@[cid].condition.expr);
                }
            }
            if vis {
                if !vec_contains_u64(&entry.clients, client_id) {
                    proof {
                        lemma_push_unique_u64(entry.clients@, client_id);
                    }
                    entry.clients.push(client_id);
                }
            } else {
                vec_remove_value_u64(&mut entry.clients, client_id);
            }
            let ghost conds_mid = self.conditions@;
            let m = entry.entities.len();
            let mut q: usize = 0;
            while q < m
                invariant
                    q <= m,
                    m == entry.entities@.len(),
                    old(self).inv(),
                    self.conditions@ == conds_mid,
                    self.clients@ == old(self).clients@.insert(client_id, avec),
                    self.client_ids@ == old(self).client_ids@,
                    self.entities@ == old(self).entities@,
                    self.attributes@ == old(self).attributes@,
                    self.cond_ids@ == old(self).cond_ids@,
                    self.condition_ids_buffer@ == old(self).condition_ids_buffer@,
                    self.entities_buffer@ == old(self).entities_buffer@,
                    self.client_ids_buffer@ == old(self).client_ids_buffer@,
                    self.attribute_ids_buffer@ == old(self).attribute_ids_buffer@,
                    self.server_id == old(self).server_id,
                    avec@ == na,
                    cond_list@.no_duplicates(),
                    n == cond_list@.len(),
                    0 <= i < n,
                    cid == cond_list@[i as int],
                    old(self).conditions@.contains_key(cid),
                    entry.entities@ == old(self).conditions@[cid].entities@,
                    entry.entities@.no_duplicates(),
                    forall|t: int|
                        0 <= t < entry.entities@.len() ==> self.entities@.contains_key(
                            #[trigger] entry.entities@[t],
                        ) && self.entities@[entry.entities@[t]] == cid,
                    vis == eval_attrs(old(self).conditions@[cid].condition, na),
                    updates@.len() >= u0.len(),
                    updates@.take(u0.len() as int) == u0,
                    forall|j: int|
                        u0.len() <= j < updates@.len() ==> (#[trigger] updates@[j]).client
                            == client_id,
                    self.emitted@ == apply_updates(m0, updates@.skip(u0.len() as int)),
                    forall|e: u64, k: u64|
                        k != client_id ==> (#[trigger] self.emitted@.contains_key((e, k))
                            == m0.contains_key((e, k)) && (self.emitted@.contains_key((e, k))
                            ==> self.emitted@[(e, k)] == m0[(e, k)])),
                    forall|e: u64|
                        self.entities@.contains_key(e) && cond_list@.take(i as int).contains(
                            #[trigger] self.entities@[e],
                        ) ==> (self.emitted@.contains_key((e, client_id)) && self.emitted@[(
                            e,
                            client_id,
                        )] == eval_attrs(
                            old(self).conditions@[self.entities@[e]].condition,
                            na,
                        )),
                    forall|e: u64|
                        #[trigger] self.entities@.contains_key(e) && self.entities@[e] == cid
                            && entry.entities@.take(q as int).contains(e) ==> (
                        self.emitted@.contains_key((e, client_id)) && self.emitted@[(
                            e,
                            client_id,
                        )] == vis),
                    forall|e: u64|
                        !(self.entities@.contains_key(e) && (cond_list@.take(i as int).contains(
                            self.entities@[e],
                        ) || (self.entities@[e] == cid && entry.entities@.take(
                            q as int,
                        ).contains(e)))) ==> ((#[trigger] self.emitted@.contains_key(
                            (e, client_id),
                        )) == m0.contains_key((e, client_id)) && (self.emitted@.contains_key(
                            (e, client_id),
                        ) ==> self.emitted@[(e, client_id)] == m0[(e, client_id)])),
                decreases m - q,
            {
                let ent = entry.entities[q];
                let u = VisibilityUpdate { entity: ent, client: client_id, visible: vis };
                proof {
                    lemma_apply_updates_push(m0, updates@.skip(u0.len() as int), u);
                    assert(updates@.push(u).skip(u0.len() as int) =~= updates@.skip(
                        u0.len() as int,
                    ).push(u));
                    assert(updates@.push(u).take(u0.len() as int) =~= updates@.take(
                        u0.len() as int,
                    ));
                }
                updates.push(u);
                proof {
                    self.emitted@ = self.emitted@.insert((ent, client_id), vis);
                    assert(entry.entities@.take(q + 1).drop_last() =~= entry.entities@.take(
                        q as int,
                    ));
                }
                q += 1;
            }
            self.conditions.insert(cid, entry);
            proof {
                assert(self.conditions@.dom() =~= old(self).conditions@.dom());
                assert(entry.entities@.take(m as int) =~= entry.entities@);
                assert(cond_list@.take(i + 1).drop_last() =~= cond_list@.take(i as int));
                assert forall|cid2: u128, y: u64|
                    cond_list@.take(i + 1).contains(cid2) implies ((#[trigger] self.conditions@[cid2].clients@.contains(
                    y,
                )) <==> ((y != client_id && old(self).conditions@[cid2].clients@.contains(y)) || (
                y == client_id && eval_attrs(old(self).conditions@[cid2].condition, na)))) by {
                    if cid2 != cid {
                        assert(cond_list@.take(i as int).contains(cid2)) by {
                            let j = choose|j: int|
                                0 <= j <= i && (#[trigger] cond_list@.take(i + 1)[j]) == cid2;
                            assert(cond_list@.take(i as int)[j] == cid2);
                        }
                    }
                }
                assert forall|e: u64|
                    self.entities@.contains_key(e) && cond_list@.take(i + 1).contains(
                        #[trigger] self.entities@[e],
                    ) implies (self.emitted@.contains_key((e, client_id)) && self.emitted@[(
                    e,
                    client_id,
                )] == eval_attrs(
                    old(self).conditions@[self.entities@[e]].condition,
                    na,
                )) by {
                    let cid2 = self.entities@[e];
                    if cid2 != cid {
                        assert(cond_list@.take(i as int).contains(cid2)) by {
                            let j = choose|j: int|
                                0 <= j <= i && (#[trigger] cond_list@.take(i + 1)[j]) == cid2;
                            assert(cond_list@.take(i as int)[j] == cid2);
                        }
                    } else {
                        assert(old(self).conditions@[cid].entities@.contains(e)) by {
                            assert(old(self).inv());
                            assert(old(self).entities@.contains_key(e)
                                && old(self).entities@[e] == cid);
                        }
                    }
                }
            }
            i += 1;
        }
        proof {
            let fin = *self;
            let pre = *old(self);
            assert(cond_list@.take(n as int) =~= cond_list@);
            assert(fin.inv_conditions()) by {
                assert forall|cid: u128| #[trigger] fin.conditions@.contains_key(cid) implies {
                    let en = fin.conditions@[cid];
                    &&& en.condition.wf()
                    &&& spec_condition_id(en.condition.nodes@) == cid
                    &&& en.entities@.no_duplicates()
                    &&& en.entities@.len() > 0
                    &&& en.clients@.no_duplicates()
                    &&& (forall|t: int|
                        0 <= t < en.entities@.len() ==> fin.entities@.contains_key(
                            #[trigger] en.entities@[t],
                        ) && fin.entities@[en.entities@[t]] == cid)
                    &&& (forall|k: u64| #[trigger]
                        en.clients@.contains(k) ==> fin.clients@.contains_key(k) && eval_attrs(
                            en.condition,
                            fin.clients@[k]@,
                        ))
                    &&& (forall|k: u64|
                        fin.clients@.contains_key(k) && #[trigger] eval_attrs(
                            en.condition,
                            fin.clients@[k]@,
                        ) ==> en.clients@.contains(k))
                } by {
                    let en = fin.conditions@[cid];
                    let en0 = pre.conditions@[cid];
                    assert(en.condition.wf() && spec_condition_id(en.condition.nodes@) == cid) by {
                        assert(en.condition.nodes@ == en0.condition.nodes@);
                        assert(en.condition.expr == en0.condition.expr);
                        assert(en0.condition.wf());
                    }
                    if !cond_list@.contains(cid) {
                        assert(en.clients@ == en0.clients@);
                        assert(!mentioned_keys(en0.condition.nodes@).contains(akey));
                        lemma_eval_unmentioned(en0.condition, oa, na, attribute);
                        assert(eval_attrs(en0.condition, oa) == eval_attrs(en0.condition, na));
                    }
                    assert forall|k: u64| #[trigger] en.clients@.contains(k) implies
                        fin.clients@.contains_key(k) && eval_attrs(
                        en.condition,
                        fin.clients@[k]@,
                    ) by {
                        if cond_list@.contains(cid) {
                            if k == client_id {
                                assert(eval_attrs(en0.condition, na));
                                assert(fin.clients@[k]@ == na);
                            } else {
                                assert(en0.clients@.contains(k));
                                assert(pre.clients@.contains_key(k));
                                assert(fin.clients@[k]@ == pre.clients@[k]@);
                            }
                        } else {
                            assert(en0.clients@.contains(k));
                            assert(pre.clients@.contains_key(k));
                            if k == client_id {
                                assert(eval_attrs(en0.condition, oa));
                                assert(eval_attrs(en0.condition, na));
                                assert(fin.clients@[k]@ == na);
                            } else {
                                assert(fin.clients@[k]@ == pre.clients@[k]@);
                            }
                        }
                        assert(eval_attrs(en.condition, fin.clients@[k]@)) by {
                            assert(en.condition.expr == en0.condition.expr);
                        }
                    }
                    assert forall|k: u64|
                        fin.clients@.contains_key(k) && #[trigger] eval_attrs(
                            en.condition,
                            fin.clients@[k]@,
                        ) implies en.clients@.contains(k) by {
                        assert(eval_attrs(en0.condition, fin.clients@[k]@)) by {
                            assert(en.condition.expr == en0.condition.expr);
                        }
                        if cond_list@.contains(cid) {
                            if k == client_id {
                                assert(fin.clients@[k]@ == na);
                            } else {
                                assert(pre.clients@.contains_key(k));
                                assert(fin.clients@[k]@ == pre.clients@[k]@);
                                assert(en0.clients@.contains(k));
                            }
                        } else {
                            if k == client_id {
                                assert(fin.clients@[k]@ == na);
                                assert(eval_attrs(en0.condition, oa));
                                assert(en0.clients@.contains(k));
                            } else {
                                assert(pre.clients@.contains_key(k));
                                assert(fin.clients@[k]@ == pre.clients@[k]@);
                                assert(en0.clients@.contains(k));
                            }
                            assert(en.clients@ == en0.clients@);
                        }
                    }
                }
            }
            assert(fin.inv_sink()) by {
                assert forall|e: u64, k: u64|
                    #[trigger] fin.entities@.contains_key(e) && #[trigger] fin.clients@.contains_key(
                    k,
                ) implies emitted_or_false(fin.emitted@, e, k) == eval_attrs(
                    fin.conditions@[fin.entities@[e]].condition,
                    fin.clients@[k]@,
                ) by {
                    let cid = fin.entities@[e];
                    assert(pre.entities@.contains_key(e) && pre.entities@[e] == cid);
                    assert(pre.conditions@.contains_key(cid));
                    assert(fin.conditions@[cid].condition.expr == pre.conditions@[cid].condition.expr);
                    if k == client_id {
                        assert(fin.clients@[k]@ == na);
                        if cond_list@.contains(cid) {
                            assert(fin.emitted@.contains_key((e, client_id)) && fin.emitted@[(
                                e,
                                client_id,
                            )] == eval_attrs(pre.conditions@[cid].condition, na));
                        } else {
                            assert(fin.emitted@.contains_key((e, client_id)) == m0.contains_key(
                                (e, client_id),
                            ) && (fin.emitted@.contains_key((e, client_id))
                                ==> fin.emitted@[(e, client_id)] == m0[(e, client_id)]));
                            assert(emitted_or_false(fin.emitted@, e, client_id)
                                == emitted_or_false(m0, e, client_id));
                            assert(pre.clients@.contains_key(client_id));
                            assert(emitted_or_false(m0, e, client_id) == eval_attrs(
                                pre.conditions@[cid].condition,
                                oa,
                            ));
                            assert(!mentioned_keys(pre.conditions@[cid].condition.nodes@).contains(
                                akey,
                            ));
                            lemma_eval_unmentioned(pre.conditions@[cid].condition, oa, na, attribute);
                        }
                    } else {
                        assert(pre.clients@.contains_key(k));
                        assert(fin.clients@[k]@ == pre.clients@[k]@);
                        assert(fin.emitted@.contains_key((e, k)) == m0.contains_key((e, k)));
                        if fin.emitted@.contains_key((e, k)) {
                            assert(fin.emitted@[(e, k)] == m0[(e, k)]);
                        }
                        assert(emitted_or_false(fin.emitted@, e, k) == emitted_or_false(
                            m0,
                            e,
                            k,
                        ));
                        assert(emitted_or_false(m0, e, k) == eval_attrs(
                            pre.conditions@[cid].condition,
                            pre.clients@[k]@,
                        ));
                    }
                }
                assert forall|p: (u64, u64)| #[trigger] fin.emitted@.contains_key(p) implies
                    fin.clients@.contains_key(p.1) by {
                    assert(p == (p.0, p.1));
                    if p.1 != client_id {
                        assert(fin.emitted@.contains_key((p.0, p.1)));
                        assert(m0.contains_key((p.0, p.1)));
                        assert(m0.contains_key(p));
                        assert(pre.clients@.contains_key(p.1));
                    }
                }
                assert forall|e: u64, k: u64| #[trigger]
                    emitted_or_false(fin.emitted@, e, k) implies fin.entities@.contains_key(
                    e,
                ) by {
                    if k != client_id {
                        assert(emitted_or_false(m0, e, k));
                    } else {
                        if !(fin.entities@.contains_key(e) && cond_list@.contains(
                            fin.entities@[e],
                        )) {
                            assert(emitted_or_false(m0, e, client_id));
                        }
                    }
                }
            }
        }
    }

    /// Repairs a client by recomputing its visibility from retained state:
    /// the client's attributes are kept (a new record is opened if none
    /// exists), the builtin [`Global`] and [`Client`] attributes are
    /// inserted, and every tracked condition is re-evaluated against the
    /// retained attribute set, re-populating client sets and forwarding the
    /// resulting true/false for every relevant entity.
    pub fn repair_client(&mut self, client_id: u64, updates: &mut Vec<VisibilityUpdate>)
        requires
            old(self).inv(),
        ensures
            final(self).inv(),
            final(self).clients@.contains_key(client_id),
            forall|x: VisibilityAttributeId|
                #[trigger] final(self).clients@[client_id]@.contains(x) <==> ((old(
                    self,
                ).clients@.contains_key(client_id) && old(self).clients@[client_id]@.contains(x))
                    || x == crate::builtin_attributes::global_attribute_id() || x
                    == crate::builtin_attributes::client_attribute_id(client_id)),
            forall|k: u64|
                k != client_id ==> (#[trigger] final(self).clients@.contains_key(k) == old(
                    self,
                ).clients@.contains_key(k) && (final(self).clients@.contains_key(k)
                    ==> final(self).clients@[k]@ == old(self).clients@[k]@)),
            final(self).entities@ == old(self).entities@,
            final(self).attributes@ == old(self).attributes@,
            final(self).conditions@.dom() == old(self).conditions@.dom(),
            forall|cid: u128| #[trigger]
                final(self).conditions@.contains_key(cid) ==> {
                    &&& final(self).conditions@[cid].condition.nodes@ == old(
                        self,
                    ).conditions@[cid].condition.nodes@
                    &&& final(self).conditions@[cid].condition.expr == old(
                        self,
                    ).conditions@[cid].condition.expr
                    &&& final(self).conditions@[cid].entities@ == old(
                        self,
                    ).conditions@[cid].entities@
                },
            final(self).server_id == old(self).server_id,
            final(updates)@.len() >= old(updates)@.len(),
            final(updates)@.take(old(updates)@.len() as int) == old(updates)@,
            forall|j: int|
                old(updates)@.len() <= j < final(updates)@.len()
                    ==> (#[trigger] final(updates)@[j]).client == client_id,
            final(self).emitted@ == apply_updates(
                old(self).emitted@.remove_keys(client_pairs(client_id)),
                final(updates)@.skip(old(updates)@.len() as int),
            ),
    {
        let prior = self.take_client_attrs(client_id);
        let mut attrs = match prior {
            Some(v) => v,
            None => acquire_buffer(&mut self.attribute_ids_buffer),
        };
        let g = Global.attribute_id();
        let c = Client(client_id).attribute_id();
        if !vec_contains_attr(&attrs, g) {
            proof {
                lemma_push_unique(attrs@, g);
            }
            attrs.push(g);
        }
        if !vec_contains_attr(&attrs, c) {
            proof {
                lemma_push_unique(attrs@, c);
            }
            attrs.push(c);
        }
        self.install_client(client_id, attrs, updates);
    }

    /// Resets a client in the cache: registered attributes are cleared and
    /// the client starts over with only the builtin [`Global`] and
    /// [`Client`] attributes, its visibility recomputed against every
    /// currently tracked condition.
    pub fn reset_client(&mut self, client_id: u64, updates: &mut Vec<VisibilityUpdate>)
        requires
            old(self).inv(),
        ensures
            final(self).inv(),
            final(self).clients@.contains_key(client_id),
            forall|x: VisibilityAttributeId|
                #[trigger] final(self).clients@[client_id]@.contains(x) <==> (x
                    == crate::builtin_attributes::global_attribute_id() || x
                    == crate::builtin_attributes::client_attribute_id(client_id)),
            forall|k: u64|
                k != client_id ==> (#[trigger] final(self).clients@.contains_key(k) == old(
                    self,
                ).clients@.contains_key(k) && (final(self).clients@.contains_key(k)
                    ==> final(self).clients@[k]@ == old(self).clients@[k]@)),
            final(self).entities@ == old(self).entities@,
            final(self).attributes@ == old(self).attributes@,
            final(self).conditions@.dom() == old(self).conditions@.dom(),
            final(self).server_id == old(self).server_id,
            final(updates)@.len() >= old(updates)@.len(),
            final(updates)@.take(old(updates)@.len() as int) == old(updates)@,
            forall|j: int|
                old(updates)@.len() <= j < final(updates)@.len()
                    ==> (#[trigger] final(updates)@[j]).client == client_id,
            final(self).emitted@ == apply_updates(
                old(self).emitted@.remove_keys(client_pairs(client_id)),
                final(updates)@.skip(old(updates)@.len() as int),
            ),
    {
        match self.take_client_attrs(client_id) {
            Some(v) => {
                release_buffer(&mut self.attribute_ids_buffer, v);
            },
            None => {},
        }
        let mut attrs = acquire_buffer(&mut self.attribute_ids_buffer);
        let g = Global.attribute_id();
        let c = Client(client_id).attribute_id();
        proof {
            lemma_push_unique(attrs@, g);
        }
        attrs.push(g);
        proof {
            assert(g.type_tag != c.type_tag);
            lemma_push_unique(attrs@, c);
        }
        attrs.push(c);
        self.install_client(client_id, attrs, updates);
    }

    /// Adds a special 'server player' that is always considered a known
    /// client; it starts with the builtin attributes, like any reset
    /// client.
    pub fn add_server_as_client(&mut self, server_id: u64, updates: &mut Vec<VisibilityUpdate>)
        requires
            old(self).inv(),
        ensures
            final(self).inv(),
            final(self).server_id == Some(server_id),
            final(self).clients@.contains_key(server_id),
            final(self).entities@ == old(self).entities@,
            final(self).conditions@.dom() == old(self).conditions@.dom(),
    {
        self.server_id = Some(server_id);
        self.reset_client(server_id, updates);
    }

    /// Updates an entity's visibility condition.
    ///
    /// A no-op if the entity already carries a condition with the same
    /// condition id. If it carries a different condition, that old
    /// association is removed first ("false" forwarded to its watchers); an
    /// entity carries at most one condition at a time.
    ///
    /// If the condition id is new to the cache, visibility is freshly
    /// computed against every known client's attribute set and "true"
    /// forwarded for the matching clients; if another entity already uses
    /// the same condition id, the existing client set is reused as-is and
    /// "true" is forwarded to exactly those clients — identical conditions
    /// across many entities share one evaluation.
    /// Updates an entity's visibility condition.
    ///
    /// A no-op if the entity already carries a condition with the same
    /// condition id. If it carries a different condition, that old
    /// association is removed first ("false" forwarded to its watchers); an
    /// entity carries at most one condition at a time.
    ///
    /// If the condition id is new to the cache, visibility is freshly
    /// computed against every known client's attribute set and "true"
    /// forwarded for the matching clients; if another entity already uses
    /// the same condition id, the existing client set is reused as-is and
    /// "true" is forwarded to exactly those clients — identical conditions
    /// across many entities share one evaluation.
    pub fn add_entity_condition(
        &mut self,
        entity: u64,
        condition: &VisibilityCondition,
        updates: &mut Vec<VisibilityUpdate>,
    )
        requires
            old(self).inv(),
            condition.wf(),
        ensures
            final(self).inv(),
            final(self).entities@ =~= old(self).entities@.insert(
                entity,
                spec_condition_id(condition.nodes@),
            ),
            final(self).conditions@.contains_key(spec_condition_id(condition.nodes@)),
            final(self).clients@ == old(self).clients@,
            final(self).server_id == old(self).server_id,
            final(updates)@.len() >= old(updates)@.len(),
            final(updates)@.take(old(updates)@.len() as int) == old(updates)@,
            final(self).emitted@ == apply_updates(
                old(self).emitted@,
                final(updates)@.skip(old(updates)@.len() as int),
            ),
            old(self).entities@.contains_key(entity) && old(self).entities@[entity]
                == spec_condition_id(condition.nodes@) ==> (final(updates)@ == old(updates)@
                && final(self).emitted@ == old(self).emitted@),
    {
        let ghost m0 = old(self).emitted@;
        let ghost u0 = old(updates)@;
        let cid_value = condition.condition_id();
        let cid = cid_value.0;
        let proceed = self.remove_entity_with_check(entity, Some(cid), updates);
        if !proceed {
            proof {
                assert(old(self).entities@.contains_key(entity) && old(self).entities@[entity]
                    == cid);
                assert(self.entities@ =~= old(self).entities@.insert(entity, cid));
                assert(self.conditions@.contains_key(cid));
            }
            return;
        }
        let ghost mid = *self;
        let ghost mid_updates = updates@;
        proof {
            assert(mid.inv());
            assert(!mid.entities@.contains_key(entity));
            assert(mid_updates.take(u0.len() as int) == u0);
            assert(mid.emitted@ == apply_updates(m0, mid_updates.skip(u0.len() as int)));
        }
        if self.conditions.contains_key(&cid) {
            self.attach_existing_condition(entity, cid, updates);
        } else {
            self.attach_new_condition(entity, cid, condition, updates);
        }
        proof {
            lemma_apply_updates_concat(
                m0,
                mid_updates.skip(u0.len() as int),
                updates@.skip(mid_updates.len() as int),
            );
            assert(mid_updates.skip(u0.len() as int) + updates@.skip(mid_updates.len() as int)
                =~= updates@.skip(u0.len() as int));
            assert(updates@.take(u0.len() as int) =~= u0) by {
                assert forall|j: int| 0 <= j < u0.len() implies updates@.take(
                    u0.len() as int,
                )[j] == u0[j] by {
                    assert(updates@.take(mid_updates.len() as int)[j] == mid_updates[j]);
                    assert(mid_updates.take(u0.len() as int)[j] == u0[j]);
                }
            }
            assert(self.entities@ =~= old(self).entities@.insert(entity, cid));
        }
    }

    /// Attaches an untracked entity to an already-tracked condition: the
    /// existing client set is reused as-is and "true" forwarded for every
    /// client in it.
    #[verifier::rlimit(100)]
    #[verifier::spinoff_prover]
    fn attach_existing_condition(
        &mut self,
        entity: u64,
        cid: u128,
        updates: &mut Vec<VisibilityUpdate>,
    )
        requires
            old(self).inv(),
            !old(self).entities@.contains_key(entity),
            old(self).conditions@.contains_key(cid),
        ensures
            final(self).inv(),
            final(self).entities@ == old(self).entities@.insert(entity, cid),
            final(self).conditions@.contains_key(cid),
            final(self).clients@ == old(self).clients@,
            final(self).server_id == old(self).server_id,
            final(updates)@.len() >= old(updates)@.len(),
            final(updates)@.take(old(updates)@.len() as int) == old(updates)@,
            final(self).emitted@ == apply_updates(
                old(self).emitted@,
                final(updates)@.skip(old(updates)@.len() as int),
            ),
    {
        let ghost mid = *old(self);
        let ghost mid_updates = old(updates)@;
        self.entities.insert(entity, cid);
        let entry_opt = self.conditions.remove(&cid);
        let mut entry = entry_opt.unwrap();
        proof {
            assert(!entry.entities@.contains(entity)) by {
                if entry.entities@.contains(entity) {
                    let j = choose|j: int|
                        0 <= j < entry.entities@.len() && (#[trigger] entry.entities@[j])
                            == entity;
                    assert(mid.entities@.contains_key(entity));
                }
            }
            lemma_push_unique_u64(entry.entities@, entity);
        }
        entry.entities.push(entity);
        let kl = copy_u64s(&entry.clients);
        let ghost old_list = mid.conditions@[cid].entities@;
        self.conditions.insert(cid, entry);
        let ghost fin_conds = self.conditions@;
        proof {
            assert(fin_conds.dom() =~= mid.conditions@.dom());
            assert(kl@ == mid.conditions@[cid].clients@);
            assert(forall|c2: u128|
                #[trigger] fin_conds.contains_key(c2) && c2 != cid ==> fin_conds[c2]
                    == mid.conditions@[c2]);
            assert(fin_conds[cid].condition == mid.conditions@[cid].condition);
            assert(fin_conds[cid].clients@ == mid.conditions@[cid].clients@);
            assert(fin_conds[cid].entities@ == old_list.push(entity));
            assert(fin_conds[cid].entities@.no_duplicates());
        }
        let m = kl.len();
        let mut q: usize = 0;
        while q < m
            invariant
                q <= m,
                m == kl@.len(),
                mid.inv(),
                mid.conditions@.contains_key(cid),
                !mid.entities@.contains_key(entity),
                kl@ == mid.conditions@[cid].clients@,
                self.conditions@ == fin_conds,
                self.entities@ == mid.entities@.insert(entity, cid),
                self.clients@ == mid.clients@,
                self.client_ids@ == mid.client_ids@,
                self.attributes@ == mid.attributes@,
                self.cond_ids@ == mid.cond_ids@,
                self.condition_ids_buffer@ == mid.condition_ids_buffer@,
                self.entities_buffer@ == mid.entities_buffer@,
                self.client_ids_buffer@ == mid.client_ids_buffer@,
                self.attribute_ids_buffer@ == mid.attribute_ids_buffer@,
                self.server_id == mid.server_id,
                updates@.len() >= mid_updates.len(),
                updates@.take(mid_updates.len() as int) == mid_updates,
                self.emitted@ == apply_updates(
                    mid.emitted@,
                    updates@.skip(mid_updates.len() as int),
                ),
                forall|e: u64, k: u64|
                    e != entity ==> (#[trigger] self.emitted@.contains_key((e, k))
                        == mid.emitted@.contains_key((e, k)) && (self.emitted@.contains_key(
                        (e, k),
                    ) ==> self.emitted@[(e, k)] == mid.emitted@[(e, k)])),
                forall|k: u64|
                    kl@.take(q as int).contains(k) ==> (#[trigger] self.emitted@.contains_key(
                        (entity, k),
                    ) && self.emitted@[(entity, k)]),
                forall|k: u64|
                    !kl@.take(q as int).contains(k) ==> ((#[trigger] self.emitted@.contains_key(
                        (entity, k),
                    )) == mid.emitted@.contains_key((entity, k)) && (self.emitted@.contains_key(
                        (entity, k),
                    ) ==> self.emitted@[(entity, k)] == mid.emitted@[(entity, k)])),
            decreases m - q,
        {
            let k = kl[q];
            let u = VisibilityUpdate { entity, client: k, visible: true };
            proof {
                lemma_apply_updates_push(mid.emitted@, updates@.skip(mid_updates.len() as int), u);
                assert(updates@.push(u).skip(mid_updates.len() as int) =~= updates@.skip(
                    mid_updates.len() as int,
                ).push(u));
                assert(updates@.push(u).take(mid_updates.len() as int) =~= updates@.take(
                    mid_updates.len() as int,
                ));
            }
            updates.push(u);
            proof {
                self.emitted@ = self.emitted@.insert((entity, k), true);
                assert(kl@.take(q + 1).drop_last() =~= kl@.take(q as int));
                assert(kl@.take(q + 1).last() == k);
                assert forall|k2: u64| kl@.take(q + 1).contains(k2) implies (
                self.emitted@.contains_key((entity, k2)) && self.emitted@[(entity, k2)]) by {
                    if k2 != k {
                        let j = choose|j: int|
                            0 <= j <= q && (#[trigger] kl@.take(q + 1)[j]) == k2;
                        assert(kl@.take(q as int)[j] == k2);
                        assert(kl@.take(q as int).contains(k2));
                    }
                }
                assert forall|k2: u64| !kl@.take(q + 1).contains(k2) implies ((
                self.emitted@.contains_key((entity, k2))) == mid.emitted@.contains_key(
                    (entity, k2),
                ) && (self.emitted@.contains_key((entity, k2)) ==> self.emitted@[(entity, k2)]
                    == mid.emitted@[(entity, k2)])) by {
                    assert(k2 != k);
                    assert(!kl@.take(q as int).contains(k2)) by {
                        if kl@.take(q as int).contains(k2) {
                            let j = choose|j: int|
                                0 <= j < q && (#[trigger] kl@.take(q as int)[j]) == k2;
                            assert(kl@.take(q + 1)[j] == k2);
                        }
                    }
                }
            }
            q += 1;
        }
        proof {
            assert(kl@.take(m as int) =~= kl@);
            let fin = *self;
            assert(fin.inv_conditions()) by {
                assert forall|cid2: u128| #[trigger] fin.conditions@.contains_key(cid2) implies {
                    let en = fin.conditions@[cid2];
                    &&& en.condition.wf()
                    &&& spec_condition_id(en.condition.nodes@) == cid2
                    &&& en.entities@.no_duplicates()
                    &&& en.entities@.len() > 0
                    &&& en.clients@.no_duplicates()
                    &&& (forall|q2: int|
                        0 <= q2 < en.entities@.len() ==> fin.entities@.contains_key(
                            #[trigger] en.entities@[q2],
                        ) && fin.entities@[en.entities@[q2]] == cid2)
                    &&& (forall|k: u64| #[trigger]
                        en.clients@.contains(k) ==> fin.clients@.contains_key(k) && eval_attrs(
                            en.condition,
                            fin.clients@[k]@,
                        ))
                    &&& (forall|k: u64|
                        fin.clients@.contains_key(k) && #[trigger] eval_attrs(
                            en.condition,
                            fin.clients@[k]@,
                        ) ==> en.clients@.contains(k))
                } by {
                    let en = fin.conditions@[cid2];
                    let en0 = mid.conditions@[cid2];
                    if cid2 == cid {
                        assert(en.condition == en0.condition);
                        assert(en.clients@ == en0.clients@);
                        assert forall|q2: int|
                            0 <= q2 < en.entities@.len() implies fin.entities@.contains_key(
                            #[trigger] en.entities@[q2],
                        ) && fin.entities@[en.entities@[q2]] == cid2 by {
                            if q2 < en.entities@.len() - 1 {
                                assert(en.entities@[q2] == old_list[q2]);
                                assert(mid.entities@.contains_key(old_list[q2])
                                    && mid.entities@[old_list[q2]] == cid);
                                assert(en.entities@[q2] != entity);
                            } else {
                                assert(en.entities@[q2] == entity);
                            }
                        }
                    } else {
                        assert(en == en0);
                        assert forall|q2: int|
                            0 <= q2 < en.entities@.len() implies fin.entities@.contains_key(
                            #[trigger] en.entities@[q2],
                        ) && fin.entities@[en.entities@[q2]] == cid2 by {
                            assert(mid.entities@.contains_key(en.entities@[q2])
                                && mid.entities@[en.entities@[q2]] == cid2);
                            assert(en.entities@[q2] != entity);
                        }
                    }
                }
            }
            assert(fin.inv_entities()) by {
                assert forall|e2: u64| #[trigger] fin.entities@.contains_key(e2) implies
                    fin.conditions@.contains_key(fin.entities@[e2])
                    && fin.conditions@[fin.entities@[e2]].entities@.contains(e2) by {
                    if e2 == entity {
                        assert(fin.conditions@[cid].entities@.last() == entity);
                    } else {
                        assert(mid.entities@.contains_key(e2));
                        let cid2 = mid.entities@[e2];
                        if cid2 == cid {
                            assert(mid.conditions@[cid].entities@.contains(e2));
                            let j = choose|j: int|
                                0 <= j < old_list.len() && (#[trigger] old_list[j]) == e2;
                            assert(fin.conditions@[cid].entities@[j] == e2);
                        }
                    }
                }
            }
            assert(fin.inv_attributes()) by {
                assert forall|a: u128, cid2: u128|
                    #[trigger] fin.conditions@.contains_key(cid2) && #[trigger] mentioned_keys(
                        fin.conditions@[cid2].condition.nodes@,
                    ).contains(a) implies fin.attributes@.contains_key(a)
                    && fin.attributes@[a]@.contains(cid2) by {
                    assert(fin.conditions@[cid2].condition.nodes@
                        == mid.conditions@[cid2].condition.nodes@);
                }
                assert forall|a: u128, cid2: u128|
                    fin.attributes@.contains_key(a) && #[trigger] fin.attributes@[a]@.contains(
                        cid2,
                    ) implies fin.conditions@.contains_key(cid2) && mentioned_keys(
                    fin.conditions@[cid2].condition.nodes@,
                ).contains(a) by {
                    assert(mid.conditions@.contains_key(cid2));
                    assert(fin.conditions@[cid2].condition.nodes@
                        == mid.conditions@[cid2].condition.nodes@);
                }
            }
            assert(fin.inv_sink()) by {
                assert forall|e2: u64, k: u64|
                    #[trigger] fin.entities@.contains_key(e2)
                    && #[trigger] fin.clients@.contains_key(k) implies emitted_or_false(
                    fin.emitted@,
                    e2,
                    k,
                ) == eval_attrs(
                    fin.conditions@[fin.entities@[e2]].condition,
                    fin.clients@[k]@,
                ) by {
                    if e2 == entity {
                        assert(fin.entities@[entity] == cid);
                        assert(fin.conditions@[cid].condition == mid.conditions@[cid].condition);
                        if mid.conditions@[cid].clients@.contains(k) {
                            assert(kl@.take(m as int).contains(k));
                            assert(fin.emitted@.contains_key((entity, k)) && fin.emitted@[(
                                entity,
                                k,
                            )]);
                            assert(eval_attrs(mid.conditions@[cid].condition, mid.clients@[k]@));
                        } else {
                            assert(!kl@.take(m as int).contains(k));
                            assert((fin.emitted@.contains_key((entity, k)))
                                == mid.emitted@.contains_key((entity, k)) && (
                            fin.emitted@.contains_key((entity, k)) ==> fin.emitted@[(entity, k)]
                                == mid.emitted@[(entity, k)]));
                            assert(!emitted_or_false(mid.emitted@, entity, k)) by {
                                if emitted_or_false(mid.emitted@, entity, k) {
                                    assert(mid.entities@.contains_key(entity));
                                }
                            }
                            assert(!eval_attrs(mid.conditions@[cid].condition, mid.clients@[k]@));
                        }
                    } else {
                        assert(mid.entities@.contains_key(e2));
                        assert(fin.emitted@.contains_key((e2, k)) == mid.emitted@.contains_key(
                            (e2, k),
                        ));
                        if fin.emitted@.contains_key((e2, k)) {
                            assert(fin.emitted@[(e2, k)] == mid.emitted@[(e2, k)]);
                        }
                        assert(emitted_or_false(fin.emitted@, e2, k) == emitted_or_false(
                            mid.emitted@,
                            e2,
                            k,
                        ));
                        let cid2 = mid.entities@[e2];
                        assert(fin.conditions@[cid2].condition == mid.conditions@[cid2].condition);
                        assert(emitted_or_false(mid.emitted@, e2, k) == eval_attrs(
                            mid.conditions@[cid2].condition,
                            mid.clients@[k]@,
                        ));
                    }
                }
                assert forall|p: (u64, u64)| #[trigger] fin.emitted@.contains_key(p) implies
                    fin.clients@.contains_key(p.1) by {
                    assert(p == (p.0, p.1));
                    if p.0 != entity {
                        assert(fin.emitted@.contains_key((p.0, p.1)));
                        assert(mid.emitted@.contains_key((p.0, p.1)));
                        assert(mid.emitted@.contains_key(p));
                    } else {
                        if kl@.contains(p.1) {
                            assert(mid.conditions@[cid].clients@.contains(p.1));
                            assert(mid.clients@.contains_key(p.1));
                        } else {
                            assert(!kl@.take(m as int).contains(p.1));
                            assert(fin.emitted@.contains_key((p.0, p.1))
                                == mid.emitted@.contains_key((p.0, p.1)));
                            assert(mid.emitted@.contains_key(p));
                        }
                    }
                }
                assert forall|e2: u64, k: u64| #[trigger]
                    emitted_or_false(fin.emitted@, e2, k) implies fin.entities@.contains_key(
                    e2,
                ) by {
                    if e2 != entity {
                        assert(emitted_or_false(mid.emitted@, e2, k));
                        assert(mid.entities@.contains_key(e2));
                    }
                }
            }
        }
    }

    /// Tracks a condition that is new to the cache for an untracked
    /// entity: attribute back-references are inserted and visibility is
    /// freshly computed against every known client's attribute set.
    #[verifier::rlimit(100)]
    #[verifier::spinoff_prover]
    fn attach_new_condition(
        &mut self,
        entity: u64,
        cid: u128,
        condition: &VisibilityCondition,
        updates: &mut Vec<VisibilityUpdate>,
    )
        requires
            old(self).inv(),
            condition.wf(),
            spec_condition_id(condition.nodes@) == cid,
            !old(self).entities@.contains_key(entity),
            !old(self).conditions@.contains_key(cid),
        ensures
            final(self).inv(),
            final(self).entities@ == old(self).entities@.insert(entity, cid),
            final(self).conditions@.contains_key(cid),
            final(self).clients@ == old(self).clients@,
            final(self).server_id == old(self).server_id,
            final(updates)@.len() >= old(updates)@.len(),
            final(updates)@.take(old(updates)@.len() as int) == old(updates)@,
            final(self).emitted@ == apply_updates(
                old(self).emitted@,
                final(updates)@.skip(old(updates)@.len() as int),
            ),
    {
        let ghost mid = *old(self);
        let ghost mid_updates = old(updates)@;
        self.entities.insert(entity, cid);
        let cloned = condition.clone();
        let mut ents = acquire_buffer(&mut self.entities_buffer);
        ents.push(entity);
        let mut kl = acquire_buffer(&mut self.client_ids_buffer);
        proof {
            assert(ents@ =~= seq![entity]);
        }
        // Record attribute back-references for the new condition.
        let attr_list = condition.iter_attributes();
        let ghost nodes = condition.nodes@;
        let an = attr_list.len();
        let mut t: usize = 0;
        while t < an
            invariant
                t <= an,
                an == attr_list@.len(),
                attr_list@ == attrs_of(nodes),
                mid.inv(),
                !mid.conditions@.contains_key(cid),
                !mid.entities@.contains_key(entity),
                self.conditions@ == mid.conditions@,
                self.entities@ == mid.entities@.insert(entity, cid),
                self.clients@ == mid.clients@,
                self.client_ids@ == mid.client_ids@,
                self.cond_ids@ == mid.cond_ids@,
                all_empty(self.entities_buffer@),
                all_empty(self.client_ids_buffer@),
                all_empty(self.attribute_ids_buffer@),
                all_empty(self.condition_ids_buffer@),
                self.server_id == mid.server_id,
                self.emitted@ == mid.emitted@,
                updates@ == mid_updates,
                forall|a: u128|
                    key_seen(attr_list@, t as int, a) ==> ((
                    #[trigger] self.attributes@.contains_key(a))
                        && self.attributes@[a]@.no_duplicates() && self.attributes@[a]@.len()
                        > 0),
                forall|a: u128, y: u128|
                    key_seen(attr_list@, t as int, a) ==> ((
                    #[trigger] self.attributes@[a]@.contains(y)) <==> ((
                    mid.attributes@.contains_key(a) && mid.attributes@[a]@.contains(y)) || y
                        == cid)),
                forall|a: u128|
                    !key_seen(attr_list@, t as int, a) ==> ((
                    #[trigger] self.attributes@.contains_key(a)) == mid.attributes@.contains_key(
                        a,
                    ) && (self.attributes@.contains_key(a) ==> self.attributes@[a]
                        == mid.attributes@[a])),
            decreases an - t,
        {
            let ak = attr_list[t].key();
            let ghost attrs_pre = self.attributes@;
            let ghost mut idsg: Seq<u128> = Seq::empty();
            let ids_opt = self.attributes.remove(&ak);
            match ids_opt {
                Some(mut ids) => {
                    proof {
                        assert(attrs_pre.contains_key(ak) && ids == attrs_pre[ak]);
                        if key_seen(attr_list@, t as int, ak) {
                            assert(ids@.no_duplicates() && ids@.len() > 0);
                            assert(forall|y: u128|
                                (#[trigger] ids@.contains(y)) <==> ((mid.attributes@.contains_key(
                                    ak,
                                ) && mid.attributes@[ak]@.contains(y)) || y == cid));
                        } else {
                            assert(ids == mid.attributes@[ak]);
                            assert(mid.attributes@.contains_key(ak));
                            assert(ids@.no_duplicates());
                            assert(!ids@.contains(cid)) by {
                                if ids@.contains(cid) {
                                    assert(mid.attributes@[ak]@.contains(cid));
                                    assert(mid.conditions@.contains_key(cid));
                                }
                            }
                        }
                    }
                    if !vec_contains_u128(&ids, cid) {
                        proof {
                            lemma_push_unique_u128(ids@, cid);
                        }
                        ids.push(cid);
                    }
                    proof {
                        idsg = ids@;
                    }
                    self.attributes.insert(ak, ids);
                },
                None => {
                    proof {
                        assert(!attrs_pre.contains_key(ak));
                        assert(!mid.attributes@.contains_key(ak));
                    }
                    let mut ids = acquire_buffer(&mut self.condition_ids_buffer);
                    ids.push(cid);
                    proof {
                        idsg = ids@;
                        assert(idsg.len() == 1 && idsg[0] == cid);
                    }
                    self.attributes.insert(ak, ids);
                },
            }
            proof {
                assert(attr_list@[t as int].spec_key() == ak);
                assert(self.attributes@.contains_key(ak));
                assert(self.attributes@[ak]@ == idsg);
                assert(idsg.no_duplicates() && idsg.len() > 0);
                assert(forall|y: u128|
                    (#[trigger] idsg.contains(y)) <==> ((mid.attributes@.contains_key(ak)
                        && mid.attributes@[ak]@.contains(y)) || y == cid));
                assert forall|a: u128|
                    key_seen(attr_list@, t + 1, a) implies ((
                #[trigger] self.attributes@.contains_key(a))
                    && self.attributes@[a]@.no_duplicates() && self.attributes@[a]@.len()
                    > 0) by {
                    if a != ak {
                        let t2 = choose|t2: int|
                            0 <= t2 < t + 1 && (#[trigger] attr_list@[t2]).spec_key() == a;
                        assert(t2 < t);
                        assert(key_seen(attr_list@, t as int, a));
                        assert(self.attributes@.contains_key(a) == attrs_pre.contains_key(a));
                        if self.attributes@.contains_key(a) {
                            assert(self.attributes@[a] == attrs_pre[a]);
                        }
                    } else {
                        assert(self.attributes@[a]@ == idsg);
                    }
                }
                assert forall|a: u128, y: u128|
                    key_seen(attr_list@, t + 1, a) implies ((
                #[trigger] self.attributes@[a]@.contains(y)) <==> ((
                mid.attributes@.contains_key(a) && mid.attributes@[a]@.contains(y)) || y
                    == cid)) by {
                    if a != ak {
                        let t2 = choose|t2: int|
                            0 <= t2 < t + 1 && (#[trigger] attr_list@[t2]).spec_key() == a;
                        assert(t2 < t);
                        assert(key_seen(attr_list@, t as int, a));
                        assert(self.attributes@.contains_key(a) == attrs_pre.contains_key(a));
                        if self.attributes@.contains_key(a) {
                            assert(self.attributes@[a] == attrs_pre[a]);
                        }
                    } else {
                        assert(self.attributes@[a]@ == idsg);
                        assert(idsg.contains(y) <==> ((mid.attributes@.contains_key(a)
                            && mid.attributes@[a]@.contains(y)) || y == cid));
                    }
                }
                assert forall|a: u128|
                    !key_seen(attr_list@, t + 1, a) implies ((
                #[trigger] self.attributes@.contains_key(a)) == mid.attributes@.contains_key(a)
                    && (self.attributes@.contains_key(a) ==> self.attributes@[a]
                    == mid.attributes@[a])) by {
                    assert(a != ak) by {
                        if a == ak {
                            assert(attr_list@[t as int].spec_key() == a);
                            assert(key_seen(attr_list@, t + 1, a));
                        }
                    }
                    assert(!key_seen(attr_list@, t as int, a)) by {
                        if key_seen(attr_list@, t as int, a) {
                            let t2 = choose|t2: int|
                                0 <= t2 < t && (#[trigger] attr_list@[t2]).spec_key() == a;
                            assert(key_seen(attr_list@, t + 1, a));
                        }
                    }
                    assert(self.attributes@.contains_key(a) == attrs_pre.contains_key(a));
                    if self.attributes@.contains_key(a) {
                        assert(self.attributes@[a] == attrs_pre[a]);
                    }
                }
            }
            t += 1;
        }
        let ghost attrs_done = self.attributes@;
        // Compute the clients that satisfy the new condition.
        let n = self.client_ids.len();
        let mut i: usize = 0;
        while i < n
            invariant
                i <= n,
                n == self.client_ids@.len(),
                mid.inv(),
                condition.wf(),
                self.clients@ == mid.clients@,
                self.client_ids@ == mid.client_ids@,
                kl@.no_duplicates(),
                forall|k: u64| #[trigger]
                    kl@.contains(k) <==> (self.client_ids@.take(i as int).contains(k)
                        && mid.clients@.contains_key(k) && eval_attrs(
                        *condition,
                        mid.clients@[k]@,
                    )),
            decreases n - i,
        {
            let kid = self.client_ids[i];
            proof {
                assert(self.client_ids@.contains(kid));
                assert(mid.clients@.contains_key(kid));
                assert(!kl@.contains(kid)) by {
                    if kl@.contains(kid) {
                        assert(self.client_ids@.take(i as int).contains(kid));
                        let j = choose|j: int|
                            0 <= j < i && (#[trigger] self.client_ids@.take(i as int)[j]) == kid;
                        assert(self.client_ids@[j] == kid);
                        assert(!self.client_ids@.no_duplicates() || j == i);
                    }
                }
            }
            let vis = {
                let a = self.clients.get(&kid);
                eval_condition(condition, a.unwrap())
            };
            if vis {
                proof {
                    lemma_push_unique_u64(kl@, kid);
                }
                kl.push(kid);
            }
            proof {
                assert(self.client_ids@.take(i + 1).drop_last() =~= self.client_ids@.take(
                    i as int,
                ));
                assert(self.client_ids@.take(i + 1).last() == kid);
                assert forall|k: u64| #[trigger] kl@.contains(k) implies (self.client_ids@.take(
                    i + 1,
                ).contains(k) && mid.clients@.contains_key(k) && eval_attrs(
                    *condition,
                    mid.clients@[k]@,
                )) by {
                    if k != kid {
                        assert(self.client_ids@.take(i as int).contains(k));
                        let j = choose|j: int|
                            0 <= j < i && (#[trigger] self.client_ids@.take(i as int)[j]) == k;
                        assert(self.client_ids@.take(i + 1)[j] == k);
                    } else {
                        assert(self.client_ids@.take(i + 1)[i as int] == kid);
                    }
                }
                assert forall|k: u64|
                    (self.client_ids@.take(i + 1).contains(k) && mid.clients@.contains_key(k)
                        && eval_attrs(*condition, mid.clients@[k]@)) implies #[trigger] kl@.contains(
                    k,
                ) by {
                    let j = choose|j: int|
                        0 <= j <= i && (#[trigger] self.client_ids@.take(i + 1)[j]) == k;
                    if j < i {
                        assert(self.client_ids@.take(i as int)[j] == k);
                        assert(self.client_ids@.take(i as int).contains(k));
                    }
                }
            }
            i += 1;
        }
        proof {
            assert(self.client_ids@.take(n as int) =~= self.client_ids@);
        }
        let kl2 = copy_u64s(&kl);
        let ghost klg = kl@;
        let entry = ConditionEntry { condition: cloned, entities: ents, clients: kl };
        proof {
            assert(!self.cond_ids@.contains(cid));
            lemma_push_unique_u128(self.cond_ids@, cid);
        }
        self.cond_ids.push(cid);
        self.conditions.insert(cid, entry);
        let ghost fin_conds = self.conditions@;
        let ghost fin_cond_ids = self.cond_ids@;
        proof {
            assert(fin_conds.dom() =~= mid.conditions@.dom().insert(cid));
            assert(forall|c2: u128|
                #[trigger] fin_conds.contains_key(c2) && c2 != cid ==> fin_conds[c2]
                    == mid.conditions@[c2]);
            assert(fin_conds[cid].condition.nodes@ == condition.nodes@);
            assert(fin_conds[cid].condition.expr == condition.expr);
            assert(fin_conds[cid].entities@ == seq![entity]);
            assert(fin_conds[cid].clients@ == klg);
            assert(fin_cond_ids == mid.cond_ids@.push(cid));
        }
        // Forward "true" for the new entity to every matching client.
        let m = kl2.len();
        let mut q: usize = 0;
        while q < m
            invariant
                q <= m,
                m == kl2@.len(),
                kl2@ == klg,
                mid.inv(),
                !mid.conditions@.contains_key(cid),
                !mid.entities@.contains_key(entity),
                self.conditions@ == fin_conds,
                self.cond_ids@ == fin_cond_ids,
                self.entities@ == mid.entities@.insert(entity, cid),
                self.clients@ == mid.clients@,
                self.client_ids@ == mid.client_ids@,
                self.attributes@ == attrs_done,
                all_empty(self.entities_buffer@),
                all_empty(self.client_ids_buffer@),
                all_empty(self.attribute_ids_buffer@),
                all_empty(self.condition_ids_buffer@),
                self.server_id == mid.server_id,
                updates@.len() >= mid_updates.len(),
                updates@.take(mid_updates.len() as int) == mid_updates,
                self.emitted@ == apply_updates(
                    mid.emitted@,
                    updates@.skip(mid_updates.len() as int),
                ),
                forall|e: u64, k: u64|
                    e != entity ==> (#[trigger] self.emitted@.contains_key((e, k))
                        == mid.emitted@.contains_key((e, k)) && (self.emitted@.contains_key(
                        (e, k),
                    ) ==> self.emitted@[(e, k)] == mid.emitted@[(e, k)])),
                forall|k: u64|
                    kl2@.take(q as int).contains(k) ==> (#[trigger] self.emitted@.contains_key(
                        (entity, k),
                    ) && self.emitted@[(entity, k)]),
                forall|k: u64|
                    !kl2@.take(q as int).contains(k) ==> ((#[trigger] self.emitted@.contains_key(
                        (entity, k),
                    )) == mid.emitted@.contains_key((entity, k)) && (self.emitted@.contains_key(
                        (entity, k),
                    ) ==> self.emitted@[(entity, k)] == mid.emitted@[(entity, k)])),
            decreases m - q,
        {
            let k = kl2[q];
            let u = VisibilityUpdate { entity, client: k, visible: true };
            proof {
                lemma_apply_updates_push(mid.emitted@, updates@.skip(mid_updates.len() as int), u);
                assert(updates@.push(u).skip(mid_updates.len() as int) =~= updates@.skip(
                    mid_updates.len() as int,
                ).push(u));
                assert(updates@.push(u).take(mid_updates.len() as int) =~= updates@.take(
                    mid_updates.len() as int,
                ));
            }
            updates.push(u);
            proof {
                self.emitted@ = self.emitted@.insert((entity, k), true);
                assert(kl2@.take(q + 1).drop_last() =~= kl2@.take(q as int));
                assert(kl2@.take(q + 1).last() == k);
                assert forall|k2: u64| kl2@.take(q + 1).contains(k2) implies (
                self.emitted@.contains_key((entity, k2)) && self.emitted@[(entity, k2)]) by {
                    if k2 != k {
                        let j = choose|j: int|
                            0 <= j <= q && (#[trigger] kl2@.take(q + 1)[j]) == k2;
                        assert(kl2@.take(q as int)[j] == k2);
                        assert(kl2@.take(q as int).contains(k2));
                    }
                }
                assert forall|k2: u64| !kl2@.take(q + 1).contains(k2) implies ((
                self.emitted@.contains_key((entity, k2))) == mid.emitted@.contains_key(
                    (entity, k2),
                ) && (self.emitted@.contains_key((entity, k2)) ==> self.emitted@[(entity, k2)]
                    == mid.emitted@[(entity, k2)])) by {
                    assert(k2 != k);
                    assert(!kl2@.take(q as int).contains(k2)) by {
                        if kl2@.take(q as int).contains(k2) {
                            let j = choose|j: int|
                                0 <= j < q && (#[trigger] kl2@.take(q as int)[j]) == k2;
                            assert(kl2@.take(q + 1)[j] == k2);
                        }
                    }
                }
            }
            q += 1;
        }
        proof {
            assert(kl2@.take(m as int) =~= kl2@);
            let fin = *self;
            assert(fin.inv_cond_ids()) by {
                assert forall|c2: u128| #[trigger] fin.cond_ids@.contains(c2) implies
                    fin.conditions@.contains_key(c2) by {
                    if c2 != cid {
                        assert(mid.cond_ids@.contains(c2)) by {
                            let j = choose|j: int|
                                0 <= j < fin.cond_ids@.len() && (#[trigger] fin.cond_ids@[j])
                                    == c2;
                            assert(j < mid.cond_ids@.len());
                        }
                    }
                }
                assert forall|c2: u128| #[trigger] fin.conditions@.contains_key(c2) implies
                    fin.cond_ids@.contains(c2) by {
                    if c2 != cid {
                        assert(mid.cond_ids@.contains(c2));
                        let j = choose|j: int|
                            0 <= j < mid.cond_ids@.len() && (#[trigger] mid.cond_ids@[j]) == c2;
                        assert(fin.cond_ids@[j] == c2);
                    } else {
                        assert(fin.cond_ids@.last() == cid);
                    }
                }
            }
            assert(fin.inv_conditions()) by {
                assert forall|cid2: u128| #[trigger] fin.conditions@.contains_key(cid2) implies {
                    let en = fin.conditions@[cid2];
                    &&& en.condition.wf()
                    &&& spec_condition_id(en.condition.nodes@) == cid2
                    &&& en.entities@.no_duplicates()
                    &&& en.entities@.len() > 0
                    &&& en.clients@.no_duplicates()
                    &&& (forall|q2: int|
                        0 <= q2 < en.entities@.len() ==> fin.entities@.contains_key(
                            #[trigger] en.entities@[q2],
                        ) && fin.entities@[en.entities@[q2]] == cid2)
                    &&& (forall|k: u64| #[trigger]
                        en.clients@.contains(k) ==> fin.clients@.contains_key(k) && eval_attrs(
                            en.condition,
                            fin.clients@[k]@,
                        ))
                    &&& (forall|k: u64|
                        fin.clients@.contains_key(k) && #[trigger] eval_attrs(
                            en.condition,
                            fin.clients@[k]@,
                        ) ==> en.clients@.contains(k))
                } by {
                    let en = fin.conditions@[cid2];
                    if cid2 == cid {
                        assert(en.condition.nodes@ == condition.nodes@);
                        assert(en.condition.expr == condition.expr);
                        assert(en.condition.wf());
                        assert(en.entities@ == seq![entity]);
                        assert(en.entities@[0] == entity);
                        assert(en.clients@ == klg);
                        assert forall|k: u64| #[trigger] en.clients@.contains(k) implies
                            fin.clients@.contains_key(k) && eval_attrs(
                            en.condition,
                            fin.clients@[k]@,
                        ) by {
                            assert(mid.clients@.contains_key(k));
                            assert(eval_attrs(*condition, mid.clients@[k]@));
                            assert(eval_attrs(en.condition, fin.clients@[k]@)) by {
                                assert(en.condition.expr == condition.expr);
                            }
                        }
                        assert forall|k: u64|
                            fin.clients@.contains_key(k) && #[trigger] eval_attrs(
                                en.condition,
                                fin.clients@[k]@,
                            ) implies en.clients@.contains(k) by {
                            assert(mid.client_ids@.contains(k));
                            assert(eval_attrs(*condition, mid.clients@[k]@)) by {
                                assert(en.condition.expr == condition.expr);
                            }
                        }
                    } else {
                        let en0 = mid.conditions@[cid2];
                        assert(en == en0);
                        assert forall|q2: int|
                            0 <= q2 < en.entities@.len() implies fin.entities@.contains_key(
                            #[trigger] en.entities@[q2],
                        ) && fin.entities@[en.entities@[q2]] == cid2 by {
                            assert(mid.entities@.contains_key(en.entities@[q2])
                                && mid.entities@[en.entities@[q2]] == cid2);
                            assert(en.entities@[q2] != entity);
                        }
                    }
                }
            }
            assert(fin.inv_entities()) by {
                assert forall|e2: u64| #[trigger] fin.entities@.contains_key(e2) implies
                    fin.conditions@.contains_key(fin.entities@[e2])
                    && fin.conditions@[fin.entities@[e2]].entities@.contains(e2) by {
                    if e2 == entity {
                        assert(fin.conditions@[cid].entities@[0] == entity);
                    } else {
                        assert(mid.entities@.contains_key(e2));
                        assert(mid.entities@[e2] != cid);
                    }
                }
            }
            assert(fin.inv_attributes()) by {
                assert forall|a: u128|
                    #[trigger] fin.attributes@.contains_key(a) implies
                    fin.attributes@[a]@.no_duplicates() && fin.attributes@[a]@.len() > 0 by {
                    assert(fin.attributes@.contains_key(a) == attrs_done.contains_key(a));
                    assert(fin.attributes@[a] == attrs_done[a]);
                    if !key_seen(attr_list@, an as int, a) {
                        assert(mid.attributes@.contains_key(a));
                        assert(attrs_done[a] == mid.attributes@[a]);
                    }
                }
                assert forall|a: u128, cid2: u128|
                    fin.attributes@.contains_key(a) && #[trigger] fin.attributes@[a]@.contains(
                        cid2,
                    ) implies fin.conditions@.contains_key(cid2) && mentioned_keys(
                    fin.conditions@[cid2].condition.nodes@,
                ).contains(a) by {
                    assert(fin.attributes@[a] == attrs_done[a]);
                    if key_seen(attr_list@, an as int, a) {
                        if cid2 == cid {
                            assert(fin.conditions@[cid].condition.nodes@ == nodes);
                            let t2 = choose|t2: int|
                                0 <= t2 < an && (#[trigger] attr_list@[t2]).spec_key() == a;
                            assert(attrs_of(nodes)[t2].spec_key() == a);
                            assert(mentioned_keys(nodes).contains(a));
                        } else {
                            assert(mid.attributes@.contains_key(a) && mid.attributes@[a]@.contains(
                                cid2,
                            ));
                            assert(mid.conditions@.contains_key(cid2));
                            assert(fin.conditions@[cid2].condition.nodes@
                                == mid.conditions@[cid2].condition.nodes@);
                        }
                    } else {
                        assert(attrs_done[a] == mid.attributes@[a]);
                        assert(mid.attributes@[a]@.contains(cid2));
                        assert(mid.conditions@.contains_key(cid2));
                        assert(cid2 != cid);
                        assert(fin.conditions@[cid2].condition.nodes@
                            == mid.conditions@[cid2].condition.nodes@);
                    }
                }
                assert forall|a: u128, cid2: u128|
                    #[trigger] fin.conditions@.contains_key(cid2) && #[trigger] mentioned_keys(
                        fin.conditions@[cid2].condition.nodes@,
                    ).contains(a) implies fin.attributes@.contains_key(a)
                    && fin.attributes@[a]@.contains(cid2) by {
                    assert(fin.attributes@.contains_key(a) == attrs_done.contains_key(a));
                    if fin.attributes@.contains_key(a) {
                        assert(fin.attributes@[a] == attrs_done[a]);
                    }
                    if cid2 == cid {
                        assert(fin.conditions@[cid].condition.nodes@ == nodes);
                        assert(mentioned_keys(nodes).contains(a));
                        let j = choose|j: int|
                            0 <= j < attrs_of(nodes).len() && attrs_of(nodes)[j].spec_key() == a;
                        assert(attr_list@[j].spec_key() == a);
                        assert(key_seen(attr_list@, an as int, a));
                        assert(attrs_done.contains_key(a));
                        assert(attrs_done[a]@.contains(cid));
                    } else {
                        assert(mid.conditions@.contains_key(cid2));
                        assert(fin.conditions@[cid2].condition.nodes@
                            == mid.conditions@[cid2].condition.nodes@);
                        assert(mid.attributes@.contains_key(a) && mid.attributes@[a]@.contains(
                            cid2,
                        ));
                        if key_seen(attr_list@, an as int, a) {
                            assert(attrs_done.contains_key(a));
                            assert(attrs_done[a]@.contains(cid2));
                        } else {
                            assert(attrs_done.contains_key(a) == mid.attributes@.contains_key(a));
                            assert(attrs_done[a] == mid.attributes@[a]);
                        }
                    }
                }
            }
            assert(fin.inv_sink()) by {
                assert forall|e2: u64, k: u64|
                    #[trigger] fin.entities@.contains_key(e2)
                    && #[trigger] fin.clients@.contains_key(k) implies emitted_or_false(
                    fin.emitted@,
                    e2,
                    k,
                ) == eval_attrs(
                    fin.conditions@[fin.entities@[e2]].condition,
                    fin.clients@[k]@,
                ) by {
                    if e2 == entity {
                        assert(fin.entities@[entity] == cid);
                        assert(mid.client_ids@.contains(k));
                        if klg.contains(k) {
                            assert(kl2@.take(m as int).contains(k));
                            assert(fin.emitted@.contains_key((entity, k)) && fin.emitted@[(
                                entity,
                                k,
                            )]);
                            assert(eval_attrs(*condition, mid.clients@[k]@));
                            assert(eval_attrs(fin.conditions@[cid].condition, fin.clients@[k]@))
                                by {
                                assert(fin.conditions@[cid].condition.expr == condition.expr);
                            }
                        } else {
                            assert(!kl2@.take(m as int).contains(k));
                            assert((fin.emitted@.contains_key((entity, k)))
                                == mid.emitted@.contains_key((entity, k)) && (
                            fin.emitted@.contains_key((entity, k)) ==> fin.emitted@[(entity, k)]
                                == mid.emitted@[(entity, k)]));
                            assert(!emitted_or_false(mid.emitted@, entity, k)) by {
                                if emitted_or_false(mid.emitted@, entity, k) {
                                    assert(mid.entities@.contains_key(entity));
                                }
                            }
                            assert(!eval_attrs(*condition, mid.clients@[k]@));
                            assert(!eval_attrs(fin.conditions@[cid].condition, fin.clients@[k]@))
                                by {
                                assert(fin.conditions@[cid].condition.expr == condition.expr);
                            }
                        }
                    } else {
                        assert(mid.entities@.contains_key(e2));
                        assert(fin.emitted@.contains_key((e2, k)) == mid.emitted@.contains_key(
                            (e2, k),
                        ));
                        if fin.emitted@.contains_key((e2, k)) {
                            assert(fin.emitted@[(e2, k)] == mid.emitted@[(e2, k)]);
                        }
                        assert(emitted_or_false(fin.emitted@, e2, k) == emitted_or_false(
                            mid.emitted@,
                            e2,
                            k,
                        ));
                        let cid2 = mid.entities@[e2];
                        assert(cid2 != cid);
                        assert(fin.conditions@[cid2] == mid.conditions@[cid2]);
                        assert(emitted_or_false(mid.emitted@, e2, k) == eval_attrs(
                            mid.conditions@[cid2].condition,
                            mid.clients@[k]@,
                        ));
                    }
                }
                assert forall|p: (u64, u64)| #[trigger] fin.emitted@.contains_key(p) implies
                    fin.clients@.contains_key(p.1) by {
                    assert(p == (p.0, p.1));
                    if p.0 != entity {
                        assert(fin.emitted@.contains_key((p.0, p.1)));
                        assert(mid.emitted@.contains_key((p.0, p.1)));
                        assert(mid.emitted@.contains_key(p));
                    } else {
                        if klg.contains(p.1) {
                            assert(mid.clients@.contains_key(p.1));
                        } else {
                            assert(!kl2@.take(m as int).contains(p.1));
                            assert(fin.emitted@.contains_key((p.0, p.1))
                                == mid.emitted@.contains_key((p.0, p.1)));
                            assert(mid.emitted@.contains_key(p));
                        }
                    }
                }
                assert forall|e2: u64, k: u64| #[trigger]
                    emitted_or_false(fin.emitted@, e2, k) implies fin.entities@.contains_key(
                    e2,
                ) by {
                    if e2 != entity {
                        assert(emitted_or_false(mid.emitted@, e2, k));
                        assert(mid.entities@.contains_key(e2));
                    }
                }
            }
        }
    }


    /// Removes an entity that no longer has a replication condition:
    /// "false" is forwarded for every client that could see it, and if it
    /// was the last entity carrying its condition, the whole condition
    /// entry is torn down, its attribute back-references pruned, and its
    /// owned sets returned to the buffer pools.
    pub fn remove_entity(&mut self, entity: u64, updates: &mut Vec<VisibilityUpdate>)
        requires
            old(self).inv(),
        ensures
            final(self).inv(),
            final(self).entities@ == old(self).entities@.remove(entity),
            final(self).clients@ == old(self).clients@,
            final(self).server_id == old(self).server_id,
            final(updates)@.len() >= old(updates)@.len(),
            final(updates)@.take(old(updates)@.len() as int) == old(updates)@,
            forall|j: int|
                old(updates)@.len() <= j < final(updates)@.len()
                    ==> ((#[trigger] final(updates)@[j]).entity == entity
                    && !final(updates)@[j].visible),
            final(self).emitted@ == apply_updates(
                old(self).emitted@,
                final(updates)@.skip(old(updates)@.len() as int),
            ),
    {
        let r = self.remove_entity_with_check(entity, None, updates);
        proof {
            if !old(self).entities@.contains_key(entity) {
                assert(final(self).entities@ =~= old(self).entities@.remove(entity));
            }
        }
    }

    /// Removes an entity after checking whether it carries exactly the
    /// condition `check`. Returns `false`, changing nothing, if it does;
    /// otherwise removes the entity and returns `true`.
    fn remove_entity_with_check(
        &mut self,
        entity: u64,
        check: Option<u128>,
        updates: &mut Vec<VisibilityUpdate>,
    ) -> (r: bool)
        requires
            old(self).inv(),
        ensures
            final(self).inv(),
            r <==> !(old(self).entities@.contains_key(entity) && check == Some(
                old(self).entities@[entity],
            )),
            !r ==> {
                &&& final(self).entities@ == old(self).entities@
                &&& final(self).conditions@ == old(self).conditions@
                &&& final(self).attributes@ == old(self).attributes@
                &&& final(self).cond_ids@ == old(self).cond_ids@
                &&& final(self).emitted@ == old(self).emitted@
                &&& final(updates)@ == old(updates)@
            },
            r ==> final(self).entities@ == old(self).entities@.remove(entity),
            final(self).clients@ == old(self).clients@,
            final(self).client_ids@ == old(self).client_ids@,
            final(self).server_id == old(self).server_id,
            final(updates)@.len() >= old(updates)@.len(),
            final(updates)@.take(old(updates)@.len() as int) == old(updates)@,
            forall|j: int|
                old(updates)@.len() <= j < final(updates)@.len()
                    ==> ((#[trigger] final(updates)@[j]).entity == entity
                    && !final(updates)@[j].visible),
            final(self).emitted@ == apply_updates(
                old(self).emitted@,
                final(updates)@.skip(old(updates)@.len() as int),
            ),
    {
        let ghost m0 = old(self).emitted@;
        let ghost u0 = old(updates)@;
        let cid_opt = self.entities.remove(&entity);
        let cid = match cid_opt {
            None => {
                proof {
                    assert(self.entities@ =~= old(self).entities@.remove(entity));
                    assert(updates@.skip(u0.len() as int) =~= Seq::<VisibilityUpdate>::empty());
                    assert(updates@.take(u0.len() as int) =~= u0);
                }
                return true;
            },
            Some(c) => c,
        };
        if let Some(chk) = check {
            if chk == cid {
                self.entities.insert(entity, cid);
                proof {
                    assert(self.entities@ =~= old(self).entities@);
                    assert(updates@.skip(u0.len() as int) =~= Seq::<VisibilityUpdate>::empty());
                    assert(updates@.take(u0.len() as int) =~= u0);
                }
                return false;
            }
        }
        let entry_opt = self.conditions.remove(&cid);
        let mut entry = entry_opt.unwrap();
        vec_remove_value_u64(&mut entry.entities, entity);
        // Forward "false" to every client that could see this entity.
        let ghost conds_mid = self.conditions@;
        let ghost ents_mid = self.entities@;
        let m = entry.clients.len();
        let mut q: usize = 0;
        while q < m
            invariant
                q <= m,
                m == entry.clients@.len(),
                old(self).inv(),
                self.conditions@ == conds_mid,
                self.entities@ == ents_mid,
                ents_mid == old(self).entities@.remove(entity),
                self.clients@ == old(self).clients@,
                self.client_ids@ == old(self).client_ids@,
                self.attributes@ == old(self).attributes@,
                self.cond_ids@ == old(self).cond_ids@,
                self.condition_ids_buffer@ == old(self).condition_ids_buffer@,
                self.entities_buffer@ == old(self).entities_buffer@,
                self.client_ids_buffer@ == old(self).client_ids_buffer@,
                self.attribute_ids_buffer@ == old(self).attribute_ids_buffer@,
                self.server_id == old(self).server_id,
                old(self).conditions@.contains_key(cid),
                entry.clients@ == old(self).conditions@[cid].clients@,
                updates@.len() >= u0.len(),
                updates@.take(u0.len() as int) == u0,
                forall|j: int|
                    u0.len() <= j < updates@.len() ==> ((#[trigger] updates@[j]).entity == entity
                        && !updates@[j].visible),
                self.emitted@ == apply_updates(m0, updates@.skip(u0.len() as int)),
                forall|e: u64, k: u64|
                    e != entity ==> (#[trigger] self.emitted@.contains_key((e, k))
                        == m0.contains_key((e, k)) && (self.emitted@.contains_key((e, k))
                        ==> self.emitted@[(e, k)] == m0[(e, k)])),
                forall|k: u64|
                    entry.clients@.take(q as int).contains(k) ==> (#[trigger] self.emitted@.contains_key(
                        (entity, k),
                    ) && !self.emitted@[(entity, k)]),
                forall|k: u64|
                    !entry.clients@.take(q as int).contains(k) ==> ((#[trigger] self.emitted@.contains_key(
                        (entity, k),
                    )) == m0.contains_key((entity, k)) && (self.emitted@.contains_key(
                        (entity, k),
                    ) ==> self.emitted@[(entity, k)] == m0[(entity, k)])),
            decreases m - q,
        {
            let k = entry.clients[q];
            let u = VisibilityUpdate { entity, client: k, visible: false };
            proof {
                lemma_apply_updates_push(m0, updates@.skip(u0.len() as int), u);
                assert(updates@.push(u).skip(u0.len() as int) =~= updates@.skip(
                    u0.len() as int,
                ).push(u));
                assert(updates@.push(u).take(u0.len() as int) =~= updates@.take(u0.len() as int));
            }
            updates.push(u);
            proof {
                self.emitted@ = self.emitted@.insert((entity, k), false);
                assert(entry.clients@.take(q + 1).drop_last() =~= entry.clients@.take(q as int));
                assert(entry.clients@.take(q + 1).last() == k);
                assert forall|k2: u64| entry.clients@.take(q + 1).contains(k2) implies (
                self.emitted@.contains_key((entity, k2)) && !self.emitted@[(entity, k2)]) by {
                    if k2 != k {
                        let j = choose|j: int|
                            0 <= j <= q && (#[trigger] entry.clients@.take(q + 1)[j]) == k2;
                        assert(entry.clients@.take(q as int)[j] == k2);
                        assert(entry.clients@.take(q as int).contains(k2));
                    }
                }
                assert forall|k2: u64| !entry.clients@.take(q + 1).contains(k2) implies ((
                self.emitted@.contains_key((entity, k2))) == m0.contains_key((entity, k2)) && (
                self.emitted@.contains_key((entity, k2)) ==> self.emitted@[(entity, k2)] == m0[(
                    entity,
                    k2,
                )])) by {
                    assert(k2 != k);
                    assert(!entry.clients@.take(q as int).contains(k2)) by {
                        if entry.clients@.take(q as int).contains(k2) {
                            let j = choose|j: int|
                                0 <= j < q && (#[trigger] entry.clients@.take(q as int)[j]) == k2;
                            assert(entry.clients@.take(q + 1)[j] == k2);
                        }
                    }
                }
            }
            q += 1;
        }
        proof {
            assert(entry.clients@.take(m as int) =~= entry.clients@);
        }
        let ghost entry_clients_ghost = entry.clients@;
        if entry.entities.len() == 0 {
            // Last entity carrying this condition: tear the entry down.
            vec_remove_value_u128(&mut self.cond_ids, cid);
            let attr_list = entry.condition.iter_attributes();
            let ghost nodes = entry.condition.nodes@;
            let an = attr_list.len();
            let mut t: usize = 0;
            while t < an
                invariant
                    t <= an,
                    an == attr_list@.len(),
                    old(self).inv(),
                    attr_list@ == attrs_of(nodes),
                    old(self).conditions@.contains_key(cid),
                    nodes == old(self).conditions@[cid].condition.nodes@,
                    self.conditions@ == conds_mid,
                    conds_mid == old(self).conditions@.remove(cid),
                    self.entities@ == ents_mid,
                    self.clients@ == old(self).clients@,
                    self.client_ids@ == old(self).client_ids@,
                    self.cond_ids@.no_duplicates(),
                    forall|c2: u128| #[trigger]
                        self.cond_ids@.contains(c2) <==> (old(self).cond_ids@.contains(c2) && c2
                            != cid),
                    self.entities_buffer@ == old(self).entities_buffer@,
                    self.client_ids_buffer@ == old(self).client_ids_buffer@,
                    self.attribute_ids_buffer@ == old(self).attribute_ids_buffer@,
                    all_empty(self.condition_ids_buffer@),
                    self.server_id == old(self).server_id,
                    self.emitted@ == apply_updates(m0, updates@.skip(u0.len() as int)),
                    updates@.len() >= u0.len(),
                    updates@.take(u0.len() as int) == u0,
                    forall|j: int|
                        u0.len() <= j < updates@.len() ==> ((#[trigger] updates@[j]).entity
                            == entity && !updates@[j].visible),
                    forall|a: u128|
                        (exists|t2: int|
                            0 <= t2 < t && (#[trigger] attr_list@[t2]).spec_key() == a) ==> {
                            &&& (#[trigger] self.attributes@.contains_key(a) <==> (old(
                                self,
                            ).attributes@.contains_key(a) && exists|y: u128|
                                old(self).attributes@[a]@.contains(y) && y != cid))
                            &&& (self.attributes@.contains_key(a) ==> (
                            self.attributes@[a]@.no_duplicates() && self.attributes@[a]@.len() > 0
                                && (forall|y: u128|
                                (#[trigger] self.attributes@[a]@.contains(y)) <==> (old(
                                    self,
                                ).attributes@[a]@.contains(y) && y != cid))))
                        },
                    forall|a: u128|
                        !(exists|t2: int|
                            0 <= t2 < t && (#[trigger] attr_list@[t2]).spec_key() == a) ==> ((
                        #[trigger] self.attributes@.contains_key(a)) == old(
                            self,
                        ).attributes@.contains_key(a) && (self.attributes@.contains_key(a)
                            ==> self.attributes@[a] == old(self).attributes@[a])),
                decreases an - t,
            {
                let ak = attr_list[t].key();
                let ghost already = exists|t2: int|
                    0 <= t2 < t && (#[trigger] attr_list@[t2]).spec_key() == ak;
                let ghost attrs_pre = self.attributes@;
                let ids_opt = self.attributes.remove(&ak);
                match ids_opt {
                    Some(mut ids) => {
                        proof {
                            assert(attrs_pre.contains_key(ak) && ids == attrs_pre[ak]);
                            if !already {
                                assert(ids == old(self).attributes@[ak]);
                                assert(old(self).attributes@.contains_key(ak));
                                assert(ids@.no_duplicates());
                            } else {
                                assert(ids@.no_duplicates());
                                assert(forall|y: u128|
                                    (#[trigger] ids@.contains(y)) <==> (old(
                                        self,
                                    ).attributes@[ak]@.contains(y) && y != cid));
                                assert(!ids@.contains(cid));
                                assert(old(self).attributes@.contains_key(ak));
                            }
                        }
                        vec_remove_value_u128(&mut ids, cid);
                        proof {
                            assert(forall|y: u128|
                                (#[trigger] ids@.contains(y)) <==> (old(
                                    self,
                                ).attributes@[ak]@.contains(y) && y != cid));
                        }
                        let ghost idsg = ids@;
                        if ids.len() > 0 {
                            self.attributes.insert(ak, ids);
                            proof {
                                assert(self.attributes@.contains_key(ak));
                                assert(idsg.contains(idsg[0]));
                                assert(exists|y: u128|
                                    old(self).attributes@[ak]@.contains(y) && y != cid) by {
                                    assert(old(self).attributes@[ak]@.contains(idsg[0])
                                        && idsg[0] != cid);
                                }
                            }
                        } else {
                            release_buffer(&mut self.condition_ids_buffer, ids);
                            proof {
                                assert(!self.attributes@.contains_key(ak));
                                assert(forall|y: u128|
                                    !((#[trigger] old(self).attributes@[ak]@.contains(y)) && y
                                        != cid)) by {
                                    assert(forall|y: u128| !(#[trigger] idsg.contains(y)));
                                }
                            }
                        }
                    },
                    None => {
                        proof {
                            assert(!attrs_pre.contains_key(ak));
                            assert(!self.attributes@.contains_key(ak));
                            if !already {
                                assert(!old(self).attributes@.contains_key(ak));
                            }
                        }
                    },
                }
                proof {
                    assert(attr_list@[t as int].spec_key() == ak);
                    assert forall|a: u128|
                        (exists|t2: int|
                            0 <= t2 < t + 1 && (#[trigger] attr_list@[t2]).spec_key() == a) implies {
                        &&& (#[trigger] self.attributes@.contains_key(a) <==> (old(
                            self,
                        ).attributes@.contains_key(a) && exists|y: u128|
                            old(self).attributes@[a]@.contains(y) && y != cid))
                        &&& (self.attributes@.contains_key(a) ==> (
                        self.attributes@[a]@.no_duplicates() && self.attributes@[a]@.len() > 0 && (
                        forall|y: u128|
                            (#[trigger] self.attributes@[a]@.contains(y)) <==> (old(
                                self,
                            ).attributes@[a]@.contains(y) && y != cid))))
                    } by {
                        if a != ak {
                            let t2 = choose|t2: int|
                                0 <= t2 < t + 1 && (#[trigger] attr_list@[t2]).spec_key() == a;
                            assert(t2 < t);
                            assert(self.attributes@.contains_key(a) == attrs_pre.contains_key(a));
                            if self.attributes@.contains_key(a) {
                                assert(self.attributes@[a] == attrs_pre[a]);
                            }
                        }
                    }
                    assert forall|a: u128|
                        !(exists|t2: int|
                            0 <= t2 < t + 1 && (#[trigger] attr_list@[t2]).spec_key() == a) implies ((
                    #[trigger] self.attributes@.contains_key(a)) == old(
                        self,
                    ).attributes@.contains_key(a) && (self.attributes@.contains_key(a)
                        ==> self.attributes@[a] == old(self).attributes@[a])) by {
                        assert(a != ak);
                        assert(self.attributes@.contains_key(a) == attrs_pre.contains_key(a));
                        if self.attributes@.contains_key(a) {
                            assert(self.attributes@[a] == attrs_pre[a]);
                        }
                    }
                }
                t += 1;
            }
            let ghost gone_entities = entry.entities@;
            release_buffer(&mut self.entities_buffer, entry.entities);
            release_buffer(&mut self.client_ids_buffer, entry.clients);
            proof {
                let fin = *self;
                let pre = *old(self);
                assert(fin.conditions@ == pre.conditions@.remove(cid));
                assert(fin.inv_cond_ids()) by {
                    assert forall|c2: u128| #[trigger] fin.cond_ids@.contains(c2) implies
                        fin.conditions@.contains_key(c2) by {}
                    assert forall|c2: u128| #[trigger] fin.conditions@.contains_key(c2) implies
                        fin.cond_ids@.contains(c2) by {}
                }
                assert(fin.inv_conditions()) by {
                    assert forall|cid2: u128| #[trigger] fin.conditions@.contains_key(cid2) implies {
                        let en = fin.conditions@[cid2];
                        &&& en.condition.wf()
                        &&& spec_condition_id(en.condition.nodes@) == cid2
                        &&& en.entities@.no_duplicates()
                        &&& en.entities@.len() > 0
                        &&& en.clients@.no_duplicates()
                        &&& (forall|q2: int|
                            0 <= q2 < en.entities@.len() ==> fin.entities@.contains_key(
                                #[trigger] en.entities@[q2],
                            ) && fin.entities@[en.entities@[q2]] == cid2)
                        &&& (forall|k: u64| #[trigger]
                            en.clients@.contains(k) ==> fin.clients@.contains_key(k) && eval_attrs(
                                en.condition,
                                fin.clients@[k]@,
                            ))
                        &&& (forall|k: u64|
                            fin.clients@.contains_key(k) && #[trigger] eval_attrs(
                                en.condition,
                                fin.clients@[k]@,
                            ) ==> en.clients@.contains(k))
                    } by {
                        let en = fin.conditions@[cid2];
                        assert(cid2 != cid);
                        assert(en == pre.conditions@[cid2]);
                        assert forall|q2: int|
                            0 <= q2 < en.entities@.len() implies fin.entities@.contains_key(
                            #[trigger] en.entities@[q2],
                        ) && fin.entities@[en.entities@[q2]] == cid2 by {
                            assert(pre.entities@.contains_key(en.entities@[q2])
                                && pre.entities@[en.entities@[q2]] == cid2);
                            assert(en.entities@[q2] != entity);
                        }
                    }
                }
                assert(fin.inv_entities()) by {
                    assert forall|e2: u64| #[trigger] fin.entities@.contains_key(e2) implies
                        fin.conditions@.contains_key(fin.entities@[e2])
                        && fin.conditions@[fin.entities@[e2]].entities@.contains(e2) by {
                        assert(e2 != entity);
                        assert(pre.entities@.contains_key(e2));
                        let cid2 = pre.entities@[e2];
                        if cid2 == cid {
                            assert(pre.conditions@[cid].entities@.contains(e2));
                            assert(gone_entities.contains(e2));
                            assert(gone_entities.len() > 0);
                            assert(false);
                        }
                    }
                }
                assert(fin.inv_attributes()) by {
                    assert forall|a: u128, cid2: u128|
                        fin.attributes@.contains_key(a) && #[trigger] fin.attributes@[a]@.contains(
                            cid2,
                        ) implies fin.conditions@.contains_key(cid2) && mentioned_keys(
                        fin.conditions@[cid2].condition.nodes@,
                    ).contains(a) by {
                        if exists|t2: int|
                            0 <= t2 < an && (#[trigger] attr_list@[t2]).spec_key() == a {
                            assert(pre.attributes@[a]@.contains(cid2) && cid2 != cid);
                        } else {
                            assert(fin.attributes@[a] == pre.attributes@[a]);
                            assert(pre.attributes@[a]@.contains(cid2));
                            if cid2 == cid {
                                assert(mentioned_keys(nodes).contains(a));
                                let t2 = choose|t2: int|
                                    0 <= t2 < attrs_of(nodes).len() && attrs_of(
                                        nodes,
                                    )[t2].spec_key() == a;
                                assert(attr_list@[t2].spec_key() == a);
                                assert(false);
                            }
                        }
                    }
                    assert forall|a: u128, cid2: u128|
                        #[trigger] fin.conditions@.contains_key(cid2) && #[trigger] mentioned_keys(
                            fin.conditions@[cid2].condition.nodes@,
                        ).contains(a) implies fin.attributes@.contains_key(a)
                        && fin.attributes@[a]@.contains(cid2) by {
                        assert(cid2 != cid);
                        assert(pre.attributes@.contains_key(a) && pre.attributes@[a]@.contains(
                            cid2,
                        ));
                        if exists|t2: int|
                            0 <= t2 < an && (#[trigger] attr_list@[t2]).spec_key() == a {
                            assert(fin.attributes@.contains_key(a)) by {
                                assert(pre.attributes@[a]@.contains(cid2) && cid2 != cid);
                            }
                        } else {
                            assert(fin.attributes@[a] == pre.attributes@[a]);
                        }
                    }
                }
                assert(fin.inv_sink()) by {
                    assert forall|e2: u64, k: u64|
                        #[trigger] fin.entities@.contains_key(e2)
                        && #[trigger] fin.clients@.contains_key(k) implies emitted_or_false(
                        fin.emitted@,
                        e2,
                        k,
                    ) == eval_attrs(
                        fin.conditions@[fin.entities@[e2]].condition,
                        fin.clients@[k]@,
                    ) by {
                        assert(e2 != entity);
                        assert(emitted_or_false(fin.emitted@, e2, k) == emitted_or_false(
                            m0,
                            e2,
                            k,
                        ));
                        assert(pre.entities@.contains_key(e2));
                    }
                    assert forall|p: (u64, u64)| #[trigger] fin.emitted@.contains_key(p) implies
                        fin.clients@.contains_key(p.1) by {
                        assert(p == (p.0, p.1));
                        if p.0 != entity {
                            assert(fin.emitted@.contains_key((p.0, p.1)));
                            assert(m0.contains_key((p.0, p.1)));
                            assert(m0.contains_key(p));
                        } else {
                            if !entry_clients_ghost.contains(p.1) {
                                assert(fin.emitted@.contains_key((p.0, p.1)));
                                assert(m0.contains_key((p.0, p.1)));
                                assert(m0.contains_key(p));
                            } else {
                                assert(pre.conditions@[cid].clients@.contains(p.1));
                                assert(pre.clients@.contains_key(p.1));
                            }
                        }
                    }
                    assert forall|e2: u64, k: u64| #[trigger]
                        emitted_or_false(fin.emitted@, e2, k) implies fin.entities@.contains_key(
                        e2,
                    ) by {
                        if e2 != entity {
                            assert(emitted_or_false(m0, e2, k));
                            assert(pre.entities@.contains_key(e2));
                        } else {
                            if entry_clients_ghost.contains(k) {
                                assert(!fin.emitted@[(entity, k)]);
                                assert(false);
                            } else {
                                assert(emitted_or_false(m0, entity, k));
                                assert(pre.entities@.contains_key(entity));
                                assert(false);
                            }
                        }
                    }
                }
            }
        } else {
            self.conditions.insert(cid, entry);
            proof {
                let fin = *self;
                let pre = *old(self);
                assert(fin.conditions@.dom() =~= pre.conditions@.dom());
                assert(fin.inv_conditions()) by {
                    assert forall|cid2: u128| #[trigger] fin.conditions@.contains_key(cid2) implies {
                        let en = fin.conditions@[cid2];
                        &&& en.condition.wf()
                        &&& spec_condition_id(en.condition.nodes@) == cid2
                        &&& en.entities@.no_duplicates()
                        &&& en.entities@.len() > 0
                        &&& en.clients@.no_duplicates()
                        &&& (forall|q2: int|
                            0 <= q2 < en.entities@.len() ==> fin.entities@.contains_key(
                                #[trigger] en.entities@[q2],
                            ) && fin.entities@[en.entities@[q2]] == cid2)
                        &&& (forall|k: u64| #[trigger]
                            en.clients@.contains(k) ==> fin.clients@.contains_key(k) && eval_attrs(
                                en.condition,
                                fin.clients@[k]@,
                            ))
                        &&& (forall|k: u64|
                            fin.clients@.contains_key(k) && #[trigger] eval_attrs(
                                en.condition,
                                fin.clients@[k]@,
                            ) ==> en.clients@.contains(k))
                    } by {
                        let en = fin.conditions@[cid2];
                        let en0 = pre.conditions@[cid2];
                        if cid2 == cid {
                            assert(en.condition.nodes@ == en0.condition.nodes@);
                            assert(en.condition.expr == en0.condition.expr);
                            assert(en.clients@ == en0.clients@);
                            assert forall|q2: int|
                                0 <= q2 < en.entities@.len() implies fin.entities@.contains_key(
                                #[trigger] en.entities@[q2],
                            ) && fin.entities@[en.entities@[q2]] == cid2 by {
                                assert(en.entities@.contains(en.entities@[q2]));
                                assert(en0.entities@.contains(en.entities@[q2])
                                    && en.entities@[q2] != entity);
                                assert(pre.entities@.contains_key(en.entities@[q2])
                                    && pre.entities@[en.entities@[q2]] == cid);
                            }
                            assert forall|k: u64| #[trigger] en.clients@.contains(k) implies
                                fin.clients@.contains_key(k) && eval_attrs(
                                en.condition,
                                fin.clients@[k]@,
                            ) by {
                                assert(en0.clients@.contains(k));
                                assert(eval_attrs(en.condition, fin.clients@[k]@)
                                    == eval_attrs(en0.condition, pre.clients@[k]@)) by {
                                    assert(en.condition.expr == en0.condition.expr);
                                }
                            }
                            assert forall|k: u64|
                                fin.clients@.contains_key(k) && #[trigger] eval_attrs(
                                    en.condition,
                                    fin.clients@[k]@,
                                ) implies en.clients@.contains(k) by {
                                assert(eval_attrs(en0.condition, pre.clients@[k]@)) by {
                                    assert(en.condition.expr == en0.condition.expr);
                                }
                            }
                        } else {
                            assert(en == en0);
                            assert forall|q2: int|
                                0 <= q2 < en.entities@.len() implies fin.entities@.contains_key(
                                #[trigger] en.entities@[q2],
                            ) && fin.entities@[en.entities@[q2]] == cid2 by {
                                assert(pre.entities@.contains_key(en.entities@[q2])
                                    && pre.entities@[en.entities@[q2]] == cid2);
                                assert(en.entities@[q2] != entity);
                            }
                        }
                    }
                }
                assert(fin.inv_entities()) by {
                    assert forall|e2: u64| #[trigger] fin.entities@.contains_key(e2) implies
                        fin.conditions@.contains_key(fin.entities@[e2])
                        && fin.conditions@[fin.entities@[e2]].entities@.contains(e2) by {
                        assert(e2 != entity);
                        assert(pre.entities@.contains_key(e2));
                        let cid2 = pre.entities@[e2];
                        if cid2 == cid {
                            assert(pre.conditions@[cid].entities@.contains(e2));
                            assert(fin.conditions@[cid].entities@.contains(e2));
                        }
                    }
                }
                assert(fin.inv_attributes()) by {
                    assert forall|a: u128, cid2: u128|
                        #[trigger] fin.conditions@.contains_key(cid2) && #[trigger] mentioned_keys(
                            fin.conditions@[cid2].condition.nodes@,
                        ).contains(a) implies fin.attributes@.contains_key(a)
                        && fin.attributes@[a]@.contains(cid2) by {
                        assert(fin.conditions@[cid2].condition.nodes@
                            == pre.conditions@[cid2].condition.nodes@);
                    }
                }
                assert(fin.inv_sink()) by {
                    assert forall|e2: u64, k: u64|
                        #[trigger] fin.entities@.contains_key(e2)
                        && #[trigger] fin.clients@.contains_key(k) implies emitted_or_false(
                        fin.emitted@,
                        e2,
                        k,
                    ) == eval_attrs(
                        fin.conditions@[fin.entities@[e2]].condition,
                        fin.clients@[k]@,
                    ) by {
                        assert(e2 != entity);
                        assert(emitted_or_false(fin.emitted@, e2, k) == emitted_or_false(
                            m0,
                            e2,
                            k,
                        ));
                        assert(pre.entities@.contains_key(e2));
                        let cid2 = pre.entities@[e2];
                        assert(fin.conditions@[cid2].condition.expr
                            == pre.conditions@[cid2].condition.expr);
                    }
                    assert forall|p: (u64, u64)| #[trigger] fin.emitted@.contains_key(p) implies
                        fin.clients@.contains_key(p.1) by {
                        assert(p == (p.0, p.1));
                        if p.0 != entity {
                            assert(fin.emitted@.contains_key((p.0, p.1)));
                            assert(m0.contains_key((p.0, p.1)));
                            assert(m0.contains_key(p));
                        } else {
                            if !entry_clients_ghost.contains(p.1) {
                                assert(fin.emitted@.contains_key((p.0, p.1)));
                                assert(m0.contains_key((p.0, p.1)));
                                assert(m0.contains_key(p));
                            } else {
                                assert(pre.conditions@[cid].clients@.contains(p.1));
                                assert(pre.clients@.contains_key(p.1));
                            }
                        }
                    }
                    assert forall|e2: u64, k: u64| #[trigger]
                        emitted_or_false(fin.emitted@, e2, k) implies fin.entities@.contains_key(
                        e2,
                    ) by {
                        if e2 != entity {
                            assert(emitted_or_false(m0, e2, k));
                            assert(pre.entities@.contains_key(e2));
                        } else {
                            if entry_clients_ghost.contains(k) {
                                assert(!fin.emitted@[(entity, k)]);
                                assert(false);
                            } else {
                                assert(emitted_or_false(m0, entity, k));
                                assert(pre.entities@.contains_key(entity));
                                assert(false);
                            }
                        }
                    }
                }
            }
        }
        true
    }

    /// Removes a client: its attribute set is discarded (the buffer is
    /// recycled) and it disappears from every condition's client set. No
    /// updates are forwarded; the host clears the client's sink state
    /// itself when the client goes away.
    pub fn remove_client(&mut self, client_id: u64)
        requires
            old(self).inv(),
        ensures
            final(self).inv(),
            final(self).clients@ == old(self).clients@.remove(client_id),
            final(self).entities@ == old(self).entities@,
            final(self).conditions@.dom() == old(self).conditions@.dom(),
            final(self).server_id == old(self).server_id,
            final(self).emitted@ == old(self).emitted@.remove_keys(client_pairs(client_id)),
    {
        match self.take_client_attrs(client_id) {
            Some(v) => {
                release_buffer(&mut self.attribute_ids_buffer, v);
            },
            None => {},
        }
    }
}

/// Sink consistency law: in any cache state reachable through the public
/// operations (all of which preserve [`VisibilityCache::inv`]), the last
/// visibility value forwarded to the replication sink for a tracked entity
/// and a known client equals the evaluation of the entity's condition
/// against the client's current attribute set.
pub proof fn lemma_sink_consistency(cache: VisibilityCache, entity: u64, client: u64)
    requires
        cache.inv(),
        cache.spec_entities().contains_key(entity),
        cache.spec_clients().contains_key(client),
    ensures
        emitted_or_false(cache.spec_emitted(), entity, client) == eval_attrs(
            cache.spec_conditions()[cache.spec_entities()[entity]].condition,
            cache.spec_clients()[client]@,
        ),
{
}

/// Evaluates a well-formed condition against a client's attribute list.
fn eval_condition(c: &VisibilityCondition, attrs: &Vec<VisibilityAttributeId>) -> (r: bool)
    requires
        c.wf(),
    ensures
        r == eval_attrs(*c, attrs@),
{
    let f = |a: VisibilityAttributeId| -> (b: bool)
        ensures
            b == attrs@.contains(a),
        { vec_contains_attr(attrs, a) };
    let r = c.evaluate(f);
    proof {
        let p = |a: VisibilityAttributeId| attrs@.contains(a);
        assert(inspector_models(f, p)) by {
            assert forall|a: VisibilityAttributeId, b: bool|
                #[trigger] call_ensures(f, (a,), b) implies b == p(a) by {}
        }
        assert(r == sem(c.expr, p));
    }
    r
}

} // verus!
