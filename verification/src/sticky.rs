//! Sticky sessions: which account a client session is bound to.
//!
//! A binding names its account by id. It lasts until it has not been hit for
//! the configured time, or until it has to make room: a full map gives up the
//! binding that was hit least recently. The sessions are spread over a fixed
//! number of shards by a hash of the session id, so that each shard can be
//! guarded on its own.

use crate::table::{index_of, Table};
use vstd::prelude::*;
use vstd::utf8::encode_utf8;

verus! {

/// Where a request carries its session id.
#[derive(Debug)]
pub enum SessionKey {
    /// In the header of this name.
    Header(String),
    /// In the query parameter of this name.
    QueryParam(String),
    /// In the body, at this JSON pointer.
    BodyField(String),
}

/// Settings of sticky scheduling.
#[derive(Debug)]
pub struct StickySessionConfig {
    pub enabled: bool,
    /// Seconds without a hit after which a binding expires.
    pub sticky_ttl_secs: u32,
    pub session_key: SessionKey,
    /// Whether a session leaves an account that is no longer eligible.
    pub fallback_on_unhealthy: bool,
    /// Most bindings kept at a time.
    pub max_bindings: u32,
}

impl Default for StickySessionConfig {
    fn default() -> (c: StickySessionConfig)
        ensures
            c.enabled,
            c.sticky_ttl_secs == 600,
            c.session_key matches SessionKey::Header(name) && name@ == "x-session-id"@,
            c.fallback_on_unhealthy,
            c.max_bindings == 1024,
    {
        StickySessionConfig {
            enabled: true,
            sticky_ttl_secs: 600,
            session_key: SessionKey::Header(String::from_str("x-session-id")),
            fallback_on_unhealthy: true,
            max_bindings: 1024,
        }
    }
}

impl SessionKey {
    /// A copy of the key.
    pub fn duplicate(&self) -> (k: SessionKey)
        ensures
            k == *self,
    {
        match self {
            SessionKey::Header(name) => SessionKey::Header(name.clone()),
            SessionKey::QueryParam(name) => SessionKey::QueryParam(name.clone()),
            SessionKey::BodyField(pointer) => SessionKey::BodyField(pointer.clone()),
        }
    }
}

impl StickySessionConfig {
    /// A copy of the settings.
    pub fn duplicate(&self) -> (c: StickySessionConfig)
        ensures
            c == *self,
    {
        StickySessionConfig {
            enabled: self.enabled,
            sticky_ttl_secs: self.sticky_ttl_secs,
            session_key: self.session_key.duplicate(),
            fallback_on_unhealthy: self.fallback_on_unhealthy,
            max_bindings: self.max_bindings,
        }
    }
}

/// One session's binding to an account.
#[derive(Debug)]
pub struct Binding {
    pub account_id: String,
    pub bound_at: u64,
    pub last_hit_at: u64,
}

/// The value of a [`Binding`].
pub struct BindingModel {
    pub account: Seq<char>,
    pub bound_at: u64,
    pub last_hit_at: u64,
}

impl BindingModel {
    /// Whether the binding has gone without a hit for more than `ttl` seconds
    /// at `now`.
    pub open spec fn expired_at(self, now: u64, ttl: u64) -> bool {
        self.last_hit_at + ttl < now
    }

    /// The binding after a hit at `now`.
    pub open spec fn hit_at(self, now: u64) -> BindingModel {
        BindingModel { last_hit_at: now, ..self }
    }

    /// The binding of an account made at `now`.
    pub open spec fn fresh(account: Seq<char>, now: u64) -> BindingModel {
        BindingModel { account, bound_at: now, last_hit_at: now }
    }
}

impl View for Binding {
    type V = BindingModel;

    open spec fn view(&self) -> BindingModel {
        BindingModel {
            account: self.account_id@,
            bound_at: self.bound_at,
            last_hit_at: self.last_hit_at,
        }
    }
}

impl Binding {
    /// Whether the binding has expired at `now`.
    pub fn is_expired(&self, now: u64, ttl: u64) -> (r: bool)
        ensures
            r == self@.expired_at(now, ttl),
    {
        match self.last_hit_at.checked_add(ttl) {
            Some(end) => end < now,
            None => false,
        }
    }

    /// A copy of the binding.
    pub fn duplicate(&self) -> (b: Binding)
        ensures
            b == *self,
    {
        Binding {
            account_id: self.account_id.clone(),
            bound_at: self.bound_at,
            last_hit_at: self.last_hit_at,
        }
    }
}

/// Index of the binding that was hit least recently; among equals, the first.
pub open spec fn oldest(values: Seq<Binding>) -> int
    decreases values.len(),
{
    if values.len() <= 1 {
        0
    } else {
        let rest = oldest(values.drop_last());
        if values.last().last_hit_at < values[rest].last_hit_at {
            values.len() - 1
        } else {
            rest
        }
    }
}

/// `oldest` is an index of a binding that none was hit before.
pub proof fn lemma_oldest(values: Seq<Binding>)
    requires
        values.len() > 0,
    ensures
        0 <= oldest(values) < values.len(),
        forall|j: int|
            0 <= j < values.len() ==> values[oldest(values)].last_hit_at <= (
            #[trigger] values[j]).last_hit_at,
    decreases values.len(),
{
    if values.len() > 1 {
        let head = values.drop_last();
        lemma_oldest(head);
        assert forall|j: int| 0 <= j < values.len() implies values[oldest(values)].last_hit_at <= (
        #[trigger] values[j]).last_hit_at by {
            if j < head.len() {
                assert(head[j] == values[j]);
            }
        }
    }
}

/// The sessions and their bindings that are left once at most `capacity`
/// are kept: while there are more, the binding that was hit least recently
/// goes; among equals, the one set first.
pub open spec fn trim(keys: Seq<Seq<char>>, values: Seq<Binding>, capacity: int) -> (
    Seq<Seq<char>>,
    Seq<Binding>,
)
    decreases keys.len(),
{
    let at = oldest(values);
    if keys.len() <= capacity || keys.len() != values.len() || !(0 <= at < keys.len()) {
        (keys, values)
    } else {
        trim(keys.remove(at), values.remove(at), capacity)
    }
}

/// The bindings of one shard, at most `capacity` of them.
pub struct StickyMap {
    bindings: Table<Binding>,
    capacity: usize,
}

impl View for StickyMap {
    type V = Map<Seq<char>, BindingModel>;

    /// The bindings, by session id.
    closed spec fn view(&self) -> Map<Seq<char>, BindingModel> {
        self.bindings@.map_values(|b: Binding| b@)
    }
}

impl StickyMap {
    /// The representation is sound, and the map within its capacity.
    pub closed spec fn wf(&self) -> bool {
        &&& self.bindings.wf()
        &&& self.bindings.keys().len() <= self.capacity
    }

    /// Most bindings that the map keeps.
    pub closed spec fn capacity(&self) -> usize {
        self.capacity
    }

    /// The session whose binding goes when a full map has to make room: one
    /// that was hit least recently.
    pub closed spec fn victim(&self) -> Seq<char> {
        self.bindings.keys()[oldest(self.bindings.values())]
    }

    /// The binding of `session` that is in force at `now`.
    pub open spec fn live(&self, session: Seq<char>, now: u64, ttl: u64) -> Option<BindingModel> {
        if self@.contains_key(session) && !self@[session].expired_at(now, ttl) {
            Some(self@[session])
        } else {
            None
        }
    }

    /// The bindings after `session` is bound by `binding`: a known session
    /// and a map with room just take it; a full map first gives up its
    /// victim; a map without capacity stays empty.
    pub open spec fn bound(&self, session: Seq<char>, binding: BindingModel) -> Map<
        Seq<char>,
        BindingModel,
    > {
        if self@.contains_key(session) || self@.dom().len() < self.capacity() {
            self@.insert(session, binding)
        } else if self.capacity() == 0 {
            self@
        } else {
            self@.remove(self.victim()).insert(session, binding)
        }
    }

    /// The bindings that are left once the map keeps at most `capacity` of
    /// them: see [`trim`].
    pub closed spec fn trimmed(&self, capacity: int) -> Map<Seq<char>, BindingModel> {
        let left = trim(self.bindings.keys(), self.bindings.values(), capacity);
        crate::table::paired(left.0, left.1).map_values(|b: Binding| b@)
    }

    /// Whether `after` may be what is left of the bindings once the map
    /// keeps at most `capacity` of them: as many of them as fit, each as it
    /// was, and none of those that went was hit later than one that stayed.
    pub open spec fn trimmed_to(&self, capacity: int, after: Map<Seq<char>, BindingModel>) -> bool {
        &&& after.dom().finite()
        &&& after.submap_of(self@)
        &&& after.dom().len() == if self@.dom().len() <= capacity {
            self@.dom().len() as int
        } else {
            capacity
        }
        &&& forall|gone: Seq<char>, kept: Seq<char>|
            #![trigger after.contains_key(gone), after.contains_key(kept)]
            self@.contains_key(gone) && !after.contains_key(gone) && after.contains_key(kept)
                ==> self@[gone].last_hit_at <= after[kept].last_hit_at
    }

    /// A map within its capacity is left as it is.
    pub proof fn lemma_trimmed_same(&self)
        requires
            self.wf(),
        ensures
            self.trimmed(self.capacity() as int) == self@,
    {
        self.bindings.lemma_view();
    }

    /// Where everything fits, everything is left.
    pub proof fn lemma_trimmed_roomy(&self, capacity: int, after: Map<Seq<char>, BindingModel>)
        requires
            self.wf(),
            self.trimmed_to(capacity, after),
            self@.dom().len() <= capacity,
        ensures
            after == self@,
    {
        self.lemma_within_capacity();
        assert(after.dom().subset_of(self@.dom()));
        vstd::set_lib::lemma_subset_equality(after.dom(), self@.dom());
        assert(after =~= self@);
    }

    /// A well-formed map is finite and within its capacity.
    pub proof fn lemma_within_capacity(&self)
        requires
            self.wf(),
        ensures
            self@.dom().finite(),
            self@.dom().len() <= self.capacity(),
    {
        self.bindings.lemma_len();
        self.lemma_dom();
    }

    /// The victim of a map that is not empty is bound, and no binding was
    /// hit before it.
    pub proof fn lemma_victim(&self)
        requires
            self.wf(),
            self@.dom().len() > 0,
        ensures
            self@.contains_key(self.victim()),
            forall|s: Seq<char>|
                self@.contains_key(s) ==> self@[self.victim()].last_hit_at <= (
                #[trigger] self@[s]).last_hit_at,
    {
        self.bindings.lemma_len();
        self.lemma_dom();
        let values = self.bindings.values();
        lemma_oldest(values);
        self.bindings.lemma_entry(oldest(values));
        assert forall|s: Seq<char>| self@.contains_key(s) implies self@[self.victim()].last_hit_at
            <= (#[trigger] self@[s]).last_hit_at by {
            self.bindings.lemma_key(s);
        }
    }

    /// The view has the sessions of the table.
    proof fn lemma_dom(&self)
        ensures
            self@.dom() == self.bindings@.dom(),
            forall|s: Seq<char>|
                self.bindings@.contains_key(s) ==> (#[trigger] self@[s]) == self.bindings@[s]@,
    {
        assert(self@.dom() =~= self.bindings@.dom());
    }

    /// An empty map that keeps at most `capacity` bindings.
    pub fn new(capacity: usize) -> (m: StickyMap)
        ensures
            m.wf(),
            m.capacity() == capacity,
            m@ == Map::<Seq<char>, BindingModel>::empty(),
    {
        let m = StickyMap { bindings: Table::new(), capacity };
        assert(m@ =~= Map::<Seq<char>, BindingModel>::empty());
        m
    }

    /// The number of bindings.
    pub fn len(&self) -> (n: usize)
        requires
            self.wf(),
        ensures
            n == self@.dom().len(),
            n <= self.capacity(),
    {
        proof {
            self.bindings.lemma_len();
            self.lemma_dom();
        }
        self.bindings.len()
    }

    /// The binding of `session` that is in force at `now`.
    pub fn lookup(&self, session: &str, now: u64, ttl: u64) -> (r: Option<&Binding>)
        requires
            self.wf(),
        ensures
            match r {
                Some(b) => self.live(session@, now, ttl) == Some(b@),
                None => self.live(session@, now, ttl) is None,
            },
    {
        proof {
            self.lemma_dom();
        }
        match self.bindings.get(session) {
            Some(b) => if b.is_expired(now, ttl) {
                None
            } else {
                Some(b)
            },
            None => None,
        }
    }

    fn oldest_index(&self) -> (at: usize)
        requires
            self.wf(),
            self.bindings.keys().len() > 0,
        ensures
            at == oldest(self.bindings.values()),
            at < self.bindings.keys().len(),
    {
        let n = self.bindings.len();
        let ghost values = self.bindings.values();
        let mut best: usize = 0;
        let mut i: usize = 1;
        proof {
            assert(values.take(1).len() == 1);
        }
        while i < n
            invariant
                1 <= i <= n,
                n == values.len(),
                self.wf(),
                values == self.bindings.values(),
                best == oldest(values.take(i as int)),
                best < i,
            decreases n - i,
        {
            proof {
                let next = values.take(i + 1);
                assert(next.drop_last() =~= values.take(i as int));
                assert(next.last() == values[i as int]);
                assert(next[best as int] == values[best as int]);
            }
            if self.bindings.value_at(i).last_hit_at < self.bindings.value_at(best).last_hit_at {
                best = i;
            }
            i += 1;
        }
        proof {
            assert(values.take(n as int) =~= values);
        }
        best
    }

    /// Binds `session` to `account_id` at `now`.
    pub fn bind(&mut self, session: &str, account_id: &str, now: u64)
        requires
            old(self).wf(),
        ensures
            final(self).wf(),
            final(self).capacity() == old(self).capacity(),
            final(self)@ == old(self).bound(session@, BindingModel::fresh(account_id@, now)),
    {
        let binding = Binding {
            account_id: String::from_str(account_id),
            bound_at: now,
            last_hit_at: now,
        };
        let ghost b = binding@;
        let ghost before = self.bindings@;
        proof {
            self.bindings.lemma_len();
            self.bindings.lemma_absent(session@);
            self.lemma_dom();
        }
        let known = self.bindings.find(session).is_some();
        if known || self.bindings.len() < self.capacity {
            self.bindings.set(session, binding);
        } else if self.capacity > 0 {
            let at = self.oldest_index();
            proof {
                self.bindings.lemma_entry(at as int);
            }
            self.bindings.remove_at(at);
            proof {
                self.bindings.lemma_absent(session@);
            }
            self.bindings.set(session, binding);
        }
        assert(self@ =~= old(self).bound(session@, b));
    }

    /// Records a hit of `session` at `now`. Returns whether it is bound.
    pub fn touch(&mut self, session: &str, now: u64) -> (hit: bool)
        requires
            old(self).wf(),
        ensures
            final(self).wf(),
            final(self).capacity() == old(self).capacity(),
            hit == old(self)@.contains_key(session@),
            hit ==> final(self)@ == old(self)@.insert(session@, old(self)@[session@].hit_at(now)),
            !hit ==> final(self)@ == old(self)@,
    {
        proof {
            self.lemma_dom();
        }
        match self.bindings.find(session) {
            Some(at) => {
                let b = self.bindings.value_at(at);
                let next = Binding {
                    account_id: b.account_id.clone(),
                    bound_at: b.bound_at,
                    last_hit_at: now,
                };
                self.bindings.set(session, next);
                assert(self@ =~= old(self)@.insert(session@, old(self)@[session@].hit_at(now)));
                true
            },
            None => false,
        }
    }

    /// Removes the binding of `session`. Returns whether there was one.
    pub fn unbind(&mut self, session: &str) -> (was_bound: bool)
        requires
            old(self).wf(),
        ensures
            final(self).wf(),
            final(self).capacity() == old(self).capacity(),
            was_bound == old(self)@.contains_key(session@),
            final(self)@ == old(self)@.remove(session@),
    {
        proof {
            self.lemma_dom();
        }
        match self.bindings.find(session) {
            Some(at) => {
                self.bindings.remove_at(at);
                assert(self@ =~= old(self)@.remove(session@));
                true
            },
            None => {
                assert(self@ =~= old(self)@.remove(session@));
                false
            },
        }
    }

    /// Gives the map the capacity `capacity`. The bindings stay; where they
    /// are more than the new capacity, those hit least recently go until
    /// the rest fits.
    pub fn resize(&mut self, capacity: usize)
        requires
            old(self).wf(),
        ensures
            final(self).wf(),
            final(self).capacity() == capacity,
            final(self)@ == old(self).trimmed(capacity as int),
            old(self).trimmed_to(capacity as int, final(self)@),
            old(self)@.dom().len() <= capacity ==> final(self)@ == old(self)@,
    {
        proof {
            self.lemma_within_capacity();
            self.bindings.lemma_len();
            self.lemma_dom();
        }
        while self.bindings.len() > capacity
            invariant
                self.wf(),
                old(self).wf(),
                self.capacity == old(self).capacity,
                self@.submap_of(old(self)@),
                self@.dom().finite(),
                old(self)@.dom().finite(),
                self@.dom().len() == self.bindings.keys().len(),
                self@.dom().len() <= old(self)@.dom().len(),
                self@.dom().len() >= capacity || self@.dom().len() == old(self)@.dom().len(),
                old(self)@.dom().len() <= capacity ==> self@ == old(self)@,
                trim(self.bindings.keys(), self.bindings.values(), capacity as int) == trim(
                    old(self).bindings.keys(),
                    old(self).bindings.values(),
                    capacity as int,
                ),
                forall|gone: Seq<char>, kept: Seq<char>|
                    #![trigger self@.contains_key(gone), self@.contains_key(kept)]
                    old(self)@.contains_key(gone) && !self@.contains_key(gone) && self@.contains_key(
                        kept,
                    ) ==> old(self)@[gone].last_hit_at <= self@[kept].last_hit_at,
            decreases self.bindings.keys().len(),
        {
            let ghost before = self@;
            let ghost victim = self.victim();
            proof {
                self.lemma_victim();
            }
            let at = self.oldest_index();
            self.bindings.remove_at(at);
            proof {
                self.lemma_dom();
                self.bindings.lemma_len();
                assert(self@ =~= before.remove(victim));
                assert forall|gone: Seq<char>, kept: Seq<char>|
                    #![trigger self@.contains_key(gone), self@.contains_key(kept)]
                    old(self)@.contains_key(gone) && !self@.contains_key(gone)
                        && self@.contains_key(kept) implies old(self)@[gone].last_hit_at
                    <= self@[kept].last_hit_at by {
                    assert(before.contains_key(kept));
                    if gone == victim {
                        assert(before[victim].last_hit_at <= before[kept].last_hit_at);
                    } else {
                        assert(!before.contains_key(gone));
                    }
                }
            }
        }
        proof {
            self.bindings.lemma_view();
        }
        self.capacity = capacity;
    }

    /// Removes every binding.
    pub fn clear_all(&mut self)
        requires
            old(self).wf(),
        ensures
            final(self).wf(),
            final(self).capacity() == old(self).capacity(),
            final(self)@ == Map::<Seq<char>, BindingModel>::empty(),
    {
        self.bindings.clear();
        assert(self@ =~= Map::<Seq<char>, BindingModel>::empty());
    }

    /// Removes the bindings that have expired at `now`. Returns how many.
    pub fn evict_expired(&mut self, now: u64, ttl: u64) -> (evicted: usize)
        requires
            old(self).wf(),
        ensures
            final(self).wf(),
            final(self).capacity() == old(self).capacity(),
            forall|s: Seq<char>|
                #![trigger final(self)@.contains_key(s)]
                final(self)@.contains_key(s) <==> old(self)@.contains_key(s) && !old(
                    self,
                )@[s].expired_at(now, ttl),
            forall|s: Seq<char>|
                final(self)@.contains_key(s) ==> (#[trigger] final(self)@[s]) == old(self)@[s],
            evicted + final(self)@.dom().len() == old(self)@.dom().len(),
    {
        let mut kept: Table<Binding> = Table::new();
        let mut evicted: usize = 0;
        let n = self.bindings.len();
        let mut i: usize = 0;
        let ghost keys = self.bindings.keys();
        let ghost values = self.bindings.values();
        while i < n
            invariant
                i <= n,
                n == keys.len(),
                n <= self.capacity,
                self.bindings.wf(),
                keys == self.bindings.keys(),
                values == self.bindings.values(),
                kept.wf(),
                evicted + kept.keys().len() == i,
                forall|k: Seq<char>|
                    #![trigger kept@.contains_key(k)]
                    kept@.contains_key(k) <==> exists|j: int|
                        0 <= j < i && keys[j] == k && !values[j]@.expired_at(now, ttl),
                forall|j: int|
                    0 <= j < i && !(#[trigger] values[j])@.expired_at(now, ttl) ==> kept@[keys[j]]
                        == values[j],
            decreases n - i,
        {
            let b = self.bindings.value_at(i);
            let ghost kept0 = kept@;
            if b.is_expired(now, ttl) {
                evicted += 1;
            } else {
                proof {
                    if kept@.contains_key(keys[i as int]) {
                        let j = choose|j: int|
                            0 <= j < i && keys[j] == keys[i as int] && !values[j]@.expired_at(
                                now,
                                ttl,
                            );
                        assert(keys[j] != keys[i as int]);
                    }
                    kept.lemma_absent(keys[i as int]);
                }
                kept.set(self.bindings.key_at(i), b.duplicate());
            }
            proof {
                assert forall|k: Seq<char>|
                    #![trigger kept@.contains_key(k)]
                    kept@.contains_key(k) <==> exists|j: int|
                        0 <= j < i + 1 && keys[j] == k && !values[j]@.expired_at(now, ttl) by {
                    if kept@.contains_key(k) {
                        if kept0.contains_key(k) {
                            let j = choose|j: int|
                                0 <= j < i && keys[j] == k && !values[j]@.expired_at(now, ttl);
                            assert(0 <= j < i + 1 && keys[j] == k && !values[j]@.expired_at(
                                now,
                                ttl,
                            ));
                        } else {
                            assert(keys[i as int] == k && !values[i as int]@.expired_at(now, ttl));
                        }
                    }
                    if exists|j: int|
                        0 <= j < i + 1 && keys[j] == k && !values[j]@.expired_at(now, ttl) {
                        let j = choose|j: int|
                            0 <= j < i + 1 && keys[j] == k && !values[j]@.expired_at(now, ttl);
                        if j < i {
                            assert(kept0.contains_key(k));
                        }
                    }
                }
                assert forall|j: int|
                    0 <= j < i + 1 && !(#[trigger] values[j])@.expired_at(
                        now,
                        ttl,
                    ) implies kept@[keys[j]] == values[j] by {
                    if j < i {
                        assert(kept0.contains_key(keys[j]));
                        assert(keys[j] != keys[i as int]);
                    }
                }
            }
            i += 1;
        }
        proof {
            let before = self.bindings@;
            self.lemma_dom();
            assert forall|s: Seq<char>|
                #![trigger kept@.contains_key(s)]
                kept@.contains_key(s) <==> before.contains_key(s) && !before[s]@.expired_at(
                    now,
                    ttl,
                ) by {
                if kept@.contains_key(s) {
                    let j = choose|j: int|
                        0 <= j < n && keys[j] == s && !values[j]@.expired_at(now, ttl);
                    self.bindings.lemma_entry(j);
                }
                if before.contains_key(s) && !before[s]@.expired_at(now, ttl) {
                    self.bindings.lemma_key(s);
                    let j = index_of(keys, s);
                    assert(0 <= j < n && keys[j] == s && !values[j]@.expired_at(now, ttl));
                }
            }
            assert forall|s: Seq<char>| kept@.contains_key(s) implies (#[trigger] kept@[s])
                == before[s] by {
                let j = choose|j: int| 0 <= j < n && keys[j] == s && !values[j]@.expired_at(now, ttl);
                self.bindings.lemma_entry(j);
            }
            kept.lemma_len();
            self.bindings.lemma_len();
        }
        self.bindings = kept;
        proof {
            self.lemma_dom();
        }
        evicted
    }
}

/// The number of shards.
pub const SHARDS: usize = 16;

/// The 64-bit FNV-1a hash of `bytes`.
pub open spec fn fnv1a(bytes: Seq<u8>) -> u64
    decreases bytes.len(),
{
    if bytes.len() == 0 {
        0xcbf2_9ce4_8422_2325u64
    } else {
        (fnv1a(bytes.drop_last()) ^ (bytes.last() as u64)).wrapping_mul(0x0000_0100_0000_01b3u64)
    }
}

/// The shard that keeps the binding of `session`: the hash of the id's
/// UTF-8 bytes, modulo the number of shards.
pub open spec fn shard_of(session: Seq<char>) -> int {
    (fnv1a(encode_utf8(session)) % (SHARDS as u64)) as int
}

/// The share of `max_bindings` that shard `shard` keeps. The shares differ
/// by at most one and add up to `max_bindings`.
pub open spec fn shard_capacity(max_bindings: u32, shard: int) -> int {
    max_bindings / (SHARDS as u32) + if shard < max_bindings % (SHARDS as u32) {
        1int
    } else {
        0int
    }
}

/// The shares of the first `n` shards together.
pub open spec fn capacity_upto(max_bindings: u32, n: int) -> int
    decreases n,
{
    if n <= 0 {
        0
    } else {
        capacity_upto(max_bindings, n - 1) + shard_capacity(max_bindings, n - 1)
    }
}

/// The shares of the first `n` shards add up to `n` times the common part
/// and one more for each of the first `max_bindings % SHARDS` shards.
pub proof fn lemma_capacity_upto(max_bindings: u32, n: int)
    requires
        0 <= n <= SHARDS,
    ensures
        capacity_upto(max_bindings, n) == n * (max_bindings / (SHARDS as u32)) + if n
            < max_bindings % (SHARDS as u32) {
            n
        } else {
            (max_bindings % (SHARDS as u32)) as int
        },
    decreases n,
{
    let q = (max_bindings / (SHARDS as u32)) as int;
    if n > 0 {
        lemma_capacity_upto(max_bindings, n - 1);
        assert(n * q == (n - 1) * q + q) by (nonlinear_arith);
    } else {
        assert(n * q == 0) by (nonlinear_arith)
            requires
                n == 0,
        ;
    }
}

/// The shares of the first `n` shards stay within `max_bindings`.
pub proof fn lemma_capacity_upto_bound(max_bindings: u32, n: int)
    requires
        0 <= n <= SHARDS,
    ensures
        0 <= capacity_upto(max_bindings, n) <= max_bindings,
{
    let q = (max_bindings / (SHARDS as u32)) as int;
    lemma_capacity_upto(max_bindings, n);
    assert(0 <= n * q <= 16 * q) by (nonlinear_arith)
        requires
            0 <= n <= 16,
            0 <= q,
    ;
    assert(16 * q + max_bindings % 16u32 == max_bindings);
}

/// A shard's share does not shrink where `max_bindings` does not.
pub proof fn lemma_shard_capacity_grows(less: u32, more: u32, shard: int)
    requires
        less <= more,
    ensures
        shard_capacity(less, shard) <= shard_capacity(more, shard),
{
    let n = SHARDS as u32;
    assert(n == 16);
    assert(less == 16 * (less / 16) + less % 16);
    assert(more == 16 * (more / 16) + more % 16);
    if less / 16 == more / 16 {
        assert(less % 16 <= more % 16);
    } else {
        assert(less / 16 < more / 16);
    }
}

/// The shard that keeps the binding of `session`.
pub fn shard_index(session: &str) -> (shard: usize)
    ensures
        shard == shard_of(session@),
        shard < SHARDS,
{
    let bytes = session.as_bytes();
    let mut h: u64 = 0xcbf2_9ce4_8422_2325u64;
    let mut i: usize = 0;
    proof {
        assert(bytes@.take(0) =~= Seq::<u8>::empty());
    }
    while i < bytes.len()
        invariant
            i <= bytes.len(),
            h == fnv1a(bytes@.take(i as int)),
        decreases bytes.len() - i,
    {
        proof {
            let next = bytes@.take(i + 1);
            assert(next.drop_last() =~= bytes@.take(i as int));
            assert(next.last() == bytes@[i as int]);
        }
        h = (h ^ (bytes[i] as u64)).wrapping_mul(0x0000_0100_0000_01b3u64);
        i += 1;
    }
    proof {
        assert(bytes@.take(bytes@.len() as int) =~= bytes@);
    }
    (h % (SHARDS as u64)) as usize
}

/// The bindings of all sessions, in `SHARDS` shards.
pub struct StickySessions {
    shards: Vec<StickyMap>,
    max_bindings: u32,
}

impl StickySessions {
    /// The shard with index `at`.
    pub closed spec fn shard(&self, at: int) -> StickyMap {
        self.shards@[at]
    }

    /// Most bindings kept at a time, over all shards.
    pub closed spec fn max_bindings(&self) -> u32 {
        self.max_bindings
    }

    /// There are `SHARDS` sound shards, each with its share of the capacity.
    pub closed spec fn wf(&self) -> bool {
        &&& self.shards@.len() == SHARDS
        &&& forall|i: int|
            0 <= i < SHARDS ==> (#[trigger] self.shards@[i]).wf() && self.shards@[i].capacity()
                == shard_capacity(self.max_bindings, i)
    }

    /// The binding of `session`.
    pub open spec fn binding(&self, session: Seq<char>) -> Option<BindingModel> {
        let shard = self.shard(shard_of(session))@;
        if shard.contains_key(session) {
            Some(shard[session])
        } else {
            None
        }
    }

    /// The binding of `session` that is in force at `now`.
    pub open spec fn live(&self, session: Seq<char>, now: u64, ttl: u64) -> Option<BindingModel> {
        self.shard(shard_of(session)).live(session, now, ttl)
    }

    /// The number of bindings in the first `n` shards.
    pub open spec fn count_upto(&self, n: int) -> nat
        decreases n,
    {
        if n <= 0 {
            0
        } else {
            self.count_upto(n - 1) + self.shard(n - 1)@.dom().len()
        }
    }

    /// The number of bindings.
    pub open spec fn count(&self) -> nat {
        self.count_upto(SHARDS as int)
    }

    /// `next` is `self` with shard `at` replaced by `shard`.
    pub open spec fn with_shard(&self, at: int, shard: Map<Seq<char>, BindingModel>, next: &StickySessions) -> bool {
        &&& next.max_bindings() == self.max_bindings()
        &&& next.shard(at)@ == shard
        &&& forall|i: int| 0 <= i < SHARDS && i != at ==> #[trigger] next.shard(i) == self.shard(i)
    }

    /// `next` is `self` after `session` was bound to `account` at `now`: the
    /// session's shard took the binding, and made room for it if it was full.
    pub open spec fn bound_to(&self, session: Seq<char>, account: Seq<char>, now: u64, next: &StickySessions) -> bool {
        self.with_shard(
            shard_of(session),
            self.shard(shard_of(session)).bound(session, BindingModel::fresh(account, now)),
            next,
        )
    }

    /// `next` is `self` after a hit of `session` at `now`.
    pub open spec fn touched(&self, session: Seq<char>, now: u64, next: &StickySessions) -> bool {
        let shard = self.shard(shard_of(session))@;
        self.with_shard(
            shard_of(session),
            if shard.contains_key(session) {
                shard.insert(session, shard[session].hit_at(now))
            } else {
                shard
            },
            next,
        )
    }

    /// `next` is `self` without the binding of `session`.
    pub open spec fn unbound(&self, session: Seq<char>, next: &StickySessions) -> bool {
        self.with_shard(shard_of(session), self.shard(shard_of(session))@.remove(session), next)
    }

    /// `next` is `self` with room for `max_bindings`: every shard was
    /// trimmed to its share of them.
    pub open spec fn resized(&self, max_bindings: u32, next: &StickySessions) -> bool {
        &&& next.max_bindings() == max_bindings
        &&& forall|i: int|
            0 <= i < SHARDS ==> (#[trigger] next.shard(i))@ == self.shard(i).trimmed(
                shard_capacity(max_bindings, i),
            ) && self.shard(i).trimmed_to(shard_capacity(max_bindings, i), next.shard(i)@)
    }

    /// With the capacity that they have, the bindings are as they are.
    pub proof fn lemma_resized_same(&self)
        requires
            self.wf(),
        ensures
            self.resized(self.max_bindings(), self),
    {
        assert forall|i: int| 0 <= i < SHARDS implies (#[trigger] self.shard(i))@
            == self.shard(i).trimmed(shard_capacity(self.max_bindings(), i)) && self.shard(
            i,
        ).trimmed_to(shard_capacity(self.max_bindings(), i), self.shard(i)@) by {
            assert(self.shards@[i].wf());
            self.shards@[i].lemma_within_capacity();
            self.shards@[i].lemma_trimmed_same();
        }
    }

    /// A change of capacity gives no session another binding: what is bound
    /// afterwards was bound so before.
    pub proof fn lemma_resized_binding(&self, max_bindings: u32, next: &StickySessions, session: Seq<char>)
        requires
            self.wf(),
            self.resized(max_bindings, next),
            next.binding(session) is Some,
        ensures
            next.binding(session) == self.binding(session),
    {
        let k = shard_of(session);
        assert(0 <= k < SHARDS);
        assert(self.shard(k).trimmed_to(shard_capacity(max_bindings, k), next.shard(k)@));
    }

    /// A capacity that is not smaller keeps every binding.
    pub proof fn lemma_resized_roomy(&self, max_bindings: u32, next: &StickySessions, session: Seq<char>)
        requires
            self.wf(),
            self.resized(max_bindings, next),
            max_bindings >= self.max_bindings(),
        ensures
            next.binding(session) == self.binding(session),
    {
        let k = shard_of(session);
        assert(0 <= k < SHARDS);
        assert(self.shard(k).trimmed_to(shard_capacity(max_bindings, k), next.shard(k)@));
        assert(self.shards@[k].wf());
        self.shards@[k].lemma_within_capacity();
        lemma_shard_capacity_grows(self.max_bindings(), max_bindings, k);
        self.shards@[k].lemma_trimmed_roomy(shard_capacity(max_bindings, k), next.shard(k)@);
    }

    /// After a session was bound, it has that binding, as long as its shard
    /// has any capacity.
    pub proof fn lemma_bound_binding(
        &self,
        session: Seq<char>,
        account: Seq<char>,
        now: u64,
        next: &StickySessions,
    )
        requires
            self.wf(),
            self.bound_to(session, account, now, next),
            shard_capacity(self.max_bindings(), shard_of(session)) > 0,
        ensures
            next.binding(session) == Some(BindingModel::fresh(account, now)),
    {
        let k = shard_of(session);
        assert(0 <= k < SHARDS);
        assert(self.shards@[k].wf());
        self.shards@[k].lemma_within_capacity();
    }

    /// The shards never hold more than `max_bindings` bindings together.
    pub proof fn lemma_count_bound(&self)
        requires
            self.wf(),
        ensures
            self.count() <= self.max_bindings(),
    {
        self.lemma_count_upto(SHARDS as int);
        lemma_capacity_upto_bound(self.max_bindings, SHARDS as int);
    }

    proof fn lemma_count_upto(&self, n: int)
        requires
            self.wf(),
            0 <= n <= SHARDS,
        ensures
            self.count_upto(n) <= capacity_upto(self.max_bindings, n),
        decreases n,
    {
        if n > 0 {
            self.lemma_count_upto(n - 1);
            self.shards@[n - 1].lemma_within_capacity();
        }
    }

    /// No bindings, and room for `max_bindings`.
    pub fn new(max_bindings: u32) -> (s: StickySessions)
        ensures
            s.wf(),
            s.max_bindings() == max_bindings,
            forall|session: Seq<char>| s.binding(session) is None,
            forall|i: int|
                0 <= i < SHARDS ==> (#[trigger] s.shard(i))@ == Map::<
                    Seq<char>,
                    BindingModel,
                >::empty(),
    {
        let mut shards: Vec<StickyMap> = Vec::new();
        let base: u32 = max_bindings / (SHARDS as u32);
        let extra: u32 = max_bindings % (SHARDS as u32);
        let mut i: usize = 0;
        while i < SHARDS
            invariant
                i <= SHARDS,
                shards@.len() == i,
                base == max_bindings / (SHARDS as u32),
                extra == max_bindings % (SHARDS as u32),
                forall|k: int|
                    0 <= k < i ==> (#[trigger] shards@[k]).wf() && shards@[k].capacity()
                        == shard_capacity(max_bindings, k) && shards@[k]@ == Map::<
                        Seq<char>,
                        BindingModel,
                    >::empty(),
            decreases SHARDS - i,
        {
            let capacity: usize = if (i as u32) < extra {
                (base + 1) as usize
            } else {
                base as usize
            };
            shards.push(StickyMap::new(capacity));
            i += 1;
        }
        let s = StickySessions { shards, max_bindings };
        proof {
            assert forall|session: Seq<char>| s.binding(session) is None by {
                let k = shard_of(session);
                assert(0 <= k < SHARDS);
                assert(s.shards@[k]@ == Map::<Seq<char>, BindingModel>::empty());
            }
        }
        s
    }

    /// Most bindings kept at a time.
    pub fn capacity(&self) -> (n: u32)
        ensures
            n == self.max_bindings(),
    {
        self.max_bindings
    }

    /// The number of bindings.
    pub fn len(&self) -> (n: usize)
        requires
            self.wf(),
        ensures
            n == self.count(),
            n <= self.max_bindings(),
    {
        let mut n: usize = 0;
        let mut i: usize = 0;
        while i < SHARDS
            invariant
                i <= SHARDS,
                self.wf(),
                n == self.count_upto(i as int),
                n <= capacity_upto(self.max_bindings, i as int),
            decreases SHARDS - i,
        {
            proof {
                self.lemma_count_upto(i + 1);
                lemma_capacity_upto_bound(self.max_bindings, i + 1);
            }
            n = n + self.shards[i].len();
            i += 1;
        }
        proof {
            self.lemma_count_bound();
        }
        n
    }

    /// The binding of `session` that is in force at `now`.
    pub fn lookup(&self, session: &str, now: u64, ttl: u64) -> (r: Option<&Binding>)
        requires
            self.wf(),
        ensures
            match r {
                Some(b) => self.live(session@, now, ttl) == Some(b@),
                None => self.live(session@, now, ttl) is None,
            },
    {
        let at = shard_index(session);
        self.shards[at].lookup(session, now, ttl)
    }

    /// Binds `session` to `account_id` at `now`.
    pub fn bind(&mut self, session: &str, account_id: &str, now: u64)
        requires
            old(self).wf(),
        ensures
            final(self).wf(),
            old(self).bound_to(session@, account_id@, now, final(self)),
    {
        let at = shard_index(session);
        self.shards[at].bind(session, account_id, now);
    }

    /// Records a hit of `session` at `now`. Returns whether it is bound.
    pub fn touch(&mut self, session: &str, now: u64) -> (hit: bool)
        requires
            old(self).wf(),
        ensures
            final(self).wf(),
            hit == old(self).binding(session@) is Some,
            old(self).touched(session@, now, final(self)),
    {
        let at = shard_index(session);
        self.shards[at].touch(session, now)
    }

    /// Removes the binding of `session`. Returns whether there was one.
    pub fn unbind(&mut self, session: &str) -> (was_bound: bool)
        requires
            old(self).wf(),
        ensures
            final(self).wf(),
            was_bound == old(self).binding(session@) is Some,
            old(self).unbound(session@, final(self)),
    {
        let at = shard_index(session);
        self.shards[at].unbind(session)
    }

    /// Makes room for `max_bindings`. The bindings stay; a shard that holds
    /// more than its new share gives up those hit least recently until the
    /// rest fits.
    pub fn resize(&mut self, max_bindings: u32)
        requires
            old(self).wf(),
        ensures
            final(self).wf(),
            old(self).resized(max_bindings, final(self)),
    {
        let base: u32 = max_bindings / (SHARDS as u32);
        let extra: u32 = max_bindings % (SHARDS as u32);
        let mut i: usize = 0;
        while i < SHARDS
            invariant
                i <= SHARDS,
                old(self).wf(),
                self.shards@.len() == SHARDS,
                self.max_bindings == old(self).max_bindings,
                base == max_bindings / (SHARDS as u32),
                extra == max_bindings % (SHARDS as u32),
                forall|k: int| i <= k < SHARDS ==> #[trigger] self.shards@[k] == old(self).shards@[k],
                forall|k: int|
                    0 <= k < i ==> (#[trigger] self.shards@[k]).wf() && self.shards@[k].capacity()
                        == shard_capacity(max_bindings, k) && self.shards@[k]@ == old(
                        self,
                    ).shards@[k].trimmed(shard_capacity(max_bindings, k)) && old(
                        self,
                    ).shards@[k].trimmed_to(shard_capacity(max_bindings, k), self.shards@[k]@),
            decreases SHARDS - i,
        {
            assert(base == max_bindings / 16u32);
            let capacity: usize = if (i as u32) < extra {
                (base + 1) as usize
            } else {
                base as usize
            };
            assert(old(self).shards@[i as int].wf());
            self.shards[i].resize(capacity);
            i += 1;
        }
        self.max_bindings = max_bindings;
    }

    /// Removes every binding.
    pub fn clear_all(&mut self)
        requires
            old(self).wf(),
        ensures
            final(self).wf(),
            final(self).max_bindings() == old(self).max_bindings(),
            forall|session: Seq<char>| final(self).binding(session) is None,
            forall|i: int|
                0 <= i < SHARDS ==> (#[trigger] final(self).shard(i))@ == Map::<
                    Seq<char>,
                    BindingModel,
                >::empty(),
    {
        let mut i: usize = 0;
        while i < SHARDS
            invariant
                i <= SHARDS,
                self.wf(),
                self.max_bindings == old(self).max_bindings,
                forall|k: int|
                    0 <= k < i ==> (#[trigger] self.shards@[k])@ == Map::<
                        Seq<char>,
                        BindingModel,
                    >::empty(),
            decreases SHARDS - i,
        {
            self.shards[i].clear_all();
            i += 1;
        }
        proof {
            assert forall|session: Seq<char>| self.binding(session) is None by {
                let k = shard_of(session);
                assert(0 <= k < SHARDS);
                assert(self.shards@[k]@ == Map::<Seq<char>, BindingModel>::empty());
            }
        }
    }

    /// Removes the bindings that have expired at `now`. Returns how many.
    pub fn evict_expired(&mut self, now: u64, ttl: u64) -> (evicted: usize)
        requires
            old(self).wf(),
        ensures
            final(self).wf(),
            final(self).max_bindings() == old(self).max_bindings(),
            forall|session: Seq<char>|
                #![trigger final(self).binding(session)]
                final(self).binding(session) == old(self).live(session, now, ttl),
    {
        let mut evicted: usize = 0;
        let mut i: usize = 0;
        while i < SHARDS
            invariant
                i <= SHARDS,
                self.wf(),
                old(self).wf(),
                self.max_bindings == old(self).max_bindings,
                evicted <= capacity_upto(self.max_bindings, i as int),
                forall|k: int| i <= k < SHARDS ==> #[trigger] self.shards@[k] == old(self).shards@[k],
                forall|k: int, session: Seq<char>|
                    #![trigger self.shards@[k]@.contains_key(session)]
                    0 <= k < i ==> (self.shards@[k]@.contains_key(session) <==> old(
                        self,
                    ).shards@[k].live(session, now, ttl) is Some),
                forall|k: int, session: Seq<char>|
                    #![trigger self.shards@[k]@[session]]
                    0 <= k < i && self.shards@[k]@.contains_key(session) ==> self.shards@[k]@[session]
                        == old(self).shards@[k]@[session],
            decreases SHARDS - i,
        {
            proof {
                self.shards@[i as int].lemma_within_capacity();
                lemma_capacity_upto_bound(self.max_bindings, i + 1);
            }
            let n = self.shards[i].evict_expired(now, ttl);
            evicted = evicted + n;
            i += 1;
        }
        proof {
            assert forall|session: Seq<char>|
                #![trigger self.binding(session)]
                self.binding(session) == old(self).live(session, now, ttl) by {
                let k = shard_of(session);
                assert(0 <= k < SHARDS);
                assert(self.shards@[k]@.contains_key(session) <==> old(self).shards@[k].live(
                    session,
                    now,
                    ttl,
                ) is Some);
            }
        }
        evicted
    }
}

} // verus!
