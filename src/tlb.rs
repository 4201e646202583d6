//! The translation lookaside buffer: a private table keyed by (PID, VPN) and a
//! global table keyed by VPN, each of fixed capacity.
use vstd::prelude::*;

verus! {

/// Number of entries that each of the two tables can hold.
pub const TLB_CAPACITY: usize = 32;

/// Entry bit: readable.
pub const TLB_R: u32 = 0x1;
/// Entry bit: writable.
pub const TLB_W: u32 = 0x2;
/// Entry bit: executable.
pub const TLB_X: u32 = 0x4;
/// Entry bit: accessible from user mode.
pub const TLB_U: u32 = 0x8;
/// Entry bit: global (ignores the PID).
pub const TLB_G: u32 = 0x10;

/// Access kinds, as used by `RandomCache::access`.
pub const ACCESS_READ: u32 = 0;
pub const ACCESS_WRITE: u32 = 1;
pub const ACCESS_FETCH: u32 = 2;

/// The permission bit that an access kind needs.
pub open spec fn perm_bit(op: u32) -> u32 {
    if op == 0 {
        TLB_R
    } else if op == 1 {
        TLB_W
    } else {
        TLB_X
    }
}

/// Whether an entry with this payload allows the access.
pub open spec fn permits(payload: u32, op: u32, kmode: bool) -> bool {
    payload & perm_bit(op) != 0 && (kmode || payload & TLB_U != 0)
}

/// The value bound to `k` by the first entry of `s` whose key is `k`.
pub open spec fn lookup<K>(s: Seq<(K, u32)>, k: K) -> Option<u32>
    decreases s.len(),
{
    if s.len() == 0 {
        None
    } else if s[0].0 == k {
        Some(s[0].1)
    } else {
        lookup(s.drop_first(), k)
    }
}

/// No two entries of `s` share a key.
pub open spec fn keys_unique<K>(s: Seq<(K, u32)>) -> bool {
    forall|i: int, j: int| 0 <= i < j < s.len() ==> s[i].0 != s[j].0
}

/// The table `s` seen as a map from keys to payloads.
pub open spec fn table_map<K>(s: Seq<(K, u32)>) -> Map<K, u32> {
    Map::new(|k: K| lookup(s, k) is Some, |k: K| lookup(s, k)->Some_0)
}

/// What a lookup in the two tables yields: with a private entry for
/// (pid, vpn), its page frame (upper 20 bits) if it allows the access, else
/// a miss; without one, the global entry's frame if it allows the access,
/// else a miss.
pub open spec fn translate(
    private: Map<(u32, u32), u32>,
    global: Map<u32, u32>,
    pid: u32,
    vpn: u32,
    op: u32,
    kmode: bool,
) -> Option<u32> {
    if private.contains_key((pid, vpn)) {
        if permits(private[(pid, vpn)], op, kmode) {
            Some(private[(pid, vpn)] & 0xFFFF_F000)
        } else {
            None
        }
    } else if global.contains_key(vpn) && permits(global[vpn], op, kmode) {
        Some(global[vpn] & 0xFFFF_F000)
    } else {
        None
    }
}

/// `new_map` is `old_map` with `k` bound to `v`, some existing key having
/// been evicted first when `k` was absent and the table full.
pub open spec fn inserted_with_eviction<K>(
    old_map: Map<K, u32>,
    new_map: Map<K, u32>,
    k: K,
    v: u32,
    full: bool,
) -> bool {
    if old_map.contains_key(k) || !full {
        new_map == old_map.insert(k, v)
    } else {
        exists|victim: K| #[trigger]
            old_map.contains_key(victim) && new_map == old_map.remove(victim).insert(k, v)
    }
}

proof fn lemma_lookup_some<K>(s: Seq<(K, u32)>, k: K)
    ensures
        lookup(s, k) is Some <==> exists|i: int| 0 <= i < s.len() && s[i].0 == k,
        forall|i: int| 0 <= i < s.len() && s[i].0 == k && keys_unique(s) ==> lookup(s, k) == Some(s[i].1),
    decreases s.len(),
{
    if s.len() > 0 {
        lemma_lookup_some(s.drop_first(), k);
        if lookup(s.drop_first(), k) is Some {
            let i = choose|i: int| 0 <= i < s.len() - 1 && s.drop_first()[i].0 == k;
            assert(s[i + 1].0 == k);
        }
        assert forall|i: int| 0 <= i < s.len() && s[i].0 == k && keys_unique(s) implies lookup(s, k) == Some(s[i].1) by {
            if i > 0 {
                assert(s.drop_first()[i - 1] == s[i]);
                assert(keys_unique(s.drop_first())) by {
                    assert forall|a: int, b: int| 0 <= a < b < s.len() - 1 implies s.drop_first()[a].0 != s.drop_first()[b].0 by {
                        assert(s[a + 1].0 != s[b + 1].0);
                    }
                }
                assert(s[0].0 != s[i].0);
            }
        }
        if exists|i: int| 0 <= i < s.len() && s[i].0 == k {
            let i = choose|i: int| 0 <= i < s.len() && s[i].0 == k;
            if i > 0 {
                assert(s.drop_first()[i - 1].0 == k);
            }
        }
    }
}

proof fn lemma_lookup_none<K>(s: Seq<(K, u32)>, k: K)
    requires
        forall|i: int| 0 <= i < s.len() ==> s[i].0 != k,
    ensures
        lookup(s, k) is None,
{
    lemma_lookup_some(s, k);
}

/// Lookup in a table with unique keys after replacing, pushing or removing.
proof fn lemma_lookup_update<K>(s: Seq<(K, u32)>, i: int, e: (K, u32), k: K)
    requires
        keys_unique(s),
        0 <= i < s.len(),
        s[i].0 == e.0,
    ensures
        keys_unique(s.update(i, e)),
        lookup(s.update(i, e), k) == if k == e.0 { Some(e.1) } else { lookup(s, k) },
{
    let t = s.update(i, e);
    assert forall|a: int, b: int| 0 <= a < b < t.len() implies t[a].0 != t[b].0 by {
        assert(t[a].0 == s[a].0);
        assert(t[b].0 == s[b].0);
    }
    lemma_lookup_some(s, k);
    lemma_lookup_some(t, k);
    if k == e.0 {
        assert(t[i].0 == k);
    } else if lookup(s, k) is Some {
        let j = choose|j: int| 0 <= j < s.len() && s[j].0 == k;
        assert(t[j] == s[j]);
    } else if lookup(t, k) is Some {
        let j = choose|j: int| 0 <= j < t.len() && t[j].0 == k;
        assert(t[j] == s[j]);
    }
}

proof fn lemma_lookup_push<K>(s: Seq<(K, u32)>, e: (K, u32), k: K)
    requires
        keys_unique(s),
        lookup(s, e.0) is None,
    ensures
        keys_unique(s.push(e)),
        lookup(s.push(e), k) == if k == e.0 { Some(e.1) } else { lookup(s, k) },
{
    let t = s.push(e);
    lemma_lookup_some(s, k);
    lemma_lookup_some(s, e.0);
    lemma_lookup_some(t, k);
    assert(t[s.len() as int] == e);
    assert forall|a: int, b: int| 0 <= a < b < t.len() implies t[a].0 != t[b].0 by {
        if b == s.len() {
            assert(s[a].0 != e.0);
        }
    }
    if k == e.0 {
        assert(t[s.len() as int].0 == k);
    } else if lookup(s, k) is Some {
        let j = choose|j: int| 0 <= j < s.len() && s[j].0 == k;
        assert(t[j] == s[j]);
    } else if lookup(t, k) is Some {
        let j = choose|j: int| 0 <= j < t.len() && t[j].0 == k;
        assert(t[j] == s[j]);
    }
}

proof fn lemma_lookup_remove<K>(s: Seq<(K, u32)>, i: int, k: K)
    requires
        keys_unique(s),
        0 <= i < s.len(),
    ensures
        keys_unique(s.remove(i)),
        lookup(s.remove(i), k) == if k == s[i].0 { None } else { lookup(s, k) },
{
    let t = s.remove(i);
    lemma_lookup_some(s, k);
    lemma_lookup_some(t, k);
    assert forall|a: int, b: int| 0 <= a < b < t.len() implies t[a].0 != t[b].0 by {
        let a2 = if a < i { a } else { a + 1 };
        let b2 = if b < i { b } else { b + 1 };
        assert(t[a] == s[a2]);
        assert(t[b] == s[b2]);
    }
    if k == s[i].0 {
        if lookup(t, k) is Some {
            let j = choose|j: int| 0 <= j < t.len() && t[j].0 == k;
            let j2 = if j < i { j } else { j + 1 };
            assert(t[j] == s[j2]);
        }
    } else {
        if lookup(s, k) is Some {
            let j = choose|j: int| 0 <= j < s.len() && s[j].0 == k;
            if j < i {
                assert(t[j] == s[j]);
            } else {
                assert(t[j - 1] == s[j]);
            }
        }
        if lookup(t, k) is Some {
            let j = choose|j: int| 0 <= j < t.len() && t[j].0 == k;
            let j2 = if j < i { j } else { j + 1 };
            assert(t[j] == s[j2]);
        }
    }
}


/// The keys of a table form a set no larger than the table.
proof fn lemma_table_map_size<K>(s: Seq<(K, u32)>)
    ensures
        table_map(s).dom().finite(),
        table_map(s).dom().len() <= s.len(),
{
    let keys = s.map_values(|e: (K, u32)| e.0);
    assert forall|k: K| table_map(s).dom().contains(k) <==> keys.to_set().contains(k) by {
        lemma_lookup_some(s, k);
        if table_map(s).dom().contains(k) {
            let i = choose|i: int| 0 <= i < s.len() && s[i].0 == k;
            assert(keys[i] == k);
        }
        if keys.to_set().contains(k) {
            let i = choose|i: int| 0 <= i < keys.len() && keys[i] == k;
            assert(s[i].0 == k);
        }
    }
    assert(table_map(s).dom() =~= keys.to_set());
    keys.lemma_cardinality_of_set();
}

proof fn lemma_map_update<K>(s: Seq<(K, u32)>, i: int, e: (K, u32))
    requires
        keys_unique(s),
        0 <= i < s.len(),
        s[i].0 == e.0,
    ensures
        keys_unique(s.update(i, e)),
        table_map(s.update(i, e)) == table_map(s).insert(e.0, e.1),
{
    assert forall|k: K| #[trigger] lookup(s.update(i, e), k) == (if k == e.0 { Some(e.1) } else { lookup(s, k) }) by {
        lemma_lookup_update(s, i, e, k);
    }
    lemma_lookup_update(s, i, e, e.0);
    assert(table_map(s.update(i, e)) =~= table_map(s).insert(e.0, e.1));
}

proof fn lemma_map_push<K>(s: Seq<(K, u32)>, e: (K, u32))
    requires
        keys_unique(s),
        !table_map(s).contains_key(e.0),
    ensures
        keys_unique(s.push(e)),
        table_map(s.push(e)) == table_map(s).insert(e.0, e.1),
{
    assert forall|k: K| #[trigger] lookup(s.push(e), k) == (if k == e.0 { Some(e.1) } else { lookup(s, k) }) by {
        lemma_lookup_push(s, e, k);
    }
    lemma_lookup_push(s, e, e.0);
    assert(table_map(s.push(e)) =~= table_map(s).insert(e.0, e.1));
}

proof fn lemma_map_remove<K>(s: Seq<(K, u32)>, i: int)
    requires
        keys_unique(s),
        0 <= i < s.len(),
    ensures
        keys_unique(s.remove(i)),
        table_map(s.remove(i)) == table_map(s).remove(s[i].0),
{
    assert forall|k: K| #[trigger] lookup(s.remove(i), k) == (if k == s[i].0 { None } else { lookup(s, k) }) by {
        lemma_lookup_remove(s, i, k);
    }
    lemma_lookup_remove(s, i, s[i].0);
    assert(table_map(s.remove(i)) =~= table_map(s).remove(s[i].0));
}

/// A TLB with random (here: oldest-first) replacement.
#[derive(Debug)]
pub struct RandomCache {
    private_table: Vec<((u32, u32), u32)>,
    private_capacity: usize,
    global_table: Vec<(u32, u32)>,
    global_capacity: usize,
}

impl RandomCache {
    /// The private entries, keyed by (PID, VPN).
    pub closed spec fn private_view(&self) -> Map<(u32, u32), u32> {
        table_map(self.private_table@)
    }

    /// The global entries, keyed by VPN.
    pub closed spec fn global_view(&self) -> Map<u32, u32> {
        table_map(self.global_table@)
    }

    /// Number of entries held in the private table.
    pub closed spec fn private_size(&self) -> nat {
        self.private_table@.len()
    }

    /// Number of entries held in the global table.
    pub closed spec fn global_size(&self) -> nat {
        self.global_table@.len()
    }

    /// The capacity of each table.
    pub closed spec fn capacity(&self) -> nat {
        self.private_capacity as nat
    }

    pub closed spec fn wf(&self) -> bool {
        &&& self.private_capacity == self.global_capacity
        &&& self.private_capacity > 0
        &&& self.private_table@.len() <= self.private_capacity
        &&& self.global_table@.len() <= self.global_capacity
        &&& keys_unique(self.private_table@)
        &&& keys_unique(self.global_table@)
    }

    pub fn new(capacity: usize) -> (r: RandomCache)
        requires
            capacity > 0,
        ensures
            r.wf(),
            r.capacity() == capacity,
            r.private_view() == Map::<(u32, u32), u32>::empty(),
            r.global_view() == Map::<u32, u32>::empty(),
            r.private_size() == 0,
            r.global_size() == 0,
    {
        let r = RandomCache {
            private_table: Vec::new(),
            private_capacity: capacity,
            global_table: Vec::new(),
            global_capacity: capacity,
        };
        assert(r.private_view() =~= Map::<(u32, u32), u32>::empty());
        assert(r.global_view() =~= Map::<u32, u32>::empty());
        r
    }

    fn find_private(&self, pid: u32, vpn: u32) -> (r: Option<usize>)
        requires
            self.wf(),
        ensures
            match r {
                Some(i) => i < self.private_table@.len() && self.private_table@[i as int].0 == (pid, vpn),
                None => !self.private_view().contains_key((pid, vpn)),
            },
    {
        let mut i: usize = 0;
        while i < self.private_table.len()
            invariant
                i <= self.private_table@.len(),
                forall|j: int| 0 <= j < i ==> self.private_table@[j].0 != (pid, vpn),
            decreases self.private_table@.len() - i,
        {
            let e = self.private_table[i];
            if e.0.0 == pid && e.0.1 == vpn {
                return Some(i);
            }
            i += 1;
        }
        proof {
            lemma_lookup_none(self.private_table@, (pid, vpn));
        }
        None
    }

    fn find_global(&self, vpn: u32) -> (r: Option<usize>)
        requires
            self.wf(),
        ensures
            match r {
                Some(i) => i < self.global_table@.len() && self.global_table@[i as int].0 == vpn,
                None => !self.global_view().contains_key(vpn),
            },
    {
        let mut i: usize = 0;
        while i < self.global_table.len()
            invariant
                i <= self.global_table@.len(),
                forall|j: int| 0 <= j < i ==> self.global_table@[j].0 != vpn,
            decreases self.global_table@.len() - i,
        {
            if self.global_table[i].0 == vpn {
                return Some(i);
            }
            i += 1;
        }
        proof {
            lemma_lookup_none(self.global_table@, vpn);
        }
        None
    }

    /// The payload of the private entry for (pid, vpn), if any.
    fn private_entry(&self, pid: u32, vpn: u32) -> (r: Option<u32>)
        requires
            self.wf(),
        ensures
            r == if self.private_view().contains_key((pid, vpn)) {
                Some(self.private_view()[(pid, vpn)])
            } else {
                None::<u32>
            },
    {
        match self.find_private(pid, vpn) {
            Some(i) => {
                proof {
                    lemma_lookup_some(self.private_table@, (pid, vpn));
                }
                Some(self.private_table[i].1)
            },
            None => None,
        }
    }

    /// The payload of the global entry for vpn, if any.
    fn global_entry(&self, vpn: u32) -> (r: Option<u32>)
        requires
            self.wf(),
        ensures
            r == if self.global_view().contains_key(vpn) {
                Some(self.global_view()[vpn])
            } else {
                None::<u32>
            },
    {
        match self.find_global(vpn) {
            Some(i) => {
                proof {
                    lemma_lookup_some(self.global_table@, vpn);
                }
                Some(self.global_table[i].1)
            },
            None => None,
        }
    }

    /// Translates a page for an access of kind `operation` (0 read, 1 write,
    /// 2 fetch); the result is the page frame with the low 12 bits clear.
    pub fn access(&self, pid: u32, vpn: u32, operation: u32, kmode: bool) -> (r: Option<u32>)
        requires
            self.wf(),
            operation <= 2,
        ensures
            r == translate(self.private_view(), self.global_view(), pid, vpn, operation, kmode),
    {
        let mask: u32 = if operation == 0 {
            TLB_R
        } else if operation == 1 {
            TLB_W
        } else {
            TLB_X
        };
        if let Some(v) = self.private_entry(pid, vpn) {
            if v & mask != 0 && (kmode || v & TLB_U != 0) {
                return Some(v & 0xFFFF_F000);
            }
            return None;
        }
        if let Some(v) = self.global_entry(vpn) {
            if v & mask != 0 && (kmode || v & TLB_U != 0) {
                return Some(v & 0xFFFF_F000);
            }
        }
        None
    }

    /// The raw payload for (pid, vpn): the private entry, else the global one.
    pub fn read(&self, pid: u32, vpn: u32) -> (r: Option<u32>)
        requires
            self.wf(),
        ensures
            r == if self.private_view().contains_key((pid, vpn)) {
                Some(self.private_view()[(pid, vpn)])
            } else if self.global_view().contains_key(vpn) {
                Some(self.global_view()[vpn])
            } else {
                None::<u32>
            },
    {
        let p = self.private_entry(pid, vpn);
        if p.is_some() {
            p
        } else {
            self.global_entry(vpn)
        }
    }

    /// Binds (pid, vpn) (or vpn alone, when the payload has the G bit) to
    /// `ppn`, evicting some entry of the target table when it is full.
    pub fn write(&mut self, pid: u32, vpn: u32, ppn: u32)
        requires
            old(self).wf(),
        ensures
            final(self).wf(),
            final(self).capacity() == old(self).capacity(),
            if ppn & TLB_G != 0 {
                &&& final(self).private_view() == old(self).private_view()
                &&& inserted_with_eviction(
                    old(self).global_view(),
                    final(self).global_view(),
                    vpn,
                    ppn,
                    old(self).global_size() == old(self).capacity(),
                )
            } else {
                &&& final(self).global_view() == old(self).global_view()
                &&& inserted_with_eviction(
                    old(self).private_view(),
                    final(self).private_view(),
                    (pid, vpn),
                    ppn,
                    old(self).private_size() == old(self).capacity(),
                )
            },
    {
        if ppn & TLB_G != 0 {
            let ghost s0 = self.global_table@;
            match self.find_global(vpn) {
                Some(i) => {
                    self.global_table.set(i, (vpn, ppn));
                    proof {
                        lemma_map_update(s0, i as int, (vpn, ppn));
                        lemma_lookup_some(s0, vpn);
                    }
                },
                None => {
                    if self.global_table.len() < self.global_capacity {
                        self.global_table.push((vpn, ppn));
                        proof {
                            lemma_map_push(s0, (vpn, ppn));
                        }
                    } else {
                        let victim = self.global_table.remove(0);
                        let ghost s1 = self.global_table@;
                        self.global_table.push((vpn, ppn));
                        proof {
                            lemma_map_remove(s0, 0);
                            lemma_lookup_some(s0, victim.0);
                            assert(s1 == s0.remove(0));
                            lemma_map_push(s1, (vpn, ppn));
                            assert(table_map(s0).contains_key(victim.0));
                        }
                    }
                },
            }
        } else {
            let ghost s0 = self.private_table@;
            match self.find_private(pid, vpn) {
                Some(i) => {
                    self.private_table.set(i, ((pid, vpn), ppn));
                    proof {
                        lemma_map_update(s0, i as int, ((pid, vpn), ppn));
                        lemma_lookup_some(s0, (pid, vpn));
                    }
                },
                None => {
                    if self.private_table.len() < self.private_capacity {
                        self.private_table.push(((pid, vpn), ppn));
                        proof {
                            lemma_map_push(s0, ((pid, vpn), ppn));
                        }
                    } else {
                        let victim = self.private_table.remove(0);
                        let ghost s1 = self.private_table@;
                        self.private_table.push(((pid, vpn), ppn));
                        proof {
                            lemma_map_remove(s0, 0);
                            lemma_lookup_some(s0, victim.0);
                            assert(s1 == s0.remove(0));
                            lemma_map_push(s1, ((pid, vpn), ppn));
                            assert(table_map(s0).contains_key(victim.0));
                        }
                    }
                },
            }
        }
    }

    /// Removes the private entry for (pid, vpn) and the global entry for vpn.
    pub fn invalidate(&mut self, pid: u32, vpn: u32)
        requires
            old(self).wf(),
        ensures
            final(self).wf(),
            final(self).capacity() == old(self).capacity(),
            final(self).private_view() == old(self).private_view().remove((pid, vpn)),
            final(self).global_view() == old(self).global_view().remove(vpn),
    {
        let ghost p0 = self.private_table@;
        let ghost g0 = self.global_table@;
        match self.find_private(pid, vpn) {
            Some(i) => {
                self.private_table.remove(i);
                proof {
                    lemma_map_remove(p0, i as int);
                }
            },
            None => {
                assert(table_map(p0) =~= table_map(p0).remove((pid, vpn)));
            },
        }
        match self.find_global(vpn) {
            Some(i) => {
                self.global_table.remove(i);
                proof {
                    lemma_map_remove(g0, i as int);
                }
            },
            None => {
                assert(table_map(g0) =~= table_map(g0).remove(vpn));
            },
        }
    }

    /// Removes every entry of both tables.
    pub fn clear(&mut self)
        requires
            old(self).wf(),
        ensures
            final(self).wf(),
            final(self).capacity() == old(self).capacity(),
            final(self).private_view() == Map::<(u32, u32), u32>::empty(),
            final(self).global_view() == Map::<u32, u32>::empty(),
            final(self).private_size() == 0,
            final(self).global_size() == 0,
    {
        self.private_table.clear();
        self.global_table.clear();
        assert(self.private_view() =~= Map::<(u32, u32), u32>::empty());
        assert(self.global_view() =~= Map::<u32, u32>::empty());
    }
}

/// Neither table ever holds more entries than its capacity: a well-formed
/// TLB maps at most `capacity()` private keys and `capacity()` global keys.
pub proof fn lemma_tlb_capacity(t: &RandomCache)
    requires
        t.wf(),
    ensures
        t.private_size() <= t.capacity(),
        t.global_size() <= t.capacity(),
        t.private_view().dom().finite(),
        t.global_view().dom().finite(),
        t.private_view().dom().len() <= t.capacity(),
        t.global_view().dom().len() <= t.capacity(),
{
    lemma_table_map_size(t.private_table@);
    lemma_table_map_size(t.global_table@);
}

} // verus!
