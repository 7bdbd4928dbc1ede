use vstd::prelude::*;
use vstd::seq_lib::lemma_multiset_commutative;

verus! {

/// Smallest client id the server issues.
pub const ID_MIN: u8 = 2;
/// Largest client id the server issues.
pub const ID_MAX: u8 = 253;
/// Idle window in seconds after which a session record expires.
pub const TTL_SECS: u64 = 60;

/// A peer's UDP address, held as plain values: the ip as an integer
/// (the four octets, or the sixteen when `is_v6` is set), and the port.
#[derive(Clone, Copy, PartialEq, Eq, Structural, Debug)]
pub struct PeerAddr {
    pub is_v6: bool,
    pub ip: u128,
    pub port: u16,
}

/// One session record: a client id bound to its token and UDP address,
/// stamped with the second of its creation.
#[derive(Clone, Copy, PartialEq, Eq, Structural, Debug)]
pub struct Session {
    pub id: u8,
    pub token: u64,
    pub peer: PeerAddr,
    pub created_at: u64,
}

/// The ids of a sequence of session records, in order.
pub open spec fn ids_of(s: Seq<Session>) -> Seq<u8> {
    s.map_values(|e: Session| e.id)
}

/// The full range of issuable ids, `ID_MIN..=ID_MAX`, in ascending order.
pub open spec fn id_range() -> Seq<u8> {
    Seq::new((ID_MAX - ID_MIN + 1) as nat, |i: int| (i + ID_MIN) as u8)
}

/// A record inserted at `created_at` has expired once `TTL_SECS` have passed.
pub open spec fn expired(e: Session, now: u64) -> bool {
    e.created_at + TTL_SECS <= now
}

/// The records of `s` that survive a prune at `now`, in order.
pub open spec fn surviving(s: Seq<Session>, now: u64) -> Seq<Session> {
    s.filter(|e: Session| !expired(e, now))
}

/// The ids of the records of `s` that a prune at `now` removes, in order.
pub open spec fn expired_ids(s: Seq<Session>, now: u64) -> Seq<u8> {
    ids_of(s.filter(|e: Session| expired(e, now)))
}

/// The first record of `s` carrying `id`, if any.
pub open spec fn spec_lookup(s: Seq<Session>, id: u8) -> Option<Session>
    decreases s.len(),
{
    if s.len() == 0 {
        None
    } else if s.first().id == id {
        Some(s.first())
    } else {
        spec_lookup(s.drop_first(), id)
    }
}

/// The server's session state: the pool of free ids (a stack; the next id
/// issued is the last) and the table of live session records.
pub struct Server {
    pool: Vec<u8>,
    sessions: Vec<Session>,
}

impl Server {
    /// The free pool, next-issued id last.
    pub closed spec fn free_pool(self) -> Seq<u8> {
        self.pool@
    }

    /// The session table, in insertion order.
    pub closed spec fn table(self) -> Seq<Session> {
        self.sessions@
    }

    /// Id conservation: the free pool and the table's ids together hold
    /// each id of `ID_MIN..=ID_MAX` exactly once, and nothing else.
    pub open spec fn inv(self) -> bool {
        (self.free_pool() + ids_of(self.table())).to_multiset() == id_range().to_multiset()
    }

    /// A fresh server: every issuable id free, the table empty.
    pub fn new() -> (r: Server)
        ensures
            r.inv(),
            r.free_pool() == id_range(),
            r.table() == Seq::<Session>::empty(),
    {
        let mut pool: Vec<u8> = Vec::new();
        let mut id: u8 = ID_MIN;
        while id <= ID_MAX
            invariant
                ID_MIN <= id <= ID_MAX + 1,
                pool@ == id_range().take(id - ID_MIN),
            decreases ID_MAX + 1 - id,
        {
            pool.push(id);
            proof {
                Seq::lemma_take_succ_push(id_range(), id - ID_MIN);
            }
            id = id + 1;
        }
        proof {
            assert(pool@ =~= id_range());
        }
        let r = Server { pool, sessions: Vec::new() };
        proof {
            broadcast use vstd::seq_lib::group_to_multiset_ensures;

            assert(ids_of(r.table()) =~= Seq::<u8>::empty());
            assert(r.free_pool() + ids_of(r.table()) =~= id_range());
        }
        r
    }

    /// Serve a `Request` seen at `now` from `peer`, with `token` freshly
    /// drawn: pop the top free id and record the session. An empty pool
    /// refuses the request and changes nothing.
    pub fn accept_request(&mut self, now: u64, peer: PeerAddr, token: u64) -> (r: Option<u8>)
        requires
            old(self).inv(),
        ensures
            final(self).inv(),
            old(self).free_pool().len() == 0 ==> r is None && final(self).free_pool() == old(
                self,
            ).free_pool() && final(self).table() == old(self).table(),
            old(self).free_pool().len() > 0 ==> r == Some(old(self).free_pool().last()),
            old(self).free_pool().len() > 0 ==> final(self).free_pool() == old(
                self,
            ).free_pool().drop_last(),
            old(self).free_pool().len() > 0 ==> final(self).table() == old(self).table().push(
                (Session { id: old(self).free_pool().last(), token, peer, created_at: now }),
            ),
    {
        match self.pool.pop() {
            None => None,
            Some(id) => {
                let e = Session { id, token, peer, created_at: now };
                self.sessions.push(e);
                proof {
                    broadcast use vstd::seq_lib::group_to_multiset_ensures;

                    let p0 = old(self).free_pool();
                    let i0 = ids_of(old(self).table());
                    let p1 = self.free_pool();
                    let i1 = ids_of(self.table());
                    assert(i1 =~= i0.push(id));
                    assert(p0 =~= p1.push(id));
                    lemma_multiset_commutative(p0, i0);
                    lemma_multiset_commutative(p1, i1);
                    assert((p1 + i1).to_multiset() =~= (p0 + i0).to_multiset());
                }
                Some(id)
            }
        }
    }

    /// The live session for `id`, if any.
    pub fn lookup(&self, id: u8) -> (r: Option<Session>)
        ensures
            r == spec_lookup(self.table(), id),
    {
        let n = self.sessions.len();
        let mut i: usize = 0;
        proof {
            assert(self.table().skip(0) =~= self.table());
        }
        while i < n
            invariant
                0 <= i <= n,
                n == self.sessions.len(),
                spec_lookup(self.table(), id) == spec_lookup(self.table().skip(i as int), id),
            decreases n - i,
        {
            let e = self.sessions[i];
            proof {
                assert(self.table().skip(i as int).first() == self.table()[i as int]);
                assert(self.table().skip(i as int).drop_first() =~= self.table().skip(i + 1));
            }
            if e.id == id {
                return Some(e);
            }
            i = i + 1;
        }
        proof {
            assert(self.table().skip(n as int) =~= Seq::<Session>::empty());
        }
        None
    }

    /// Remove every record that has expired by `now`, return the freed ids
    /// to the pool, and hand them back.
    pub fn prune(&mut self, now: u64) -> (removed: Vec<u8>)
        requires
            old(self).inv(),
        ensures
            final(self).inv(),
            final(self).table() == surviving(old(self).table(), now),
            removed@ == expired_ids(old(self).table(), now),
            final(self).free_pool() == old(self).free_pool() + removed@,
    {
        let ghost s0 = self.sessions@;
        let mut kept: Vec<Session> = Vec::new();
        let mut removed: Vec<u8> = Vec::new();
        let n = self.sessions.len();
        let mut i: usize = 0;
        while i < n
            invariant
                0 <= i <= n,
                n == self.sessions.len(),
                self.sessions@ == s0,
                kept@ == surviving(s0.take(i as int), now),
                removed@ == expired_ids(s0.take(i as int), now),
            decreases n - i,
        {
            let e = self.sessions[i];
            proof {
                broadcast use vstd::seq_lib::group_seq_properties;

                Seq::lemma_take_succ_push(s0, i as int);
                Seq::lemma_filter_push(
                    s0.take(i as int),
                    e,
                    |x: Session| !expired(x, now),
                );
                Seq::lemma_filter_push(
                    s0.take(i as int),
                    e,
                    |x: Session| expired(x, now),
                );
            }
            if now >= TTL_SECS && e.created_at <= now - TTL_SECS {
                removed.push(e.id);
                proof {
                    assert(expired_ids(s0.take(i + 1), now) =~= expired_ids(
                        s0.take(i as int),
                        now,
                    ).push(e.id));
                }
            } else {
                kept.push(e);
            }
            i = i + 1;
        }
        proof {
            assert(s0.take(n as int) =~= s0);
        }
        let ghost p0 = self.pool@;
        let mut j: usize = 0;
        let m = removed.len();
        while j < m
            invariant
                0 <= j <= m,
                m == removed.len(),
                self.pool@ == p0 + removed@.take(j as int),
            decreases m - j,
        {
            self.pool.push(removed[j]);
            proof {
                Seq::lemma_take_succ_push(removed@, j as int);
                assert(p0 + removed@.take(j + 1) =~= (p0 + removed@.take(j as int)).push(
                    removed@[j as int],
                ));
            }
            j = j + 1;
        }
        proof {
            assert(removed@.take(m as int) =~= removed@);
            assert(p0 + removed@.take(0) =~= p0);
        }
        self.sessions = kept;
        proof {
            broadcast use vstd::seq_lib::group_to_multiset_ensures;

            lemma_partition_ids(s0, now);
            let p0 = old(self).free_pool();
            let rm = expired_ids(s0, now);
            let kp = ids_of(surviving(s0, now));
            lemma_multiset_commutative(p0, ids_of(s0));
            lemma_multiset_commutative(p0 + rm, kp);
            lemma_multiset_commutative(p0, rm);
            assert(((p0 + rm) + kp).to_multiset() =~= (p0 + ids_of(s0)).to_multiset());
        }
        removed
    }
}

/// A prune partitions the table's ids: the removed ids and the ids of the
/// surviving records together are exactly the ids that were there.
proof fn lemma_partition_ids(s: Seq<Session>, now: u64)
    ensures
        expired_ids(s, now).to_multiset().add(ids_of(surviving(s, now)).to_multiset())
            =~= ids_of(s).to_multiset(),
    decreases s.len(),
{
    broadcast use vstd::seq_lib::group_to_multiset_ensures;

    if s.len() == 0 {
        assert(s.filter(|x: Session| expired(x, now)) =~= Seq::<Session>::empty());
        assert(s.filter(|x: Session| !expired(x, now)) =~= Seq::<Session>::empty());
        assert(ids_of(s) =~= Seq::<u8>::empty());
        assert(expired_ids(s, now) =~= Seq::<u8>::empty());
        assert(ids_of(surviving(s, now)) =~= Seq::<u8>::empty());
    } else {
        let butlast = s.drop_last();
        let e = s.last();
        lemma_partition_ids(butlast, now);
        assert(s =~= butlast.push(e));
        Seq::lemma_filter_push(butlast, e, |x: Session| expired(x, now));
        Seq::lemma_filter_push(butlast, e, |x: Session| !expired(x, now));
        assert(ids_of(butlast.push(e)) =~= ids_of(butlast).push(e.id));
        if expired(e, now) {
            assert(expired_ids(s, now) =~= expired_ids(butlast, now).push(e.id));
            assert(ids_of(surviving(s, now)) =~= ids_of(surviving(butlast, now)));
        } else {
            assert(expired_ids(s, now) =~= expired_ids(butlast, now));
            assert(ids_of(surviving(s, now)) =~= ids_of(surviving(butlast, now)).push(e.id));
        }
    }
}

/// Idempotent prune: pruning what a prune at `now` left removes nothing
/// and changes nothing.
pub proof fn lemma_prune_idempotent(s: Seq<Session>, now: u64)
    ensures
        surviving(surviving(s, now), now) == surviving(s, now),
        expired_ids(surviving(s, now), now) == Seq::<u8>::empty(),
    decreases s.len(),
{
    if s.len() == 0 {
        assert(surviving(s, now) =~= Seq::<Session>::empty());
        assert(surviving(surviving(s, now), now) =~= surviving(s, now));
        assert(expired_ids(surviving(s, now), now) =~= Seq::<u8>::empty());
    } else {
        let butlast = s.drop_last();
        let e = s.last();
        lemma_prune_idempotent(butlast, now);
        assert(s =~= butlast.push(e));
        Seq::lemma_filter_push(butlast, e, |x: Session| !expired(x, now));
        if !expired(e, now) {
            assert(surviving(s, now) =~= surviving(butlast, now).push(e));
            Seq::lemma_filter_push(
                surviving(butlast, now),
                e,
                |x: Session| !expired(x, now),
            );
            Seq::lemma_filter_push(
                surviving(butlast, now),
                e,
                |x: Session| expired(x, now),
            );
            assert(surviving(surviving(s, now), now) =~= surviving(s, now));
            assert(expired_ids(surviving(s, now), now) =~= Seq::<u8>::empty());
        } else {
            assert(surviving(s, now) =~= surviving(butlast, now));
        }
    }
}

/// Expiry: a record that has expired by `now` is absent from the pruned
/// table; one that has not, and was present, is still present.
pub proof fn lemma_expiry(s: Seq<Session>, e: Session, now: u64)
    ensures
        expired(e, now) ==> !surviving(s, now).contains(e),
        !expired(e, now) && s.contains(e) ==> surviving(s, now).contains(e),
    decreases s.len(),
{
    if s.len() > 0 {
        let butlast = s.drop_last();
        lemma_expiry(butlast, e, now);
        assert(s =~= butlast.push(s.last()));
        Seq::lemma_filter_push(butlast, s.last(), |x: Session| !expired(x, now));
        if !expired(e, now) && s.contains(e) {
            if e == s.last() && !expired(s.last(), now) {
                assert(surviving(s, now).last() == e);
                assert(surviving(s, now).contains(e));
            } else {
                assert(butlast.contains(e)) by {
                    let i = choose|i: int| 0 <= i < s.len() && s[i] == e;
                    assert(i < butlast.len() && butlast[i] == e);
                }
                assert(surviving(butlast, now).contains(e));
                assert(surviving(s, now).contains(e)) by {
                    let j = choose|j: int|
                        0 <= j < surviving(butlast, now).len() && surviving(butlast, now)[j] == e;
                    if expired(s.last(), now) {
                        assert(surviving(s, now)[j] == e);
                    } else {
                        assert(surviving(s, now)[j] == e);
                    }
                }
            }
        }
        if expired(e, now) {
            assert(!surviving(s, now).contains(e)) by {
                if surviving(s, now).contains(e) {
                    let j = choose|j: int|
                        0 <= j < surviving(s, now).len() && surviving(s, now)[j] == e;
                    Seq::lemma_filter_pred(s, |x: Session| !expired(x, now), j);
                }
            }
        }
    } else {
        assert(surviving(s, now) =~= Seq::<Session>::empty());
    }
}

/// Id conservation, set form: the free pool and the table's key set
/// partition the full id range.
pub proof fn lemma_id_conservation(s: Server)
    requires
        s.inv(),
    ensures
        s.free_pool().to_set().union(ids_of(s.table()).to_set()) == Set::new(
            |i: u8| ID_MIN <= i <= ID_MAX,
        ),
        s.free_pool().to_set().intersect(ids_of(s.table()).to_set()) == Set::<u8>::empty(),
{
    broadcast use vstd::seq_lib::group_to_multiset_ensures;

    let p = s.free_pool();
    let t = ids_of(s.table());
    lemma_multiset_commutative(p, t);
    assert(id_range().no_duplicates()) by {
        assert(forall|i: int, j: int|
            0 <= i < j < id_range().len() ==> id_range()[i] != id_range()[j]);
    }
    id_range().lemma_multiset_has_no_duplicates();
    assert forall|x: u8| ID_MIN <= x <= ID_MAX implies id_range().contains(x) by {
        assert(id_range()[x - ID_MIN] == x);
    }
    assert(p.to_set().union(t.to_set()) =~= Set::new(|i: u8| ID_MIN <= i <= ID_MAX)) by {
        assert forall|x: u8| #[trigger] p.to_set().union(t.to_set()).contains(x) implies ID_MIN <= x
            <= ID_MAX by {
            assert(p.contains(x) || t.contains(x));
            assert((p + t).to_multiset().count(x) > 0);
            assert(id_range().to_multiset().count(x) > 0);
            assert(id_range().contains(x));
        }
        assert forall|x: u8| ID_MIN <= x <= ID_MAX implies p.to_set().union(t.to_set()).contains(
            x,
        ) by {
            assert(id_range().contains(x));
            assert(id_range().to_multiset().count(x) > 0);
            assert((p + t).to_multiset().count(x) > 0);
            assert((p + t).contains(x));
            let i = choose|i: int| 0 <= i < (p + t).len() && (p + t)[i] == x;
            if i < p.len() {
                assert(p[i] == x);
                assert(p.contains(x));
            } else {
                assert(t[i - p.len()] == x);
                assert(t.contains(x));
            }
        }
    }
    assert(p.to_set().intersect(t.to_set()) =~= Set::<u8>::empty()) by {
        assert forall|x: u8| !(#[trigger] p.to_set().intersect(t.to_set()).contains(x)) by {
            if p.contains(x) && t.contains(x) {
                assert(p.to_multiset().count(x) >= 1);
                assert(t.to_multiset().count(x) >= 1);
                assert((p + t).to_multiset().count(x) >= 2);
                assert(id_range().contains(x));
                assert(id_range().to_multiset().count(x) == 1);
            }
        }
    }
}

} // verus!
