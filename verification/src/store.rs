//! The store-client interface and its verified in-memory implementation.
//!
//! A store client associates byte-string values with byte-string keys. The
//! gateway owns exactly one client and every request handler goes through it;
//! a remote client lives outside the verified crate and is reached from the
//! unverified edge, while [`MemStore`] is the verified implementation used to
//! exercise the handlers.

use vstd::prelude::*;

verus! {

/// Opaque success signal for a completed write: carries no payload, so a
/// caller learns only success-or-failure, never the previous value.
pub struct Ack;

/// A failure reported by the backend: an absent key, an unreachable backend,
/// or a malformed protocol reply, undifferentiated. The detail is embedded in
/// the HTTP error body by the response mapper.
pub struct BackendError {
    pub detail: Vec<u8>,
}

/// The capability contract every backend-talking client satisfies:
/// fetch-by-key and store-by-key against an abstract map from keys to values.
///
/// Exclusive access (`&mut self`) encodes the gateway's access discipline:
/// only one caller at a time may be invoking `get` or `set` on the one shared
/// client, so the client never sees two overlapping calls.
///
/// A call may fail with [`BackendError`] at any time (the backend may be
/// unreachable), so no method promises success; each promises what must hold
/// of the abstract state whenever it does succeed.
pub trait StoreApi: Sized {
    /// The key-value association the store currently holds.
    spec fn model(&self) -> Map<Seq<u8>, Seq<u8>>;

    /// Fetch the value associated with `key`. Reading never changes the
    /// store, and a returned value is exactly the one the store holds.
    fn get(&mut self, key: &Vec<u8>) -> (r: Result<Vec<u8>, BackendError>)
        ensures
            final(self).model() == old(self).model(),
            r matches Ok(v) ==> old(self).model().contains_key(key@) && v@ == old(
                self,
            ).model().index(key@),
    ;

    /// Associate `value` with `key`, overwriting any prior value. On success
    /// the store holds exactly the old association updated at `key`; on
    /// failure nothing is promised of the backend's state, since a remote
    /// command may or may not have taken effect before the failure.
    fn set(&mut self, key: &Vec<u8>, value: &Vec<u8>) -> (r: Result<Ack, BackendError>)
        ensures
            r matches Ok(_) ==> final(self).model() == old(self).model().insert(key@, value@),
    ;
}

/// The association held by a sequence of (key, value) writes, later writes
/// overriding earlier ones.
pub open spec fn writes_model(s: Seq<(Seq<u8>, Seq<u8>)>) -> Map<Seq<u8>, Seq<u8>>
    decreases s.len(),
{
    if s.len() == 0 {
        Map::empty()
    } else {
        writes_model(s.drop_last()).insert(s.last().0, s.last().1)
    }
}

/// The element-wise views of a vector of (key, value) pairs.
pub open spec fn pair_views(s: Seq<(Vec<u8>, Vec<u8>)>) -> Seq<(Seq<u8>, Seq<u8>)> {
    Seq::new(s.len(), |i: int| (s[i].0@, s[i].1@))
}

/// An in-memory store client: the write log in order, the latest write to a
/// key winning. It is the verified implementation of [`StoreApi`]; its reads
/// and writes always reach the "backend", so `get` fails exactly on absent
/// keys and `set` always succeeds.
pub struct MemStore {
    entries: Vec<(Vec<u8>, Vec<u8>)>,
}

impl MemStore {
    /// An empty store: no key has a value.
    pub fn new() -> (s: Self)
        ensures
            s.model() == Map::<Seq<u8>, Seq<u8>>::empty(),
    {
        let s = MemStore { entries: Vec::new() };
        proof {
            assert(pair_views(s.entries@) =~= Seq::<(Seq<u8>, Seq<u8>)>::empty());
        }
        s
    }
}

/// Byte-string equality, the key comparison the in-memory store scans with.
fn bytes_eq(a: &Vec<u8>, b: &Vec<u8>) -> (r: bool)
    ensures
        r == (a@ == b@),
{
    if a.len() != b.len() {
        proof {
            assert(a@.len() != b@.len());
        }
        return false;
    }
    let n = a.len();
    let mut i: usize = 0;
    while i < n
        invariant
            n == a@.len() == b@.len(),
            i <= n,
            forall|j: int| 0 <= j < i ==> a@[j] == b@[j],
        decreases n - i,
    {
        if a[i] != b[i] {
            return false;
        }
        i += 1;
    }
    proof {
        assert(a@ =~= b@);
    }
    true
}

impl StoreApi for MemStore {
    closed spec fn model(&self) -> Map<Seq<u8>, Seq<u8>> {
        writes_model(pair_views(self.entries@))
    }

    /// Fetch by scanning the write log from the most recent write back.
    /// Success is owed exactly on the keys the store holds.
    fn get(&mut self, key: &Vec<u8>) -> (r: Result<Vec<u8>, BackendError>)
        ensures
            r matches Err(_) <==> !old(self).model().contains_key(key@),
    {
        let ghost full = pair_views(self.entries@);
        let mut i: usize = self.entries.len();
        proof {
            assert(full.take(i as int) =~= full);
        }
        while i > 0
            invariant
                i <= self.entries@.len(),
                full == pair_views(self.entries@),
                writes_model(full).contains_key(key@) == writes_model(
                    full.take(i as int),
                ).contains_key(key@),
                writes_model(full).contains_key(key@) ==> writes_model(full)[key@]
                    == writes_model(full.take(i as int))[key@],
            decreases i,
        {
            i -= 1;
            let hit = bytes_eq(&self.entries[i].0, key);
            proof {
                assert(full.take(i + 1).drop_last() =~= full.take(i as int));
                let ghost entry = self.entries@.index(i as int);
                assert(full.take(i + 1).last() == (entry.0@, entry.1@));
            }
            if hit {
                let v = clone_bytes(&self.entries[i].1);
                return Ok(v);
            }
        }
        proof {
            assert(full.take(0) =~= Seq::<(Seq<u8>, Seq<u8>)>::empty());
        }
        Err(BackendError { detail: not_found_detail() })
    }

    /// Store by appending to the write log; in memory this always succeeds.
    fn set(&mut self, key: &Vec<u8>, value: &Vec<u8>) -> (r: Result<Ack, BackendError>)
        ensures
            r matches Ok(_),
    {
        let k = clone_bytes(key);
        let v = clone_bytes(value);
        let ghost before = pair_views(self.entries@);
        self.entries.push((k, v));
        proof {
            assert(pair_views(self.entries@).drop_last() =~= before);
            assert(pair_views(self.entries@).last() == (key@, value@));
        }
        Ok(Ack)
    }
}

/// A fresh byte string holding the same bytes.
fn clone_bytes(a: &Vec<u8>) -> (r: Vec<u8>)
    ensures
        r@ == a@,
{
    let mut r: Vec<u8> = Vec::new();
    let mut i: usize = 0;
    while i < a.len()
        invariant
            i <= a@.len(),
            r@ == a@.take(i as int),
        decreases a@.len() - i,
    {
        r.push(a[i]);
        proof {
            assert(a@.take(i + 1) =~= a@.take(i as int).push(a@[i as int]));
        }
        i += 1;
    }
    proof {
        assert(a@.take(a@.len() as int) =~= a@);
    }
    r
}

/// The detail the in-memory store reports for a key it does not hold.
fn not_found_detail() -> (r: Vec<u8>)
    ensures
        r@.len() > 0,
{
    // "key not found"
    vec![107u8, 101u8, 121u8, 32u8, 110u8, 111u8, 116u8, 32u8, 102u8, 111u8, 117u8, 110u8, 100u8]
}

/// Writing a key and then reading it yields exactly the value written,
/// provided no write to that key came between: the round trip over the
/// store's abstract state.
pub proof fn lemma_set_then_get(m: Map<Seq<u8>, Seq<u8>>, k: Seq<u8>, v: Seq<u8>)
    ensures
        m.insert(k, v).contains_key(k),
        m.insert(k, v)[k] == v,
{
}

/// A write to one key leaves every other key's association unchanged.
pub proof fn lemma_set_preserves_others(m: Map<Seq<u8>, Seq<u8>>, k: Seq<u8>, v: Seq<u8>, k2: Seq<u8>)
    requires
        k2 != k,
    ensures
        m.insert(k, v).contains_key(k2) == m.contains_key(k2),
        m.contains_key(k2) ==> m.insert(k, v)[k2] == m[k2],
{
}

} // verus!
