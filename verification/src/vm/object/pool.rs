use std::collections::HashMap;
use vstd::prelude::*;

verus! {

broadcast use vstd::std_specs::hash::group_hash_axioms;

/// The handle of an object in a pool.
pub type ObjectId = usize;

/// A call on a pool: a new handle for an object, or the disposal of a handle.
pub enum PoolCall<O> {
    New(O),
    Dispose(ObjectId),
}

/// The objects by handle and the last handle handed out after the call `c`,
/// from objects `m` and last handle `last`: a new object goes under the handle
/// after the last one; a disposed handle is removed.
pub open spec fn pool_step<O>(m: Map<ObjectId, O>, last: int, c: PoolCall<O>) -> (Map<ObjectId, O>, int) {
    match c {
        PoolCall::New(o) => (m.insert((last + 1) as ObjectId, o), last + 1),
        PoolCall::Dispose(id) => (m.remove(id), last),
    }
}

/// The objects by handle and the last handle of a pool made by `new` and then
/// given the calls `calls` in order.
pub open spec fn pool_run<O>(calls: Seq<PoolCall<O>>) -> (Map<ObjectId, O>, int)
    decreases calls.len(),
{
    if calls.len() == 0 {
        (Map::empty(), 0)
    } else {
        let (m, last) = pool_run(calls.drop_last());
        pool_step(m, last, calls.last())
    }
}

/// The number of new handles among the calls `calls`.
pub open spec fn news<O>(calls: Seq<PoolCall<O>>) -> int
    decreases calls.len(),
{
    if calls.len() == 0 {
        0
    } else {
        news(calls.drop_last()) + if calls.last() is New {
            1int
        } else {
            0int
        }
    }
}

/// The handle that call `i` of `calls` returns, where it asks for a new one.
pub open spec fn handle_of<O>(calls: Seq<PoolCall<O>>, i: int) -> int {
    news(calls.take(i)) + 1
}

/// Handle `h` was handed out by call `i` and no later call disposed of it.
pub open spec fn alive_from<O>(calls: Seq<PoolCall<O>>, i: int, h: int) -> bool {
    &&& 0 <= i < calls.len()
    &&& calls[i] is New
    &&& handle_of(calls, i) == h
    &&& forall|j: int| i < j < calls.len() ==> !(#[trigger] calls[j] matches PoolCall::Dispose(d) && d == h)
}

/// The objects a machine has allocated, by handle. Handles are handed out in
/// increasing order and never reused.
#[derive(Debug)]
pub struct ObjectPool<O> {
    last_handle: ObjectId,
    handles: HashMap<ObjectId, O>,
}

impl<O> View for ObjectPool<O> {
    type V = Map<ObjectId, O>;

    closed spec fn view(&self) -> Map<ObjectId, O> {
        self.handles@
    }
}

impl<O> ObjectPool<O> {
    /// The last handle handed out (0 before the first).
    pub closed spec fn last(&self) -> ObjectId {
        self.last_handle
    }

    /// Every live handle lies between 1 and the last handle handed out.
    pub closed spec fn wf(&self) -> bool {
        forall|k: ObjectId| #[trigger] self.handles@.contains_key(k) ==> 1 <= k <= self.last_handle
    }

    /// An empty pool.
    pub fn new() -> (res: Self)
        ensures
            res.wf(),
            res@ == Map::<ObjectId, O>::empty(),
            res.last() == 0,
            (res@, res.last() as int) == pool_run(Seq::<PoolCall<O>>::empty()),
    {
        ObjectPool { last_handle: 0, handles: HashMap::new() }
    }

    /// Puts `obj` into the pool under a fresh handle and returns the handle.
    pub fn new_handle(&mut self, obj: O) -> (id: ObjectId)
        requires
            old(self).wf(),
            old(self).last() < usize::MAX,
        ensures
            final(self).wf(),
            id == old(self).last() + 1,
            final(self).last() == id,
            !old(self)@.contains_key(id),
            final(self)@ == old(self)@.insert(id, obj),
            (final(self)@, final(self).last() as int) == pool_step(old(self)@, old(self).last() as int, PoolCall::New(obj)),
    {
        self.last_handle = self.last_handle + 1;
        let id = self.last_handle;
        self.handles.insert(id, obj);
        id
    }

    /// Removes the object with handle `id`, if there is one.
    pub fn dispose_handle(&mut self, id: &ObjectId)
        requires
            old(self).wf(),
        ensures
            final(self).wf(),
            final(self).last() == old(self).last(),
            final(self)@ == old(self)@.remove(*id),
            (final(self)@, final(self).last() as int) == pool_step(old(self)@, old(self).last() as int, PoolCall::Dispose(*id)),
    {
        self.handles.remove(id);
    }

    /// The object with handle `id`, if there is one.
    pub fn get(&self, id: &ObjectId) -> (res: Option<&O>)
        ensures
            match res {
                Some(o) => self@.contains_key(*id) && *o == self@[*id],
                None => !self@.contains_key(*id),
            },
    {
        self.handles.get(id)
    }
}

/// A new handle differs from every handle alive before it, and reading it
/// back gives the object put there; disposing of a handle leaves the others.
pub proof fn lemma_pool_handles<O>(m: Map<ObjectId, O>, id: ObjectId, obj: O, other: ObjectId)
    requires
        !m.contains_key(id),
    ensures
        m.insert(id, obj)[id] == obj,
        m.contains_key(other) ==> other != id && m.insert(id, obj)[other] == m[other],
        other != id ==> (m.insert(id, obj).remove(id).contains_key(other) == m.contains_key(other)),
{
}

proof fn lemma_news_take<O>(calls: Seq<PoolCall<O>>, i: int)
    requires
        0 <= i <= calls.len(),
    ensures
        0 <= news(calls.take(i)) <= news(calls),
        news(calls.take(i)) <= i,
        i < calls.len() && calls[i] is New ==> news(calls.take(i)) < news(calls),
    decreases calls.len(),
{
    if i < calls.len() {
        let p = calls.drop_last();
        if i < p.len() {
            assert(p.take(i) =~= calls.take(i));
            lemma_news_take(p, i);
            assert(p[i] == calls[i]);
        } else {
            assert(calls.take(i) =~= p);
            lemma_news_take(p, i);
            assert(p.take(i) =~= p);
        }
    } else {
        assert(calls.take(i) =~= calls);
        if calls.len() > 0 {
            lemma_news_take(calls.drop_last(), calls.len() - 1);
            assert(calls.drop_last().take(calls.len() - 1) =~= calls.drop_last());
        }
    }
}

proof fn lemma_handles_increase<O>(calls: Seq<PoolCall<O>>)
    ensures
        forall|i: int, k: int|
            0 <= i < k < calls.len() && calls[i] is New && calls[k] is New ==> handle_of(calls, i) < handle_of(calls, k),
{
    assert forall|i: int, k: int|
        0 <= i < k < calls.len() && calls[i] is New && calls[k] is New implies handle_of(calls, i) < handle_of(calls, k) by {
        let t = calls.take(k);
        assert(t.take(i) =~= calls.take(i));
        assert(t[i] == calls[i]);
        lemma_news_take(t, i);
    }
}

/// Whether call `i` left `h` alive over all calls but the last, and the last
/// did not dispose of it.
proof fn lemma_alive_last<O>(calls: Seq<PoolCall<O>>, i: int, h: int)
    requires
        calls.len() > 0,
        0 <= i < calls.len() - 1,
    ensures
        alive_from(calls, i, h) == (alive_from(calls.drop_last(), i, h) && !(calls.last() matches PoolCall::Dispose(d)
            && d == h)),
{
    let p = calls.drop_last();
    assert(calls.take(i) =~= p.take(i));
    assert(p[i] == calls[i]);
    if alive_from(calls, i, h) {
        assert forall|j: int| i < j < p.len() implies !(#[trigger] p[j] matches PoolCall::Dispose(d) && d == h) by {
            assert(p[j] == calls[j]);
        }
        assert(!(calls[calls.len() - 1] matches PoolCall::Dispose(d) && d == h));
    }
    if alive_from(p, i, h) && !(calls.last() matches PoolCall::Dispose(d) && d == h) {
        assert forall|j: int| i < j < calls.len() implies !(#[trigger] calls[j] matches PoolCall::Dispose(d) && d == h) by {
            if j < p.len() {
                assert(p[j] == calls[j]);
            }
        }
    }
}

/// One more call keeps the relation between live handles and the calls.
proof fn lemma_pool_run_step<O>(calls: Seq<PoolCall<O>>)
    requires
        calls.len() > 0,
        news(calls) < usize::MAX,
        pool_run(calls.drop_last()).1 == news(calls.drop_last()),
        forall|h: ObjectId|
            #[trigger] pool_run(calls.drop_last()).0.contains_key(h) <==> exists|i: int| alive_from(calls.drop_last(), i, h as int),
        forall|i: int|
            #[trigger] alive_from(calls.drop_last(), i, handle_of(calls.drop_last(), i)) ==> pool_run(calls.drop_last()).0[handle_of(
                calls.drop_last(), i) as ObjectId] == calls.drop_last()[i]->New_0,
    ensures
        pool_run(calls).1 == news(calls),
        forall|h: ObjectId| #[trigger] pool_run(calls).0.contains_key(h) <==> exists|i: int| alive_from(calls, i, h as int),
        forall|i: int|
            #[trigger] alive_from(calls, i, handle_of(calls, i)) ==> pool_run(calls).0[handle_of(calls, i) as ObjectId]
                == calls[i]->New_0,
{
    let p = calls.drop_last();
    let n = calls.len() - 1;
    let c = calls.last();
    let m = pool_run(p).0;
    let last = pool_run(p).1;
    lemma_news_take(calls, n);
    assert(calls.take(n) =~= p);
    assert(handle_of(calls, n) == last + 1);
    assert forall|i: int| 0 <= i < n && calls[i] is New implies #[trigger] handle_of(calls, i) <= last by {
        assert(p[i] == calls[i]);
        assert(calls.take(i) =~= p.take(i));
        lemma_news_take(p, i);
    }
    assert forall|h: ObjectId| #[trigger] pool_run(calls).0.contains_key(h) <==> exists|i: int| alive_from(calls, i, h as int) by {
        if pool_run(calls).0.contains_key(h) {
            if c is New && h as int == last + 1 {
                assert(alive_from(calls, n, h as int));
            } else {
                assert(m.contains_key(h));
                let i = choose|i: int| alive_from(p, i, h as int);
                lemma_alive_last(calls, i, h as int);
                assert(alive_from(calls, i, h as int));
            }
        }
        if exists|i: int| alive_from(calls, i, h as int) {
            let i = choose|i: int| alive_from(calls, i, h as int);
            if i < n {
                lemma_alive_last(calls, i, h as int);
                assert(m.contains_key(h));
                assert(handle_of(calls, i) <= last);
            }
        }
    }
    assert forall|i: int|
        #[trigger] alive_from(calls, i, handle_of(calls, i)) implies pool_run(calls).0[handle_of(calls, i) as ObjectId]
            == calls[i]->New_0 by {
        assert(pool_run(calls) == pool_step(m, last, c));
        if i < n {
            assert(calls.take(i) =~= p.take(i));
            assert(p[i] == calls[i]);
            lemma_alive_last(calls, i, handle_of(calls, i));
            assert(alive_from(p, i, handle_of(p, i)));
            assert(handle_of(calls, i) <= last);
            assert(m[handle_of(p, i) as ObjectId] == p[i]->New_0);
            lemma_news_take(calls, i);
        } else {
            assert(c == calls[i]);
        }
    }
}

/// Handles over a sequence of calls: a pool made by `new` and given `calls`
/// hands out handles 1, 2, 3, ... in the order of the calls that ask for one,
/// so no handle is handed out twice, even after a disposal; the last handle is
/// the number handed out; and a handle holds an object exactly when a call
/// handed it out and no later call disposed of it, the object being the one
/// put there.
pub proof fn lemma_pool_run<O>(calls: Seq<PoolCall<O>>)
    requires
        news(calls) < usize::MAX,
    ensures
        pool_run(calls).1 == news(calls),
        forall|i: int, k: int|
            0 <= i < k < calls.len() && calls[i] is New && calls[k] is New ==> handle_of(calls, i) < handle_of(calls, k),
        forall|h: ObjectId|
            #[trigger] pool_run(calls).0.contains_key(h) <==> exists|i: int| alive_from(calls, i, h as int),
        forall|i: int|
            #[trigger] alive_from(calls, i, handle_of(calls, i)) ==> pool_run(calls).0[handle_of(calls, i) as ObjectId]
                == calls[i]->New_0,
    decreases calls.len(),
{
    lemma_handles_increase(calls);
    if calls.len() > 0 {
        lemma_news_take(calls, calls.len() - 1);
        assert(calls.take(calls.len() - 1) =~= calls.drop_last());
        lemma_pool_run(calls.drop_last());
        lemma_pool_run_step(calls);
    }
}

} // verus!
