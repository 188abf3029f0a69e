//! The connection registry: live connections in the order they joined, each an
//! identity with the write capability that the registry owns.

use vstd::prelude::*;
use crate::message::{encode_view, ChatMessage};

verus! {

broadcast use vstd::seq_lib::group_seq_lib_default;

/// The identities of a list of entries, in order.
pub open spec fn ids_of<W>(s: Seq<(u64, W)>) -> Seq<u64> {
    s.map_values(|e: (u64, W)| e.0)
}

/// The entries after registering `id`: unchanged when it is already present.
pub open spec fn register_spec<W>(s: Seq<(u64, W)>, id: u64, writer: W) -> Seq<(u64, W)> {
    if ids_of(s).contains(id) {
        s
    } else {
        s.push((id, writer))
    }
}

/// Holds of an entry whose identity is not `id`.
pub open spec fn entry_other_than<W>(id: u64) -> spec_fn((u64, W)) -> bool {
    |e: (u64, W)| e.0 != id
}

/// Holds of an identity other than `id`.
pub open spec fn other_than(id: u64) -> spec_fn(u64) -> bool {
    |x: u64| x != id
}

/// The entries after unregistering `id`: every entry of another identity, in order.
pub open spec fn unregister_spec<W>(s: Seq<(u64, W)>, id: u64) -> Seq<(u64, W)> {
    s.filter(entry_other_than(id))
}

/// The entries whose identity is not in `gone`, in order.
pub open spec fn without_ids<W>(s: Seq<(u64, W)>, gone: Seq<u64>) -> Seq<(u64, W)> {
    s.filter(|e: (u64, W)| !gone.contains(e.0))
}

/// The identities that a broadcast from `sender` reaches, in registry order.
pub open spec fn recipients_spec<W>(s: Seq<(u64, W)>, sender: u64) -> Seq<u64> {
    ids_of(s).filter(other_than(sender))
}

proof fn lemma_filter_keeps_all<A>(s: Seq<A>, p: spec_fn(A) -> bool)
    requires
        forall|k: int| 0 <= k < s.len() ==> p(#[trigger] s[k]),
    ensures
        s.filter(p) == s,
    decreases s.len(),
{
    reveal(Seq::filter);
    if s.len() > 0 {
        lemma_filter_keeps_all(s.drop_last(), p);
        assert(s.drop_last().push(s.last()) =~= s);
    } else {
        assert(s.filter(p) =~= s);
    }
}

proof fn lemma_filter_filter<A>(s: Seq<A>, p: spec_fn(A) -> bool, q: spec_fn(A) -> bool)
    ensures
        s.filter(p).filter(q) == s.filter(|a: A| p(a) && q(a)),
    decreases s.len(),
{
    reveal(Seq::filter);
    if s.len() > 0 {
        let init = s.drop_last();
        lemma_filter_filter(init, p, q);
        if p(s.last()) {
            let t = init.filter(p).push(s.last());
            assert(t.drop_last() =~= init.filter(p));
            assert(s.filter(p) == t);
        } else {
            assert(s.filter(p) == init.filter(p));
        }
    } else {
        assert(s.filter(p).filter(q) =~= s.filter(|a: A| p(a) && q(a)));
    }
}

proof fn lemma_without_step<W>(s: Seq<(u64, W)>, gone: Seq<u64>, id: u64)
    ensures
        unregister_spec(without_ids(s, gone), id) == without_ids(s, gone.push(id)),
{
    let p = |e: (u64, W)| !gone.contains(e.0);
    let q = entry_other_than::<W>(id);
    lemma_filter_filter(s, p, q);
    let both = |e: (u64, W)| p(e) && q(e);
    let pushed = |e: (u64, W)| !gone.push(id).contains(e.0);
    assert forall|e: (u64, W)| #[trigger] both(e) == pushed(e) by {
        if gone.contains(e.0) {
            let k = choose|k: int| 0 <= k < gone.len() && gone[k] == e.0;
            assert(gone.push(id)[k] == e.0);
        }
        if e.0 == id {
            assert(gone.push(id)[gone.len() as int] == id);
        }
        if gone.push(id).contains(e.0) {
            let k = choose|k: int| 0 <= k < gone.len() + 1 && gone.push(id)[k] == e.0;
            if k < gone.len() {
                assert(gone[k] == e.0);
            }
        }
    }
    assert(both =~= pushed);
}

proof fn lemma_filter_singleton<A>(a: A, p: spec_fn(A) -> bool)
    ensures
        seq![a].filter(p) == (if p(a) { seq![a] } else { Seq::<A>::empty() }),
{
    reveal_with_fuel(Seq::filter, 2);
    assert(seq![a].drop_last() =~= Seq::<A>::empty());
    assert(Seq::<A>::empty().filter(p) =~= Seq::<A>::empty());
    assert(Seq::<A>::empty().push(a) =~= seq![a]);
}

proof fn lemma_filter_take_step<A>(s: Seq<A>, p: spec_fn(A) -> bool, k: int)
    requires
        0 <= k < s.len(),
    ensures
        s.take(k + 1).filter(p) == s.take(k).filter(p) + (if p(s[k]) {
            seq![s[k]]
        } else {
            Seq::<A>::empty()
        }),
{
    assert(s.take(k + 1) =~= s.take(k) + seq![s[k]]);
    Seq::filter_distributes_over_add(s.take(k), seq![s[k]], p);
    lemma_filter_singleton(s[k], p);
    assert(s.take(k).filter(p) + Seq::<A>::empty() =~= s.take(k).filter(p));
}

proof fn lemma_unregister_at<W>(s: Seq<(u64, W)>, i: int)
    requires
        0 <= i < s.len(),
        ids_of(s).no_duplicates(),
    ensures
        unregister_spec(s, s[i].0) == s.remove(i),
{
    let id = s[i].0;
    let p = entry_other_than::<W>(id);
    let a = s.take(i);
    let b = s.skip(i + 1);
    assert(s =~= a + seq![s[i]] + b);
    assert forall|k: int| 0 <= k < a.len() implies p(#[trigger] a[k]) by {
        assert(ids_of(s)[k] == a[k].0);
        assert(ids_of(s)[i] == id);
    }
    assert forall|k: int| 0 <= k < b.len() implies p(#[trigger] b[k]) by {
        assert(ids_of(s)[k + i + 1] == b[k].0);
        assert(ids_of(s)[i] == id);
    }
    lemma_filter_keeps_all(a, p);
    lemma_filter_keeps_all(b, p);
    Seq::filter_distributes_over_add(a + seq![s[i]], b, p);
    Seq::filter_distributes_over_add(a, seq![s[i]], p);
    lemma_filter_singleton(s[i], p);
    assert(s.remove(i) =~= a + b);
    assert(a + Seq::<(u64, W)>::empty() + b =~= a + b);
}

proof fn lemma_unregister_absent<W>(s: Seq<(u64, W)>, id: u64)
    requires
        !ids_of(s).contains(id),
    ensures
        unregister_spec(s, id) == s,
{
    let p = entry_other_than::<W>(id);
    assert forall|k: int| 0 <= k < s.len() implies p(#[trigger] s[k]) by {
        assert(ids_of(s)[k] == s[k].0);
    }
    lemma_filter_keeps_all(s, p);
}

proof fn lemma_ids_remove<W>(s: Seq<(u64, W)>, i: int)
    requires
        0 <= i < s.len(),
        ids_of(s).no_duplicates(),
    ensures
        ids_of(s.remove(i)) == ids_of(s).remove(i),
        ids_of(s.remove(i)).no_duplicates(),
{
    assert(ids_of(s.remove(i)) =~= ids_of(s).remove(i));
}

/// Registering an identity that is present changes nothing, so a second
/// registration of the same identity never duplicates it; and unregistering an
/// identity that is absent changes nothing.
pub proof fn lemma_register_idempotent<W>(s: Seq<(u64, W)>, id: u64, first: W, second: W)
    requires
        ids_of(s).no_duplicates(),
    ensures
        register_spec(register_spec(s, id, first), id, second) == register_spec(s, id, first),
        ids_of(register_spec(register_spec(s, id, first), id, second)).no_duplicates(),
        !ids_of(s).contains(id) ==> unregister_spec(s, id) == s,
{
    let once = register_spec(s, id, first);
    assert(ids_of(once).contains(id)) by {
        if !ids_of(s).contains(id) {
            assert(ids_of(once)[s.len() as int] == id);
        } else {
            assert(once == s);
        }
    }
    if !ids_of(s).contains(id) {
        assert(ids_of(once) =~= ids_of(s).push(id));
        lemma_unregister_absent(s, id);
    }
}

/// A broadcast from `sender` reaches each registered identity other than the
/// sender, once, and nothing else; it reaches no one when the sender is the only
/// entry.
pub proof fn lemma_broadcast_targets<W>(s: Seq<(u64, W)>, sender: u64)
    requires
        ids_of(s).no_duplicates(),
    ensures
        forall|x: u64| #[trigger]
            recipients_spec(s, sender).contains(x) <==> (ids_of(s).contains(x) && x != sender),
        recipients_spec(s, sender).no_duplicates(),
        ids_of(s) == seq![sender] ==> recipients_spec(s, sender).len() == 0,
{
    let ids = ids_of(s);
    let p = other_than(sender);
    assert forall|x: u64| #[trigger]
        recipients_spec(s, sender).contains(x) <==> (ids.contains(x) && x != sender) by {
        if ids.contains(x) && x != sender {
            let k = choose|k: int| 0 <= k < ids.len() && ids[k] == x;
            ids.lemma_filter_contains(p, k);
        }
        if ids.filter(p).contains(x) {
            ids.lemma_filter_contains_rev(p, x);
            let k = choose|k: int| 0 <= k < ids.filter(p).len() && ids.filter(p)[k] == x;
            ids.lemma_filter_pred(p, k);
        }
    }
    lemma_filter_no_dup(ids, p);
    if ids == seq![sender] {
        lemma_filter_singleton(sender, p);
    }
}

proof fn lemma_filter_no_dup<A>(s: Seq<A>, p: spec_fn(A) -> bool)
    requires
        s.no_duplicates(),
    ensures
        s.filter(p).no_duplicates(),
    decreases s.len(),
{
    reveal(Seq::filter);
    if s.len() > 0 {
        let init = s.drop_last();
        assert(init.no_duplicates());
        lemma_filter_no_dup(init, p);
        let f = init.filter(p);
        if p(s.last()) {
            assert(!init.contains(s.last()));
            let g = f.push(s.last());
            assert forall|i: int, j: int| 0 <= i < g.len() && 0 <= j < g.len() && i != j implies g[i]
                != g[j] by {
                if i < f.len() && j < f.len() {
                    assert(g[i] == f[i] && g[j] == f[j]);
                } else if i < f.len() {
                    assert(f.contains(g[i]));
                    init.lemma_filter_contains_rev(p, g[i]);
                } else if j < f.len() {
                    assert(f.contains(g[j]));
                    init.lemma_filter_contains_rev(p, g[j]);
                }
            }
            assert(s.filter(p) == g);
        } else {
            assert(s.filter(p) == f);
        }
    }
}

/// The live connections: each identity appears at most once, in joining order.
pub struct Registry<W> {
    entries: Vec<(u64, W)>,
}

/// What one broadcast sends: the wire text, and the identities it goes to, in
/// registry order.
pub struct Broadcast {
    pub recipients: Vec<u64>,
    pub payload: String,
}

impl<W> View for Registry<W> {
    type V = Seq<(u64, W)>;

    closed spec fn view(&self) -> Seq<(u64, W)> {
        self.entries@
    }
}

impl<W> Registry<W> {
    /// Identities are unique.
    pub open spec fn wf(&self) -> bool {
        ids_of(self@).no_duplicates()
    }

    /// An empty registry.
    pub fn new() -> (r: Registry<W>)
        ensures
            r@ == Seq::<(u64, W)>::empty(),
            r.wf(),
    {
        let r = Registry { entries: Vec::new() };
        assert(ids_of(r@) =~= Seq::<u64>::empty());
        r
    }

    /// The number of live connections.
    pub fn len(&self) -> (r: usize)
        ensures
            r == self@.len(),
    {
        self.entries.len()
    }

    /// The index of `id`, if it is registered.
    fn position(&self, id: u64) -> (r: Option<usize>)
        ensures
            match r {
                Some(i) => i < self@.len() && self@[i as int].0 == id,
                None => !ids_of(self@).contains(id),
            },
    {
        let mut i: usize = 0;
        while i < self.entries.len()
            invariant
                i <= self@.len(),
                forall|k: int| 0 <= k < i ==> self@[k].0 != id,
            decreases self@.len() - i,
        {
            if self.entries[i].0 == id {
                return Some(i);
            }
            i = i + 1;
        }
        assert forall|k: int| 0 <= k < ids_of(self@).len() implies ids_of(self@)[k] != id by {
            assert(self@[k].0 != id);
        }
        None
    }

    /// Whether `id` is registered.
    pub fn contains(&self, id: u64) -> (r: bool)
        ensures
            r == ids_of(self@).contains(id),
    {
        match self.position(id) {
            Some(i) => {
                assert(ids_of(self@)[i as int] == id);
                true
            },
            None => false,
        }
    }

    /// Adds a connection. An identity that is already present is refused, its
    /// writer handed back, and the registry left as it was.
    pub fn register(&mut self, id: u64, writer: W) -> (r: Result<(), W>)
        requires
            old(self).wf(),
        ensures
            final(self).wf(),
            final(self)@ == register_spec(old(self)@, id, writer),
            r is Ok <==> !ids_of(old(self)@).contains(id),
            r matches Err(w) ==> w == writer,
    {
        if self.contains(id) {
            Err(writer)
        } else {
            self.entries.push((id, writer));
            assert(ids_of(self@) =~= ids_of(old(self)@).push(id));
            Ok(())
        }
    }

    /// Removes the connection of `id` and hands back its writer; does nothing
    /// when `id` is absent.
    pub fn unregister(&mut self, id: u64) -> (r: Option<W>)
        requires
            old(self).wf(),
        ensures
            final(self).wf(),
            final(self)@ == unregister_spec(old(self)@, id),
            r is Some <==> ids_of(old(self)@).contains(id),
            r matches Some(w) ==> old(self)@.contains((id, w)),
            !ids_of(old(self)@).contains(id) ==> final(self)@ == old(self)@,
    {
        match self.position(id) {
            Some(i) => {
                proof {
                    lemma_unregister_at(self@, i as int);
                    lemma_ids_remove(self@, i as int);
                    assert(ids_of(self@)[i as int] == id);
                }
                let (_, w) = self.entries.remove(i);
                Some(w)
            },
            None => {
                proof {
                    lemma_unregister_absent(self@, id);
                }
                None
            },
        }
    }

    /// The identities that a broadcast from `sender` reaches: every registered
    /// identity but the sender's, in registry order.
    pub fn recipients(&self, sender: u64) -> (r: Vec<u64>)
        ensures
            r@ == recipients_spec(self@, sender),
    {
        let ghost ids = ids_of(self@);
        let ghost p = other_than(sender);
        let mut r: Vec<u64> = Vec::new();
        let mut k: usize = 0;
        assert(ids.take(0).filter(p) =~= Seq::<u64>::empty()) by {
            reveal(Seq::filter);
        }
        while k < self.entries.len()
            invariant
                k <= self@.len(),
                ids == ids_of(self@),
                p == other_than(sender),
                r@ == ids.take(k as int).filter(p),
            decreases self@.len() - k,
        {
            let id = self.entries[k].0;
            proof {
                lemma_filter_take_step(ids, p, k as int);
            }
            if id != sender {
                r.push(id);
            } else {
                assert(r@ + Seq::<u64>::empty() =~= r@);
            }
            k = k + 1;
        }
        assert(ids.take(self@.len() as int) =~= ids);
        r
    }

    /// The delivery plan for a message from `sender`: its wire text, to every
    /// other registered identity.
    pub fn broadcast_except(&self, sender: u64, message: &ChatMessage) -> (r: Broadcast)
        ensures
            r.recipients@ == recipients_spec(self@, sender),
            r.payload@ == encode_view(message.username@, message.content@),
    {
        Broadcast { recipients: self.recipients(sender), payload: message.encode() }
    }

    /// Removes every connection whose identity is in `failed`, keeping the order
    /// of the others.
    pub fn drop_failed(&mut self, failed: &Vec<u64>)
        requires
            old(self).wf(),
        ensures
            final(self).wf(),
            final(self)@ == without_ids(old(self)@, failed@),
    {
        let ghost start = self@;
        proof {
            assert(without_ids(start, failed@.take(0)) =~= start) by {
                let p = |e: (u64, W)| !failed@.take(0).contains(e.0);
                lemma_filter_keeps_all(start, p);
            }
        }
        let mut k: usize = 0;
        while k < failed.len()
            invariant
                k <= failed@.len(),
                self.wf(),
                self@ == without_ids(start, failed@.take(k as int)),
            decreases failed@.len() - k,
        {
            proof {
                lemma_without_step(start, failed@.take(k as int), failed@[k as int]);
                assert(failed@.take(k as int).push(failed@[k as int]) =~= failed@.take(k + 1));
            }
            self.unregister(failed[k]);
            k = k + 1;
        }
        assert(failed@.take(failed@.len() as int) =~= failed@);
    }

    /// The writer of `id`, if it is registered.
    pub fn writer_mut(&mut self, id: u64) -> (r: Option<&mut W>)
        ensures
            ids_of(final(self)@) == ids_of(old(self)@),
            r is Some <==> ids_of(old(self)@).contains(id),
    {
        match self.position(id) {
            Some(i) => {
                assert(ids_of(self@)[i as int] == id);
                Some(&mut self.entries[i].1)
            },
            None => None,
        }
    }
}

} // verus!
