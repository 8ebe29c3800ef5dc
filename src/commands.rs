//! The command buffer: entity creations queued during a system run and
//! applied after it returns.
use vstd::prelude::*;
use crate::entity::Entity;
use crate::registry::{EntityRegistry, issued};

verus! {

/// Whether handles `es` were issued one after another, in order, taking the
/// slot versions from `before` to `after` (see `issued`).
pub open spec fn issued_in_order(before: Seq<u32>, after: Seq<u32>, es: Seq<Entity>) -> bool {
    exists|vs: Seq<Seq<u32>>|
        vs.len() == es.len() + 1 && vs[0] == before && vs[es.len() as int] == after && forall|j: int|
            0 <= j < es.len() ==> issued(#[trigger] vs[j], vs[j + 1], es[j])
}

/// Queued entity creations, each with the components (`B`, a bundle) the new
/// entity starts with.
pub struct Commands<B> {
    queue: Vec<B>,
}

impl<B> Commands<B> {
    pub closed spec fn view(self) -> Seq<B> {
        self.queue@
    }

    pub fn new() -> (r: Commands<B>)
        ensures
            r@ == Seq::<B>::empty(),
    {
        Commands { queue: Vec::new() }
    }

    /// Queues the creation of an entity that starts with `bundle`. Nothing is
    /// created until the buffer is applied.
    pub fn create_entity(&mut self, bundle: B)
        ensures
            final(self)@ == old(self)@.push(bundle),
    {
        self.queue.push(bundle);
    }

    /// The number of queued creations.
    pub fn len(&self) -> (r: usize)
        ensures
            r == self@.len(),
    {
        self.queue.len()
    }

    /// Creates the queued entities in the order they were queued, and hands
    /// back each new handle with its bundle.
    pub fn apply(self, reg: &mut EntityRegistry) -> (r: Vec<(Entity, B)>)
        requires
            old(reg).wf(),
            old(reg).versions().len() + self@.len() < u32::MAX,
        ensures
            final(reg).wf(),
            r@.len() == self@.len(),
            forall|j: int| 0 <= j < r@.len() ==> (#[trigger] r@[j]).1 == self@[j],
            forall|j: int| 0 <= j < r@.len() ==> !old(reg).alive().contains((#[trigger] r@[j]).0),
            forall|a: int, b: int| 0 <= a < b < r@.len() ==> r@[a].0 != r@[b].0,
            forall|e: Entity|
                final(reg).alive().contains(e) <==> (old(reg).alive().contains(e) || exists|j: int|
                    0 <= j < r@.len() && (#[trigger] r@[j]).0 == e),
            final(reg).alive().len() == old(reg).alive().len() + self@.len(),
            issued_in_order(
                old(reg).versions(),
                final(reg).versions(),
                r@.map_values(|p: (Entity, B)| p.0),
            ),
    {
        let total = self.queue.len();
        let ghost queued = self@;
        let mut queue = self.queue;
        let mut out: Vec<(Entity, B)> = Vec::new();
        let mut k: usize = 0;
        let ghost mut vs: Seq<Seq<u32>> = seq![old(reg).versions()];
        while queue.len() > 0
            invariant
                reg.wf(),
                vs.len() == k + 1,
                vs[0] == old(reg).versions(),
                vs[k as int] == reg.versions(),
                forall|j: int| 0 <= j < k ==> issued(#[trigger] vs[j], vs[j + 1], out@[j].0),
                k + queue@.len() == queued.len(),
                queued.len() == total,
                queue@ == queued.subrange(k as int, queued.len() as int),
                reg.versions().len() + queue@.len() < u32::MAX,
                out@.len() == k,
                reg.alive().len() == old(reg).alive().len() + k,
                forall|j: int| 0 <= j < k ==> (#[trigger] out@[j]).1 == queued[j],
                forall|j: int| 0 <= j < k ==> !old(reg).alive().contains((#[trigger] out@[j]).0),
                forall|a: int, b: int| 0 <= a < b < k ==> out@[a].0 != out@[b].0,
                forall|e: Entity|
                    reg.alive().contains(e) <==> (old(reg).alive().contains(e) || exists|j: int|
                        0 <= j < k && (#[trigger] out@[j]).0 == e),
            decreases queue@.len(),
        {
            let bundle = queue.remove(0);
            let e = reg.create();
            let ghost out0 = out@;
            out.push((e, bundle));
            proof {
                let vs0 = vs;
                vs = vs.push(reg.versions());
                assert forall|j: int| 0 <= j < k + 1 implies issued(
                    #[trigger] vs[j],
                    vs[j + 1],
                    out@[j].0,
                ) by {
                    if j < k {
                        assert(vs[j] == vs0[j] && vs[j + 1] == vs0[j + 1]);
                        assert(out@[j] == out0[j]);
                    }
                }
                assert forall|j: int| 0 <= j < k implies out0[j].0 != e by {
                    assert(reg.alive().contains(out0[j].0));
                }
                assert forall|x: Entity|
                    reg.alive().contains(x) <==> (old(reg).alive().contains(x) || exists|j: int|
                        0 <= j < k + 1 && (#[trigger] out@[j]).0 == x) by {
                    if exists|j: int| 0 <= j < k && (#[trigger] out0[j]).0 == x {
                        let j = choose|j: int| 0 <= j < k && (#[trigger] out0[j]).0 == x;
                        assert(out@[j] == out0[j]);
                    }
                    if exists|j: int| 0 <= j < k + 1 && (#[trigger] out@[j]).0 == x {
                        let j = choose|j: int| 0 <= j < k + 1 && (#[trigger] out@[j]).0 == x;
                        if j < k {
                            assert(out0[j] == out@[j]);
                        }
                    }
                    assert(out@[k as int].0 == e);
                }
            }
            k = k + 1;
        }
        proof {
            let es = out@.map_values(|p: (Entity, B)| p.0);
            assert(vs.len() == es.len() + 1 && vs[0] == old(reg).versions() && vs[es.len() as int]
                == reg.versions());
            assert forall|j: int| 0 <= j < es.len() implies issued(#[trigger] vs[j], vs[j + 1], es[j]) by {
                assert(es[j] == out@[j].0);
            }
        }
        out
    }
}

} // verus!
