//! Memory-backed Low-Level Graph
//!
//! An in-memory conformer of the [`Graph`] capability: triples in a vector,
//! actions in a vector, and the ghost invocation log beside them.

use vstd::prelude::*;

use crate::lowlevel::Event;
use crate::lowlevel::interface::Graph;
use crate::lowlevel::GraphView;
use crate::lowlevel::Triple;
use crate::lowlevel::TripleAction;
use crate::lowlevel::TripleV;
use crate::lowlevel::add_events;
use crate::lowlevel::backfill_events;

verus! {

/// Memory-backed [`Graph`] implementation. It represents the default graph.
pub struct MemoryGraph<'t> {
    triples: Vec<Triple<'t>>,
    actions: Vec<Box<dyn TripleAction>>,
    events: Ghost<Seq<Event>>,
}

impl<'t> MemoryGraph<'t> {
    /// Create a new, empty graph: no triples, no actions, and no action has
    /// run.
    pub fn new() -> (g: Self)
        ensures
            g.triples_view() == Seq::<TripleV>::empty(),
            g.actions_count() == 0,
            g.events() == Seq::<Event>::empty(),
            g.graph_label() is None,
    {
        let g = MemoryGraph { triples: Vec::new(), actions: Vec::new(), events: Ghost(Seq::empty()) };
        proof {
            assert(g.triples_view() =~= Seq::<TripleV>::empty());
        }
        g
    }

    /// The number of registered actions.
    pub fn action_count(&self) -> (n: usize)
        ensures
            n == self.actions_count(),
    {
        self.actions.len()
    }
}

impl<'t> GraphView for MemoryGraph<'t> {
    closed spec fn triples_view(&self) -> Seq<TripleV> {
        self.triples@.map_values(|t: Triple<'t>| t@)
    }

    fn triple_count(&self) -> (n: usize) {
        self.triples.len()
    }
}

impl<'t> Graph<'t> for MemoryGraph<'t> {
    closed spec fn actions_count(&self) -> nat {
        self.actions@.len()
    }

    closed spec fn events(&self) -> Seq<Event> {
        self.events@
    }

    closed spec fn graph_label(&self) -> Option<crate::lowlevel::TermV> {
        None
    }

    fn add_action(&mut self, action: Box<dyn TripleAction>, run_on_existing: bool) {
        let ghost stored = self.triples_view();
        let ghost a = self.actions@.len() as nat;
        if run_on_existing {
            let n = self.triples.len();
            let mut i: usize = 0;
            while i < n
                invariant
                    i <= n,
                    n == self.triples@.len(),
                    self.triples == old(self).triples,
                    self.actions == old(self).actions,
                    stored == old(self).triples_view(),
                    a == old(self).actions@.len(),
                    self.events@ == old(self).events@ + backfill_events(a, stored).take(i as int),
                decreases n - i,
            {
                action.run(&self.triples[i], &*self);
                proof {
                    self.events@ = self.events@.push(
                        Event { action: a, triple: self.triples@[i as int]@, seen: stored },
                    );
                    assert(backfill_events(a, stored).take(i + 1) =~= backfill_events(
                        a,
                        stored,
                    ).take(i as int).push(Event { action: a, triple: stored[i as int], seen: stored }));
                    assert(self.events@ =~= old(self).events@ + backfill_events(a, stored).take(
                        i + 1,
                    ));
                }
                i = i + 1;
            }
            proof {
                assert(backfill_events(a, stored).take(n as int) =~= backfill_events(a, stored));
            }
        } else {
            proof {
                assert(self.events@ =~= old(self).events@ + Seq::<Event>::empty());
            }
        }
        let ghost before = self.actions@;
        self.actions.push(action);
        proof {
            // the sequence axioms do not instantiate themselves at a `dyn` element type
            vstd::seq::axiom_seq_push_len::<Box<dyn TripleAction>>(before, action);
            assert(self.triples_view() =~= old(self).triples_view());
        }
    }

    fn add(&mut self, triple: Triple<'t>) {
        let ghost seen = self.triples_view();
        let n = self.actions.len();
        let mut i: usize = 0;
        while i < n
            invariant
                i <= n,
                n == self.actions@.len(),
                self.triples == old(self).triples,
                self.actions == old(self).actions,
                seen == old(self).triples_view(),
                self.events@ == old(self).events@ + add_events(i as nat, triple@, seen),
            decreases n - i,
        {
            self.actions[i].run(&triple, &*self);
            proof {
                self.events@ = self.events@.push(
                    Event { action: i as nat, triple: triple@, seen },
                );
                assert(add_events((i + 1) as nat, triple@, seen) =~= add_events(
                    i as nat,
                    triple@,
                    seen,
                ).push(Event { action: i as nat, triple: triple@, seen }));
                assert(self.events@ =~= old(self).events@ + add_events((i + 1) as nat, triple@, seen));
            }
            i = i + 1;
        }
        proof {
            assert(self.triples_view().push(triple@) =~= self.triples@.push(triple).map_values(
                |t: Triple<'t>| t@,
            ));
        }
        self.triples.push(triple);
    }
}

} // verus!
