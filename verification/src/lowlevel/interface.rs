//! The graph-store capability.
//!
//! The three operations `add`, `add_action` and `add_statement` are the
//! whole surface needed to drive or observe ingestion; any backing store
//! conforms by implementing them with this contract, the before-storage
//! ordering included.

use vstd::prelude::*;

use crate::lowlevel::Event;
use crate::lowlevel::GraphView;
use crate::lowlevel::Statement;
use crate::lowlevel::TermV;
use crate::lowlevel::Triple;
use crate::lowlevel::TripleAction;
use crate::lowlevel::add_events;
use crate::lowlevel::backfill_events;
use crate::lowlevel::triple_of_statement;

verus! {

/// A collection of triples: the capability needed to drive or observe
/// ingestion. Storage is append-only, in insertion order; registered actions
/// are notified of every insertion, in registration order, before the triple
/// is stored. The ghost `events` sequence records every action invocation the
/// store has performed.
pub trait Graph<'t>: GraphView {
    /// The number of registered actions.
    spec fn actions_count(&self) -> nat;

    /// The log of action invocations performed so far, in the order they ran.
    spec fn events(&self) -> Seq<Event>;

    /// The graph this store represents: `None` is the default graph.
    spec fn graph_label(&self) -> Option<TermV>;

    /// Add an action to be run on each triple to the graph.
    ///
    /// If `run_on_existing` is `true`, then the action will be run once per
    /// triple currently contained in the graph, in storage order, before it
    /// is appended to the action list; the already-registered actions do not
    /// run again.
    fn add_action(&mut self, action: Box<dyn TripleAction>, run_on_existing: bool)
        ensures
            final(self).triples_view() == old(self).triples_view(),
            final(self).actions_count() == old(self).actions_count() + 1,
            final(self).graph_label() == old(self).graph_label(),
            final(self).events() == old(self).events() + (if run_on_existing {
                backfill_events(old(self).actions_count(), old(self).triples_view())
            } else {
                Seq::<Event>::empty()
            }),
    ;

    /// Add a triple to the graph.
    ///
    /// Every currently registered action is run first, in registration order,
    /// each handed the triple and a view of the store that does not yet hold
    /// it; afterwards the triple is appended to storage.
    fn add(&mut self, triple: Triple<'t>)
        ensures
            final(self).triples_view() == old(self).triples_view().push(triple@),
            final(self).actions_count() == old(self).actions_count(),
            final(self).graph_label() == old(self).graph_label(),
            final(self).events() == old(self).events() + add_events(
                old(self).actions_count(),
                triple@,
                old(self).triples_view(),
            ),
    ;

    /// Add a statement to the graph.
    ///
    /// The statement's triple part is added as by [`Graph::add`]. A statement
    /// may only be added to the store of the graph it belongs to, so the
    /// statement's own graph label must match the store's.
    fn add_statement(&mut self, statement: Statement<'t>)
        requires
            statement@.graph == old(self).graph_label(),
        ensures
            final(self).triples_view() == old(self).triples_view().push(
                triple_of_statement(statement@),
            ),
            final(self).actions_count() == old(self).actions_count(),
            final(self).graph_label() == old(self).graph_label(),
            final(self).events() == old(self).events() + add_events(
                old(self).actions_count(),
                triple_of_statement(statement@),
                old(self).triples_view(),
            ),
    {
        self.add(Triple {
            subject: statement.subject,
            predicate: statement.predicate,
            object: statement.object,
        });
    }
}

} // verus!
