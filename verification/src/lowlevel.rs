//! Low Level RDF Interface
//!
//! The term model (`Term`, `Triple`, `Statement`), the observer capability
//! ([`TripleAction`]), a concrete in-memory store ([`Graph`]), and the
//! store capability any backing can conform to ([`interface::Graph`]),
//! together with the mathematical model the contracts speak of: every store
//! keeps a ghost log of action invocations, so that the order in which
//! actions run, and the store contents each invocation could observe, are
//! part of each method's postcondition.

pub mod interface;
pub mod memory;

use vstd::prelude::*;

verus! {

/// An RDF Term
///
/// A literal carries at most one of a language tag and a datatype IRI,
/// never both; see [`term_wf`]. The text inside a term borrows from the
/// buffer the term was parsed from.
#[allow(missing_docs)]
#[derive(Debug, PartialEq)]
pub enum Term<'t> {
    NamedNode { value: &'t str },
    BlankNode { value: &'t str },
    Literal { value: &'t str, language: Option<&'t str>, datatype: Option<&'t str> },
}

/// The mathematical model of a [`Term`]: the same shape over character
/// sequences.
#[allow(missing_docs)]
pub ghost enum TermV {
    NamedNode { value: Seq<char> },
    BlankNode { value: Seq<char> },
    Literal { value: Seq<char>, language: Option<Seq<char>>, datatype: Option<Seq<char>> },
}

impl<'t> View for Term<'t> {
    type V = TermV;

    open spec fn view(&self) -> TermV {
        match self {
            Term::NamedNode { value } => TermV::NamedNode { value: value@ },
            Term::BlankNode { value } => TermV::BlankNode { value: value@ },
            Term::Literal { value, language, datatype } => TermV::Literal {
                value: value@,
                language: match language {
                    Some(l) => Some(l@),
                    None => None,
                },
                datatype: match datatype {
                    Some(d) => Some(d@),
                    None => None,
                },
            },
        }
    }
}

impl<'t> DeepView for Term<'t> {
    type V = TermV;

    open spec fn deep_view(&self) -> TermV {
        self.view()
    }
}

/// Well-formedness of a term: a literal never carries both a language tag
/// and a datatype IRI.
pub open spec fn term_wf(t: TermV) -> bool {
    match t {
        TermV::Literal { language, datatype, .. } => !(language is Some && datatype is Some),
        _ => true,
    }
}

/// An RDF Triple
///
/// Lifetime parameter `'t` controls the lifetime of the text data stored
/// within the terms, so that a reader need not copy text out of the buffer
/// it parses.
#[allow(missing_docs)]
#[derive(Debug, PartialEq)]
pub struct Triple<'t> {
    pub subject: Term<'t>,
    pub predicate: Term<'t>,
    pub object: Term<'t>,
}

/// The mathematical model of a [`Triple`].
#[allow(missing_docs)]
pub ghost struct TripleV {
    pub subject: TermV,
    pub predicate: TermV,
    pub object: TermV,
}

impl<'t> View for Triple<'t> {
    type V = TripleV;

    open spec fn view(&self) -> TripleV {
        TripleV { subject: self.subject@, predicate: self.predicate@, object: self.object@ }
    }
}

impl<'t> DeepView for Triple<'t> {
    type V = TripleV;

    open spec fn deep_view(&self) -> TripleV {
        self.view()
    }
}

/// Well-formedness of a triple: the terms are well formed and the predicate
/// is a named node. The grammar layer establishes this; the type itself does
/// not force it.
pub open spec fn triple_wf(t: TripleV) -> bool {
    &&& term_wf(t.subject)
    &&& term_wf(t.predicate)
    &&& term_wf(t.object)
    &&& t.predicate is NamedNode
}

/// An RDF Statement
///
/// A statement differs from a [`Triple`] in that it contains an additional
/// member to refer to the graph to which it belongs (`None` is the default
/// graph).
#[allow(missing_docs)]
#[derive(Debug, PartialEq)]
pub struct Statement<'t> {
    pub subject: Term<'t>,
    pub predicate: Term<'t>,
    pub object: Term<'t>,
    pub graph: Option<Term<'t>>,
}

/// The mathematical model of a [`Statement`].
#[allow(missing_docs)]
pub ghost struct StatementV {
    pub subject: TermV,
    pub predicate: TermV,
    pub object: TermV,
    pub graph: Option<TermV>,
}

impl<'t> View for Statement<'t> {
    type V = StatementV;

    open spec fn view(&self) -> StatementV {
        StatementV {
            subject: self.subject@,
            predicate: self.predicate@,
            object: self.object@,
            graph: match self.graph {
                Some(g) => Some(g@),
                None => None,
            },
        }
    }
}

/// The triple part of a statement: the statement without its graph label.
pub open spec fn triple_of_statement(s: StatementV) -> TripleV {
    TripleV { subject: s.subject, predicate: s.predicate, object: s.object }
}

/// One recorded invocation of a registered action: which action ran (by its
/// registration index), the triple it was handed, and the triples stored in
/// the graph at the moment it was called.
#[allow(missing_docs)]
pub ghost struct Event {
    pub action: nat,
    pub triple: TripleV,
    pub seen: Seq<TripleV>,
}

/// The invocations that adding one triple to a store with `actions` registered
/// actions performs: each action once, in registration order, each handed the
/// new triple and observing the triples stored before the addition.
pub open spec fn add_events(actions: nat, triple: TripleV, seen: Seq<TripleV>) -> Seq<Event> {
    Seq::new(actions, |i: int| Event { action: i as nat, triple, seen })
}

/// The invocations that registering one action with `run_on_existing` set
/// performs: the new action (registration index `action`) once per stored
/// triple, in storage order, each observing the full store.
pub open spec fn backfill_events(action: nat, stored: Seq<TripleV>) -> Seq<Event> {
    Seq::new(stored.len(), |i: int| Event { action, triple: stored[i], seen: stored })
}

/// Read capability over a graph: what a registered action may observe while
/// it runs. It carries no way to mutate the store, so an action cannot
/// re-enter `add` or `add_action`.
pub trait GraphView {
    /// The triples the store holds, in storage order.
    spec fn triples_view(&self) -> Seq<TripleV>;

    /// The number of stored triples.
    fn triple_count(&self) -> (n: usize)
        ensures
            n == self.triples_view().len(),
    ;
}

/// A trait that can be implemented to provide a way to run an action
/// whenever a triple is added to a graph.
pub trait TripleAction {
    /// The method to run when a triple is added to a graph. It receives the
    /// triple being added and a read view of the graph; the store the view
    /// shows does not yet contain the triple.
    fn run<'t>(&self, triple: &Triple<'t>, graph: &dyn GraphView);
}

/// A collection of triples: a concrete, in-memory store. Storage is
/// append-only, in insertion order; registered actions are notified of every
/// insertion, in registration order, before the triple is stored. The ghost
/// `events` sequence records every action invocation the store has
/// performed. The [`interface::Graph`] capability states the same contract
/// for any conforming store.
pub struct Graph<'t> {
    triples: Vec<Triple<'t>>,
    actions: Vec<Box<dyn TripleAction>>,
    events: Ghost<Seq<Event>>,
}

impl<'t> GraphView for Graph<'t> {
    closed spec fn triples_view(&self) -> Seq<TripleV> {
        self.triples@.map_values(|t: Triple<'t>| t@)
    }

    fn triple_count(&self) -> (n: usize) {
        self.triples.len()
    }
}

impl<'t> Graph<'t> {
    /// The number of registered actions.
    pub closed spec fn actions_count(&self) -> nat {
        self.actions@.len()
    }

    /// The log of action invocations performed so far, in the order they
    /// ran.
    pub closed spec fn events(&self) -> Seq<Event> {
        self.events@
    }

    /// Create a new, empty graph: no triples, no actions, and no action has
    /// run.
    pub fn new() -> (g: Self)
        ensures
            g.triples_view() == Seq::<TripleV>::empty(),
            g.actions_count() == 0,
            g.events() == Seq::<Event>::empty(),
    {
        let g = Graph { triples: Vec::new(), actions: Vec::new(), events: Ghost(Seq::empty()) };
        proof {
            assert(g.triples_view() =~= Seq::<TripleV>::empty());
        }
        g
    }

    /// The number of registered actions.
    pub fn action_count(&self) -> (n: usize)
        ensures
            n == self.actions_count(),
    {
        self.actions.len()
    }

    /// Add an action to be run on each triple to the graph.
    ///
    /// If `run_on_existing` is `true`, then the action will be run once per
    /// triple currently contained in the graph, in storage order, before it
    /// is appended to the action list; the already-registered actions do not
    /// run again.
    pub fn add_action(&mut self, action: Box<dyn TripleAction>, run_on_existing: bool)
        ensures
            final(self).triples_view() == old(self).triples_view(),
            final(self).actions_count() == old(self).actions_count() + 1,
            final(self).events() == old(self).events() + (if run_on_existing {
                backfill_events(old(self).actions_count(), old(self).triples_view())
            } else {
                Seq::<Event>::empty()
            }),
    {
        let ghost stored = self.triples_view();
        let ghost a = self.actions@.len() as nat;
        if run_on_existing {
            let n = self.triples.len();
            let mut i: usize = 0;
            while i < n
                invariant
                    i <= n,
                    n == self.triples@.len(),
                    self.triples == old(self).triples,
                    self.actions == old(self).actions,
                    stored == old(self).triples_view(),
                    a == old(self).actions@.len(),
                    self.events@ == old(self).events@ + backfill_events(a, stored).take(i as int),
                decreases n - i,
            {
                action.run(&self.triples[i], &*self);
                proof {
                    self.events@ = self.events@.push(
                        Event { action: a, triple: self.triples@[i as int]@, seen: stored },
                    );
                    assert(backfill_events(a, stored).take(i + 1) =~= backfill_events(
                        a,
                        stored,
                    ).take(i as int).push(Event { action: a, triple: stored[i as int], seen: stored }));
                    assert(self.events@ =~= old(self).events@ + backfill_events(a, stored).take(
                        i + 1,
                    ));
                }
                i = i + 1;
            }
            proof {
                assert(backfill_events(a, stored).take(n as int) =~= backfill_events(a, stored));
            }
        } else {
            proof {
                assert(self.events@ =~= old(self).events@ + Seq::<Event>::empty());
            }
        }
        let ghost before = self.actions@;
        self.actions.push(action);
        proof {
            // the sequence axioms do not instantiate themselves at a `dyn` element type
            vstd::seq::axiom_seq_push_len::<Box<dyn TripleAction>>(before, action);
            assert(self.triples_view() =~= old(self).triples_view());
        }
    }

    /// Add a triple to the graph.
    ///
    /// Every currently registered action is run first, in registration
    /// order, each handed the triple and a view of the store that does not
    /// yet hold it; afterwards the triple is appended to storage.
    pub fn add(&mut self, triple: Triple<'t>)
        ensures
            final(self).triples_view() == old(self).triples_view().push(triple@),
            final(self).actions_count() == old(self).actions_count(),
            final(self).events() == old(self).events() + add_events(
                old(self).actions_count(),
                triple@,
                old(self).triples_view(),
            ),
    {
        let ghost seen = self.triples_view();
        let n = self.actions.len();
        let mut i: usize = 0;
        while i < n
            invariant
                i <= n,
                n == self.actions@.len(),
                self.triples == old(self).triples,
                self.actions == old(self).actions,
                seen == old(self).triples_view(),
                self.events@ == old(self).events@ + add_events(i as nat, triple@, seen),
            decreases n - i,
        {
            self.actions[i].run(&triple, &*self);
            proof {
                self.events@ = self.events@.push(
                    Event { action: i as nat, triple: triple@, seen },
                );
                assert(add_events((i + 1) as nat, triple@, seen) =~= add_events(
                    i as nat,
                    triple@,
                    seen,
                ).push(Event { action: i as nat, triple: triple@, seen }));
                assert(self.events@ =~= old(self).events@ + add_events((i + 1) as nat, triple@, seen));
            }
            i = i + 1;
        }
        proof {
            assert(self.triples_view().push(triple@) =~= self.triples@.push(triple).map_values(
                |t: Triple<'t>| t@,
            ));
        }
        self.triples.push(triple);
    }
}

/// Law: adding a triple to a store with `actions` registered actions invokes
/// each of them exactly once, in registration order — the action registered
/// first runs first — and invokes nothing else.
pub proof fn lemma_add_runs_actions_in_order(actions: nat, triple: TripleV, seen: Seq<TripleV>)
    ensures
        add_events(actions, triple, seen).len() == actions,
        forall|i: int| 0 <= i < actions ==> #[trigger] add_events(actions, triple, seen)[i]
            == (Event { action: i as nat, triple, seen }),
{
}

/// Law: with exactly two actions registered, first A (index 0) then B
/// (index 1), adding a triple invokes A then B and never a third.
pub proof fn lemma_add_two_actions(triple: TripleV, seen: Seq<TripleV>)
    ensures
        add_events(2, triple, seen) == seq![
            (Event { action: 0, triple, seen }),
            (Event { action: 1, triple, seen }),
        ],
{
    assert(add_events(2, triple, seen) =~= seq![
        (Event { action: 0, triple, seen }),
        (Event { action: 1, triple, seen }),
    ]);
}

/// Law: registering an action with `run_on_existing` set on a store holding
/// exactly `[t1, t2]` invokes the new action on `t1` and then on `t2`,
/// exactly once each; the invocations carry the new action's registration
/// index only, so no other action runs.
pub proof fn lemma_backfill_two(action: nat, t1: TripleV, t2: TripleV)
    ensures
        backfill_events(action, seq![t1, t2]) == seq![
            (Event { action, triple: t1, seen: seq![t1, t2] }),
            (Event { action, triple: t2, seen: seq![t1, t2] }),
        ],
{
    assert(backfill_events(action, seq![t1, t2]) =~= seq![
        (Event { action, triple: t1, seen: seq![t1, t2] }),
        (Event { action, triple: t2, seen: seq![t1, t2] }),
    ]);
}

/// Law: during an `add`, every action invocation observes the triples stored
/// before the call — the store an action sees is exactly the old contents,
/// so its count is not yet incremented for the triple being added.
pub proof fn lemma_action_observes_prior_count(actions: nat, triple: TripleV, seen: Seq<TripleV>)
    ensures
        forall|i: int| 0 <= i < actions ==> #[trigger] add_events(actions, triple, seen)[i].seen
            == seen,
        forall|i: int| 0 <= i < actions ==> #[trigger] add_events(
            actions,
            triple,
            seen,
        )[i].seen.len() == seen.len(),
{
}

} // verus!
