use std::cell::Cell;
use std::cell::RefCell;
use std::rc::Rc;

use rdfio::lowlevel::Graph;
use rdfio::lowlevel::GraphView;
use rdfio::lowlevel::interface::Graph as GraphCapability;
use rdfio::lowlevel::Statement;
use rdfio::lowlevel::Term;
use rdfio::lowlevel::Triple;
use rdfio::lowlevel::TripleAction;
use rdfio::lowlevel::memory::MemoryGraph;

struct CountingTripleAction {
    pub count: Rc<Cell<i32>>,
}

impl TripleAction for CountingTripleAction {
    fn run<'t>(&self, _triple: &Triple<'t>, _graph: &dyn GraphView) {
        self.count.set(self.count.get() + 1);
    }
}

/// Records the stored-triple count the action observes at each invocation.
struct CountObservingAction {
    pub seen: Rc<RefCell<Vec<usize>>>,
}

impl TripleAction for CountObservingAction {
    fn run<'t>(&self, _triple: &Triple<'t>, graph: &dyn GraphView) {
        self.seen.borrow_mut().push(graph.triple_count());
    }
}

/// Appends its tag to a shared log at each invocation.
struct TagAction {
    pub tag: &'static str,
    pub log: Rc<RefCell<Vec<&'static str>>>,
}

impl TripleAction for TagAction {
    fn run<'t>(&self, _triple: &Triple<'t>, _graph: &dyn GraphView) {
        self.log.borrow_mut().push(self.tag);
    }
}

/// Records the subject IRI of each triple it is invoked on.
struct SubjectRecordingAction {
    pub log: Rc<RefCell<Vec<String>>>,
}

impl TripleAction for SubjectRecordingAction {
    fn run<'t>(&self, triple: &Triple<'t>, _graph: &dyn GraphView) {
        if let Term::NamedNode { value } = triple.subject {
            self.log.borrow_mut().push(String::from(value));
        }
    }
}

fn abc_triple() -> Triple<'static> {
    Triple {
        subject: Term::NamedNode { value: "a" },
        predicate: Term::NamedNode { value: "b" },
        object: Term::NamedNode { value: "c" },
    }
}

#[test]
fn lowlevel_create_graph() {
    let g = Graph::new();
    assert!(g.triple_count() == 0);
    assert!(g.action_count() == 0);
}

#[test]
fn lowlevel_add_triple() {
    let mut g = Graph::new();
    g.add(abc_triple());
    assert_eq!(g.triple_count(), 1);
}

#[test]
fn lowlevel_run_action_on_add_triple() {
    let count = Rc::new(Cell::<i32>::new(0));
    let mut g = Graph::new();
    let a = Box::new(CountingTripleAction { count: count.clone() });
    g.add_action(a, false);
    g.add(abc_triple());
    assert_eq!(count.get(), 1);
}

#[test]
fn lowlevel_run_action_on_add_action() {
    let count = Rc::new(Cell::<i32>::new(0));
    let mut g = Graph::new();
    g.add(abc_triple());
    let a = Box::new(CountingTripleAction { count: count.clone() });
    g.add_action(a, true);
    assert_eq!(count.get(), 1);
    g.add(Triple {
        subject: Term::NamedNode { value: "d" },
        predicate: Term::NamedNode { value: "e" },
        object: Term::NamedNode { value: "f" },
    });
    assert_eq!(count.get(), 2);
}

#[test]
fn memory_create_graph() {
    let g = MemoryGraph::new();
    assert!(g.triple_count() == 0);
    assert!(g.action_count() == 0);
}

#[test]
fn memory_add_triple() {
    let mut g = MemoryGraph::new();
    g.add(abc_triple());
    assert_eq!(g.triple_count(), 1);
}

#[test]
fn memory_run_action_on_add_triple() {
    let count = Rc::new(Cell::<i32>::new(0));
    let mut g = MemoryGraph::new();
    let a = Box::new(CountingTripleAction { count: count.clone() });
    g.add_action(a, false);
    g.add(abc_triple());
    assert_eq!(count.get(), 1);
}

#[test]
fn memory_run_action_on_add_action() {
    let count = Rc::new(Cell::<i32>::new(0));
    let mut g = MemoryGraph::new();
    g.add(abc_triple());
    let a = Box::new(CountingTripleAction { count: count.clone() });
    g.add_action(a, true);
    assert_eq!(count.get(), 1);
    g.add(Triple {
        subject: Term::NamedNode { value: "d" },
        predicate: Term::NamedNode { value: "e" },
        object: Term::NamedNode { value: "f" },
    });
    assert_eq!(count.get(), 2);
}

#[test]
fn actions_run_in_registration_order() {
    let log = Rc::new(RefCell::new(Vec::new()));
    let mut g = MemoryGraph::new();
    g.add_action(Box::new(TagAction { tag: "first", log: log.clone() }), false);
    g.add_action(Box::new(TagAction { tag: "second", log: log.clone() }), false);
    g.add(abc_triple());
    assert_eq!(*log.borrow(), vec!["first", "second"]);
    g.add(abc_triple());
    assert_eq!(*log.borrow(), vec!["first", "second", "first", "second"]);
}

#[test]
fn run_on_existing_backfills_in_storage_order() {
    let log = Rc::new(RefCell::new(Vec::new()));
    let mut g = MemoryGraph::new();
    g.add(Triple {
        subject: Term::NamedNode { value: "t1" },
        predicate: Term::NamedNode { value: "p" },
        object: Term::NamedNode { value: "o" },
    });
    g.add(Triple {
        subject: Term::NamedNode { value: "t2" },
        predicate: Term::NamedNode { value: "p" },
        object: Term::NamedNode { value: "o" },
    });
    g.add_action(Box::new(SubjectRecordingAction { log: log.clone() }), true);
    assert_eq!(*log.borrow(), vec![String::from("t1"), String::from("t2")]);
    g.add(Triple {
        subject: Term::NamedNode { value: "t3" },
        predicate: Term::NamedNode { value: "p" },
        object: Term::NamedNode { value: "o" },
    });
    assert_eq!(
        *log.borrow(),
        vec![String::from("t1"), String::from("t2"), String::from("t3")]
    );
}

#[test]
fn action_observes_count_before_storage() {
    let seen = Rc::new(RefCell::new(Vec::new()));
    let mut g = MemoryGraph::new();
    g.add_action(Box::new(CountObservingAction { seen: seen.clone() }), false);
    g.add(abc_triple());
    g.add(abc_triple());
    assert_eq!(g.triple_count(), 2);
    assert_eq!(*seen.borrow(), vec![0, 1]);
}

#[test]
fn add_statement_adds_triple_part() {
    let mut g = MemoryGraph::new();
    g.add_statement(Statement {
        subject: Term::NamedNode { value: "a" },
        predicate: Term::NamedNode { value: "b" },
        object: Term::NamedNode { value: "c" },
        graph: None,
    });
    assert_eq!(g.triple_count(), 1);
}
