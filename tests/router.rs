use std::cell::RefCell;
use std::rc::Rc;

use tcge::comp::Component;
use tcge::event::{Event, EventPhase, EventWrapper, Gates};
use tcge::lens::{Handler, Lens, LensState};
use tcge::node::Nodes;
use tcge::router::{Delivery, Router};

type Log = Rc<RefCell<Vec<String>>>;

fn new_log() -> Log {
    Rc::new(RefCell::new(Vec::new()))
}

fn entries(log: &Log) -> Vec<String> {
    log.borrow().clone()
}

struct Ping {
    passive: bool,
    name: &'static str,
}

impl Event for Ping {
    fn passive(&self) -> bool {
        self.passive
    }

    fn is_passive(&self) -> bool {
        self.passive
    }
}

fn active(name: &'static str) -> Ping {
    Ping { passive: false, name }
}

fn passive(name: &'static str) -> Ping {
    Ping { passive: true, name }
}

/// A component that writes each hook it sees to a shared log, and closes
/// gates when told to.
struct Probe {
    kind: u64,
    tag: String,
    log: Log,
    stop_propagation: bool,
    stop_bubbling: bool,
    stop_bubbling_back: bool,
    prevent_default: bool,
    events: u32,
}

impl Probe {
    fn new(kind: u64, tag: &str, log: &Log) -> Probe {
        Probe {
            kind,
            tag: tag.to_string(),
            log: log.clone(),
            stop_propagation: false,
            stop_bubbling: false,
            stop_bubbling_back: false,
            prevent_default: false,
            events: 0,
        }
    }
}

impl Component for Probe {
    type Ev = Ping;

    fn kind_of(&self) -> u64 {
        self.kind
    }

    fn kind(&self) -> u64 {
        self.kind
    }

    fn get_type_name(&self) -> &'static str {
        "Probe"
    }

    fn on_attachment(&mut self, node_id: usize) {
        self.log.borrow_mut().push(format!("attach {} @{}", self.tag, node_id));
    }

    fn on_detachment(&mut self, node_id: usize) {
        self.log.borrow_mut().push(format!("detach {} @{}", self.tag, node_id));
    }

    fn on_load(&mut self) {}

    fn on_unload(&mut self) {}

    fn on_event(&mut self, event: &mut EventWrapper<Ping>) {
        self.events += 1;
        let phase = match event.phase() {
            EventPhase::Creation => "C",
            EventPhase::Propagation => "P",
            EventPhase::Action => "A",
            EventPhase::Bubbling => "B",
        };
        self.log
            .borrow_mut()
            .push(format!("{} {} {}", phase, self.tag, event.event().name));
        if event.phase() == EventPhase::Propagation {
            if self.stop_propagation {
                event.stop_propagation();
            }
            if self.prevent_default {
                event.prevent_default();
            }
            if self.stop_bubbling {
                event.stop_bubbling();
            }
        }
        if event.phase() == EventPhase::Bubbling && self.stop_bubbling_back {
            event.stop_bubbling();
        }
    }
}

/// A handler that always proposes the same state and logs each call.
struct Fixed {
    next: LensState,
    calls: u32,
    log: Log,
    stop_bubbling: bool,
}

impl Handler<Ping> for Fixed {
    fn proposal(&self, _event: EventWrapper<Ping>, _lens: Lens) -> LensState {
        self.next
    }

    fn on_event(&mut self, event: &mut EventWrapper<Ping>, lens: &Lens) -> LensState {
        self.calls += 1;
        self.log
            .borrow_mut()
            .push(format!("A {} {}", lens.name, event.event().name));
        if self.stop_bubbling {
            event.stop_bubbling();
        }
        self.next
    }
}

fn fixed(next: LensState, log: &Log) -> Fixed {
    Fixed { next, calls: 0, log: log.clone(), stop_bubbling: false }
}

/// Nodes 0, 1, 2 in a chain (0 is the root), each with one probe of kind 1.
fn chain(log: &Log) -> Router<Probe, Fixed> {
    let mut r: Router<Probe, Fixed> = Router::new();
    let a = r.nodes.add_node(None).unwrap();
    let b = r.nodes.add_node(Some(a)).unwrap();
    let c = r.nodes.add_node(Some(b)).unwrap();
    assert!(r.nodes.set_node_component(a, Probe::new(1, "A", log)));
    assert!(r.nodes.set_node_component(b, Probe::new(1, "B", log)));
    assert!(r.nodes.set_node_component(c, Probe::new(1, "C", log)));
    log.borrow_mut().clear();
    r
}

fn nodes_of(visits: &[tcge::router::Visit]) -> Vec<usize> {
    visits.iter().map(|v| v.node).collect()
}

fn state_of(r: &Router<Probe, Fixed>, id: usize) -> LensState {
    r.lenses.lens(id).unwrap().state
}

#[test]
fn lookup_on_bare_node_is_none() {
    let mut nodes: Nodes<Probe> = Nodes::new();
    let n = nodes.add_node(None).unwrap();
    assert!(nodes.get_node_component(n, 0).is_none());
    assert!(nodes.get_node_component(n, 7).is_none());
    assert!(nodes.get_node_component(n + 1, 7).is_none());
}

#[test]
fn lookup_ascends_past_nodes_without_components() {
    let log = new_log();
    let mut nodes: Nodes<Probe> = Nodes::new();
    let root = nodes.add_node(None).unwrap();
    let mid = nodes.add_node(Some(root)).unwrap();
    let leaf = nodes.add_node(Some(mid)).unwrap();
    assert!(nodes.set_node_component(root, Probe::new(3, "root", &log)));
    assert_eq!(nodes.get_node_component(leaf, 3).unwrap().tag, "root");
    assert_eq!(nodes.get_node_parent_id(leaf), Some(mid));
    assert_eq!(nodes.get_node_parent_id(root), None);
}

#[test]
fn lookup_stops_at_node_holding_other_kinds() {
    let log = new_log();
    let mut nodes: Nodes<Probe> = Nodes::new();
    let root = nodes.add_node(None).unwrap();
    let leaf = nodes.add_node(Some(root)).unwrap();
    assert!(nodes.set_node_component(root, Probe::new(3, "root", &log)));
    assert!(nodes.set_node_component(leaf, Probe::new(4, "leaf", &log)));
    assert!(nodes.get_node_component(leaf, 3).is_none());
    assert_eq!(nodes.get_node_component(leaf, 4).unwrap().tag, "leaf");
}

#[test]
fn add_node_with_unknown_parent_fails() {
    let mut nodes: Nodes<Probe> = Nodes::new();
    assert_eq!(nodes.add_node(Some(0)), None);
    assert_eq!(nodes.add_node(None), Some(0));
    assert_eq!(nodes.add_node(Some(0)), Some(1));
    assert_eq!(nodes.add_node(Some(5)), None);
    assert_eq!(nodes.node_count(), 2);
}

#[test]
fn attach_to_unknown_node_fails() {
    let log = new_log();
    let mut nodes: Nodes<Probe> = Nodes::new();
    assert!(!nodes.set_node_component(0, Probe::new(1, "x", &log)));
    assert!(entries(&log).is_empty());
}

#[test]
fn attach_twice_detaches_first_once_before_second_attaches() {
    let log = new_log();
    let mut nodes: Nodes<Probe> = Nodes::new();
    let n = nodes.add_node(None).unwrap();
    assert!(nodes.set_node_component(n, Probe::new(1, "first", &log)));
    assert!(nodes.set_node_component(n, Probe::new(1, "second", &log)));
    assert_eq!(
        entries(&log),
        vec!["attach first @0", "detach first @0", "attach second @0"]
    );
    assert_eq!(nodes.get_node_component(n, 1).unwrap().tag, "second");
}

#[test]
fn attach_then_get_returns_value() {
    let log = new_log();
    let mut nodes: Nodes<Probe> = Nodes::new();
    let n = nodes.add_node(None).unwrap();
    assert!(nodes.set_node_component(n, Probe::new(9, "v1", &log)));
    let got = nodes.get_node_component(n, 9).unwrap();
    assert_eq!(got.tag, "v1");
    assert_eq!(got.kind, 9);
}

#[test]
fn attach_other_kind_keeps_first() {
    let log = new_log();
    let mut nodes: Nodes<Probe> = Nodes::new();
    let n = nodes.add_node(None).unwrap();
    assert!(nodes.set_node_component(n, Probe::new(1, "one", &log)));
    assert!(nodes.set_node_component(n, Probe::new(2, "two", &log)));
    assert_eq!(nodes.get_node_component(n, 1).unwrap().tag, "one");
    assert_eq!(nodes.get_node_component(n, 2).unwrap().tag, "two");
    assert_eq!(entries(&log), vec!["attach one @0", "attach two @0"]);
}

#[test]
fn wrapper_gates_only_close() {
    let mut w = EventWrapper::new(active("e"));
    assert_eq!(w.phase(), EventPhase::Creation);
    assert_eq!(
        w.current_gates(),
        Gates { propagate: true, default: true, bubble: true }
    );
    w.stop_propagation();
    assert!(!w.can_propagate() && w.can_default() && w.can_bubble());
    w.prevent_default();
    assert!(!w.can_default() && w.can_bubble());
    w.stop_bubbling();
    assert!(!w.can_bubble());
    w.stop_bubbling();
    assert!(!w.can_bubble());
    assert_eq!(w.into_event().name, "e");
}

#[test]
fn unknown_lens_is_noop() {
    let log = new_log();
    let mut r = chain(&log);
    r.lenses.new_lens("x", vec![0, 1, 2], fixed(LensState::Busy(1), &log));
    assert!(r.fire_event_at_lens("y", active("e")).is_none());
    assert!(r.fire_event_at_lens_id(3, active("e")).is_none());
    assert!(entries(&log).is_empty());
    assert_eq!(state_of(&r, 0), LensState::Idle);
}

#[test]
fn empty_path_is_noop() {
    let log = new_log();
    let mut r = chain(&log);
    let id = r.lenses.new_lens("x", vec![], fixed(LensState::Busy(1), &log));
    assert!(r.fire_event_at_lens("x", passive("e")).is_none());
    assert!(r.fire_event_at_lens("x", active("e")).is_none());
    assert!(entries(&log).is_empty());
    assert_eq!(r.lenses.handler(id).unwrap().calls, 0);
    assert_eq!(state_of(&r, id), LensState::Idle);
}

#[test]
fn busy_lens_drops_active_event() {
    let log = new_log();
    let mut r = chain(&log);
    let id = r.lenses.new_lens("x", vec![0, 1, 2], fixed(LensState::Busy(4), &log));
    assert!(r.fire_event_at_lens("x", active("e1")).is_some());
    assert_eq!(state_of(&r, id), LensState::Busy(4));
    log.borrow_mut().clear();
    assert!(r.fire_event_at_lens("x", active("e2")).is_none());
    assert!(entries(&log).is_empty());
    assert_eq!(state_of(&r, id), LensState::Busy(4));
    assert_eq!(r.lenses.handler(id).unwrap().calls, 1);
}

#[test]
fn passive_event_reaches_busy_lens() {
    let log = new_log();
    let mut r = chain(&log);
    let id = r.lenses.new_lens("x", vec![0, 1, 2], fixed(LensState::Busy(4), &log));
    r.fire_event_at_lens("x", active("e1")).unwrap();
    log.borrow_mut().clear();
    let d = r.fire_event_at_lens("x", passive("e3")).unwrap();
    assert_eq!(nodes_of(&d.propagated), vec![0, 1, 2]);
    assert!(d.action.is_some());
    assert_eq!(nodes_of(&d.bubbled), vec![2, 1, 0]);
    assert_eq!(
        entries(&log),
        vec!["P A e3", "P B e3", "P C e3", "A x e3", "B C e3", "B B e3", "B A e3"]
    );
    assert_eq!(state_of(&r, id), LensState::Busy(4));
    assert_eq!(r.lenses.handler(id).unwrap().calls, 2);
}

#[test]
fn phases_visit_path_in_order() {
    let log = new_log();
    let mut r = chain(&log);
    let id = r.lenses.new_lens("x", vec![0, 1, 2], fixed(LensState::Idle, &log));
    let d = r.fire_event_at_lens("x", active("e")).unwrap();
    assert_eq!(
        entries(&log),
        vec!["P A e", "P B e", "P C e", "A x e", "B C e", "B B e", "B A e"]
    );
    assert_eq!(nodes_of(&d.propagated), vec![0, 1, 2]);
    assert_eq!(nodes_of(&d.bubbled), vec![2, 1, 0]);
    assert_eq!(state_of(&r, id), LensState::Idle);
}

fn set_probe(r: &mut Router<Probe, Fixed>, node: usize, log: &Log, f: impl Fn(&mut Probe)) {
    let tag = ["A", "B", "C"][node];
    let mut p = Probe::new(1, tag, log);
    f(&mut p);
    assert!(r.nodes.set_node_component(node, p));
    log.borrow_mut().clear();
}

#[test]
fn stopped_propagation_still_bubbles_whole_path() {
    let log = new_log();
    let mut r = chain(&log);
    set_probe(&mut r, 0, &log, |p| p.stop_propagation = true);
    r.lenses.new_lens("x", vec![0, 1, 2], fixed(LensState::Idle, &log));
    let d = r.fire_event_at_lens("x", active("e")).unwrap();
    assert_eq!(nodes_of(&d.propagated), vec![0]);
    assert!(!d.propagated[0].gates.propagate);
    assert_eq!(nodes_of(&d.bubbled), vec![2, 1, 0]);
    assert_eq!(
        entries(&log),
        vec!["P A e", "A x e", "B C e", "B B e", "B A e"]
    );
}

#[test]
fn bubbling_closed_during_propagation_skips_bubbling() {
    let log = new_log();
    let mut r = chain(&log);
    r.lenses.new_lens("x", vec![0, 1, 2], fixed(LensState::Idle, &log));
    set_probe(&mut r, 2, &log, |p| p.stop_bubbling = true);
    let d = r.fire_event_at_lens("x", active("e")).unwrap();
    assert_eq!(nodes_of(&d.propagated), vec![0, 1, 2]);
    assert!(d.action.is_some());
    assert!(d.bubbled.is_empty());
    assert_eq!(entries(&log), vec!["P A e", "P B e", "P C e", "A x e"]);
}

#[test]
fn stopped_bubbling_ends_walk_back() {
    let log = new_log();
    let mut r = chain(&log);
    r.lenses.new_lens("x", vec![0, 1, 2], fixed(LensState::Idle, &log));
    set_probe(&mut r, 1, &log, |p| p.stop_bubbling_back = true);
    let d = r.fire_event_at_lens("x", active("e")).unwrap();
    assert_eq!(nodes_of(&d.propagated), vec![0, 1, 2]);
    assert_eq!(nodes_of(&d.bubbled), vec![2, 1]);
    assert!(d.bubbled[0].gates.bubble);
    assert!(!d.bubbled[1].gates.bubble);
    assert_eq!(
        entries(&log),
        vec!["P A e", "P B e", "P C e", "A x e", "B C e", "B B e"]
    );
}

#[test]
fn handler_closing_bubbling_skips_bubbling() {
    let log = new_log();
    let mut r = chain(&log);
    let mut h = fixed(LensState::Busy(2), &log);
    h.stop_bubbling = true;
    let id = r.lenses.new_lens("x", vec![0, 1], h);
    let d = r.fire_event_at_lens("x", active("e")).unwrap();
    assert!(d.bubbled.is_empty());
    assert!(!d.action.unwrap().gates.bubble);
    assert_eq!(d.action.unwrap().next, LensState::Busy(2));
    assert_eq!(state_of(&r, id), LensState::Busy(2));
}

#[test]
fn prevented_default_skips_action_and_stays_idle() {
    let log = new_log();
    let mut r = chain(&log);
    set_probe(&mut r, 1, &log, |p| p.prevent_default = true);
    let id = r.lenses.new_lens("x", vec![0, 1, 2], fixed(LensState::Busy(8), &log));
    let d = r.fire_event_at_lens("x", active("e")).unwrap();
    assert!(d.action.is_none());
    assert_eq!(nodes_of(&d.propagated), vec![0, 1, 2]);
    assert_eq!(nodes_of(&d.bubbled), vec![2, 1, 0]);
    assert_eq!(r.lenses.handler(id).unwrap().calls, 0);
    assert_eq!(state_of(&r, id), LensState::Idle);
}

#[test]
fn busy_handler_scenario() {
    let log = new_log();
    let mut r: Router<Probe, Fixed> = Router::new();
    let n = r.nodes.add_node(None).unwrap();
    assert_eq!(n, 0);
    let id = r.lenses.new_lens("x", vec![0], fixed(LensState::Busy(1), &log));
    let d1: Option<Delivery> = r.fire_event_at_lens("x", active("E1"));
    assert!(d1.is_some());
    assert_eq!(state_of(&r, id), LensState::Busy(1));
    assert!(r.fire_event_at_lens("x", active("E2")).is_none());
    assert_eq!(r.lenses.handler(id).unwrap().calls, 1);
    assert_eq!(state_of(&r, id), LensState::Busy(1));
    let d3 = r.fire_event_at_lens("x", passive("E3")).unwrap();
    assert_eq!(nodes_of(&d3.propagated), vec![0]);
    assert_eq!(d3.action.unwrap().next, LensState::Busy(1));
    assert_eq!(nodes_of(&d3.bubbled), vec![0]);
    assert_eq!(r.lenses.handler(id).unwrap().calls, 2);
    assert_eq!(state_of(&r, id), LensState::Busy(1));
    assert_eq!(entries(&log), vec!["A x E1", "A x E3"]);
}

#[test]
fn first_lens_of_a_name_is_chosen() {
    let log = new_log();
    let mut r = chain(&log);
    let first = r.lenses.new_lens("x", vec![0], fixed(LensState::Busy(1), &log));
    let second = r.lenses.new_lens("x", vec![1], fixed(LensState::Busy(2), &log));
    assert_eq!(r.lenses.find("x"), Some(first));
    r.fire_event_at_lens("x", active("e")).unwrap();
    assert_eq!(state_of(&r, first), LensState::Busy(1));
    assert_eq!(state_of(&r, second), LensState::Idle);
    assert_eq!(r.lenses.len(), 2);
}

#[test]
fn unknown_path_node_is_passed_untouched() {
    let log = new_log();
    let mut r = chain(&log);
    r.lenses.new_lens("x", vec![7, 2], fixed(LensState::Idle, &log));
    let d = r.fire_event_at_lens("x", active("e")).unwrap();
    assert_eq!(nodes_of(&d.propagated), vec![7, 2]);
    assert_eq!(nodes_of(&d.bubbled), vec![2, 7]);
    assert_eq!(entries(&log), vec!["P C e", "A x e", "B C e"]);
}

#[test]
fn fire_at_node_changes_nothing() {
    let log = new_log();
    let mut r = chain(&log);
    r.fire_event_at_node("0", active("e"));
    assert!(entries(&log).is_empty());
    assert_eq!(r.nodes.get_node_component(0, 1).unwrap().events, 0);
}

#[test]
fn get_mut_changes_component_found_from_descendant() {
    let log = new_log();
    let mut nodes: Nodes<Probe> = Nodes::new();
    let root = nodes.add_node(None).unwrap();
    let leaf = nodes.add_node(Some(root)).unwrap();
    assert!(nodes.set_node_component(root, Probe::new(3, "root", &log)));
    {
        let c = nodes.get_mut_node_component(leaf, 3).unwrap();
        c.tag = "changed".to_string();
    }
    assert_eq!(nodes.get_node_component(root, 3).unwrap().tag, "changed");
    assert_eq!(nodes.get_node_component(leaf, 3).unwrap().tag, "changed");
}

#[test]
fn get_mut_on_missing_kind_is_none() {
    let log = new_log();
    let mut nodes: Nodes<Probe> = Nodes::new();
    let root = nodes.add_node(None).unwrap();
    assert!(nodes.get_mut_node_component(root, 3).is_none());
    assert!(nodes.set_node_component(root, Probe::new(4, "four", &log)));
    assert!(nodes.get_mut_node_component(root, 3).is_none());
    assert!(nodes.get_mut_node_component(9, 4).is_none());
}

#[test]
fn node_events_reach_every_component_of_node() {
    let log = new_log();
    let mut r = chain(&log);
    assert!(r.nodes.set_node_component(1, Probe::new(2, "B2", &log)));
    log.borrow_mut().clear();
    r.lenses.new_lens("x", vec![1], fixed(LensState::Idle, &log));
    r.fire_event_at_lens("x", active("e")).unwrap();
    assert_eq!(
        entries(&log),
        vec!["P B e", "P B2 e", "A x e", "B B e", "B B2 e"]
    );
    assert_eq!(r.nodes.get_node_component(1, 2).unwrap().events, 2);
    assert_eq!(r.nodes.get_node_component(0, 1).unwrap().events, 0);
}
