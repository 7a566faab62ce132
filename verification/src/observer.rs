use crate::batch::NodeId;
use vstd::prelude::*;

verus! {

/// What the observer notifier receives: an observer connecting or disconnecting, or an
/// event to report (flagged when it is a normal-phase event).
pub enum ObserverInput<E> {
    Connected(NodeId),
    Disconnected(NodeId),
    Event(E, bool),
}

/// What the observer notifier sends.
pub enum ObserverSend<E> {
    /// Tell an observer that connected whether it was newly registered.
    RegisterResponse(NodeId, bool),
    /// Send an event to one observer.
    Send(NodeId, E),
    /// Send an event to every listed observer.
    Broadcast(Vec<NodeId>, E),
}

/// The registered observers, without repetition, in registration order, with the last
/// normal-phase event and the last event reported.
pub struct ObserverRegistry<E> {
    observers: Vec<NodeId>,
    last_normal_event: Option<E>,
    last_event: Option<E>,
}

impl<E: Clone> ObserverRegistry<E> {
    /// The registered observers.
    pub closed spec fn observers(&self) -> Seq<NodeId> {
        self.observers@
    }

    /// The last normal-phase event reported, if any.
    pub closed spec fn last_normal(&self) -> Option<E> {
        self.last_normal_event
    }

    /// The last event reported, if any.
    pub closed spec fn last(&self) -> Option<E> {
        self.last_event
    }

    /// No observer is registered twice.
    pub open spec fn wf(&self) -> bool {
        self.observers().no_duplicates()
    }

    /// A registry with no observer and no event.
    pub fn new() -> (r: Self)
        ensures
            r.wf(),
            r.observers() == Seq::<NodeId>::empty(),
            r.last_normal() is None,
            r.last() is None,
    {
        ObserverRegistry { observers: Vec::new(), last_normal_event: None, last_event: None }
    }

    /// Where `n` stands among the registered observers, if it is registered.
    fn position_of(&self, n: NodeId) -> (r: Option<usize>)
        ensures
            r matches Some(i) ==> i < self.observers().len() && self.observers()[i as int] == n,
            r is None ==> !self.observers().contains(n),
    {
        let mut i: usize = 0;
        while i < self.observers.len()
            invariant
                0 <= i <= self.observers@.len(),
                forall|j: int| 0 <= j < i ==> self.observers@[j] != n,
            decreases self.observers@.len() - i,
        {
            if self.observers[i] == n {
                return Some(i);
            }
            i = i + 1;
        }
        None
    }
}

/// The sends of an observer that connected: whether it was newly registered, then the last
/// normal-phase event and the last event, when there are such.
pub open spec fn welcome<E: Clone>(
    n: NodeId,
    registered: bool,
    last_normal: Option<E>,
    last: Option<E>,
    sends: Seq<ObserverSend<E>>,
) -> bool {
    let extra = (if last_normal is Some { 1int } else { 0int }) + (if last is Some { 1int } else { 0int });
    &&& sends.len() == 1 + extra
    &&& sends[0] == ObserverSend::<E>::RegisterResponse(n, registered)
    &&& last_normal matches Some(e) ==> (sends[1] matches ObserverSend::Send(to, x) && to == n && cloned(e, x))
    &&& last matches Some(e) ==> (sends[sends.len() - 1] matches ObserverSend::Send(to, x) && to == n && cloned(
        e,
        x,
    ))
}

/// Handles one input of the observer notifier and says what to send, in order.
///
/// A connecting observer is registered (once) and told whether it was new, then sent the
/// last normal-phase event and the last event; a disconnecting one is removed; an event is
/// remembered (as the last normal-phase event too when it is one) and sent to every
/// registered observer.
pub fn observer_step<E: Clone>(reg: &mut ObserverRegistry<E>, input: ObserverInput<E>) -> (sends: Vec<ObserverSend<E>>)
    requires
        old(reg).wf(),
    ensures
        final(reg).wf(),
        input matches ObserverInput::Connected(n) ==> {
            let registered = !old(reg).observers().contains(n);
            &&& final(reg).observers() == if registered {
                old(reg).observers().push(n)
            } else {
                old(reg).observers()
            }
            &&& final(reg).last_normal() == old(reg).last_normal()
            &&& final(reg).last() == old(reg).last()
            &&& welcome(n, registered, old(reg).last_normal(), old(reg).last(), sends@)
        },
        input matches ObserverInput::Disconnected(n) ==> {
            &&& old(reg).observers().contains(n) ==> exists|i: int|
                0 <= i < old(reg).observers().len() && old(reg).observers()[i] == n && final(reg).observers()
                    == old(reg).observers().remove(i)
            &&& !old(reg).observers().contains(n) ==> final(reg).observers() == old(reg).observers()
            &&& !final(reg).observers().contains(n)
            &&& final(reg).last_normal() == old(reg).last_normal()
            &&& final(reg).last() == old(reg).last()
            &&& sends@.len() == 0
        },
        input matches ObserverInput::Event(e, normal) ==> {
            &&& final(reg).observers() == old(reg).observers()
            &&& final(reg).last() matches Some(x) && cloned(e, x)
            &&& normal ==> (final(reg).last_normal() matches Some(y) && cloned(e, y))
            &&& !normal ==> final(reg).last_normal() == old(reg).last_normal()
            &&& sends@.len() == 1
            &&& sends@[0] matches ObserverSend::Broadcast(targets, x) && targets@ == old(reg).observers() && x == e
        },
{
    let mut sends: Vec<ObserverSend<E>> = Vec::new();
    match input {
        ObserverInput::Connected(n) => {
            let registered = reg.position_of(n).is_none();
            if registered {
                reg.observers.push(n);
                proof {
                    assert forall|a: int, b: int|
                        0 <= a < b < reg.observers@.len() implies reg.observers@[a] != reg.observers@[b] by {
                        if b == reg.observers@.len() - 1 {
                            assert(reg.observers@[a] == old(reg).observers@[a]);
                        } else {
                            assert(reg.observers@[a] == old(reg).observers@[a]);
                            assert(reg.observers@[b] == old(reg).observers@[b]);
                        }
                    }
                }
            }
            sends.push(ObserverSend::RegisterResponse(n, registered));
            match &reg.last_normal_event {
                Some(e) => {
                    sends.push(ObserverSend::Send(n, e.clone()));
                },
                None => {},
            }
            match &reg.last_event {
                Some(e) => {
                    sends.push(ObserverSend::Send(n, e.clone()));
                },
                None => {},
            }
        },
        ObserverInput::Disconnected(n) => {
            match reg.position_of(n) {
                Some(i) => {
                    reg.observers.remove(i);
                    proof {
                        let o = old(reg).observers@;
                        assert forall|a: int, b: int|
                            0 <= a < b < reg.observers@.len() implies reg.observers@[a] != reg.observers@[b] by {
                            let a0 = if a < i { a } else { a + 1 };
                            let b0 = if b < i { b } else { b + 1 };
                            assert(reg.observers@[a] == o[a0]);
                            assert(reg.observers@[b] == o[b0]);
                        }
                        assert forall|j: int| 0 <= j < reg.observers@.len() implies reg.observers@[j] != n by {
                            let j0 = if j < i { j } else { j + 1 };
                            assert(reg.observers@[j] == o[j0]);
                        }
                    }
                },
                None => {},
            }
        },
        ObserverInput::Event(e, normal) => {
            if normal {
                reg.last_normal_event = Some(e.clone());
            }
            reg.last_event = Some(e.clone());
            let targets = reg.observers.clone();
            sends.push(ObserverSend::Broadcast(targets, e));
        },
    }
    sends
}

} // verus!
