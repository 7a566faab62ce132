use atlas_preemptive::batch::NodeId;
use atlas_preemptive::observer::{observer_step, ObserverInput, ObserverRegistry, ObserverSend};

fn ids(sends: &[ObserverSend<&'static str>]) -> Vec<String> {
    sends
        .iter()
        .map(|s| match s {
            ObserverSend::RegisterResponse(n, r) => format!("register {} {}", n.id, r),
            ObserverSend::Send(n, e) => format!("send {} {}", n.id, e),
            ObserverSend::Broadcast(ts, e) => {
                let ts: Vec<String> = ts.iter().map(|n| n.id.to_string()).collect();
                format!("broadcast [{}] {}", ts.join(","), e)
            },
        })
        .collect()
}

#[test]
fn a_new_observer_is_registered_once_and_told_the_last_events() {
    let mut reg: ObserverRegistry<&'static str> = ObserverRegistry::new();
    assert_eq!(ids(&observer_step(&mut reg, ObserverInput::Connected(NodeId::from(3)))), vec!["register 3 true"]);
    assert_eq!(ids(&observer_step(&mut reg, ObserverInput::Event("normal-1", true))), vec!["broadcast [3] normal-1"]);
    assert_eq!(ids(&observer_step(&mut reg, ObserverInput::Event("view-change", false))), vec!["broadcast [3] view-change"]);
    assert_eq!(
        ids(&observer_step(&mut reg, ObserverInput::Connected(NodeId::from(5)))),
        vec!["register 5 true", "send 5 normal-1", "send 5 view-change"]
    );
    assert_eq!(
        ids(&observer_step(&mut reg, ObserverInput::Connected(NodeId::from(3)))),
        vec!["register 3 false", "send 3 normal-1", "send 3 view-change"]
    );
    assert_eq!(ids(&observer_step(&mut reg, ObserverInput::Event("normal-2", true))), vec!["broadcast [3,5] normal-2"]);
}

#[test]
fn a_disconnected_observer_no_longer_receives_events() {
    let mut reg: ObserverRegistry<&'static str> = ObserverRegistry::new();
    observer_step(&mut reg, ObserverInput::Connected(NodeId::from(1)));
    observer_step(&mut reg, ObserverInput::Connected(NodeId::from(2)));
    assert!(observer_step(&mut reg, ObserverInput::Disconnected(NodeId::from(1))).is_empty());
    assert!(observer_step(&mut reg, ObserverInput::Disconnected(NodeId::from(9))).is_empty());
    assert_eq!(ids(&observer_step(&mut reg, ObserverInput::Event("e", false))), vec!["broadcast [2] e"]);
}
