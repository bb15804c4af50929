use std::sync::mpsc::{sync_channel, Receiver, SyncSender};

use home_automation::affector::{Affector, Offline, Registar};
use home_automation::large_bedroom::Actuator;
use home_automation::large_bedroom::bed;
use home_automation::tui::ActiveList;

/// What a server does with an order: offer it to each controller in turn.
fn actuate(reg: &mut Registar, sinks: &[(u64, SyncSender<Affector>)], order: Affector) -> Result<(), Offline> {
    let mut accepted = None;
    for key in reg.controllers_of(order) {
        if let Some((_, tx)) = sinks.iter().find(|(k, _)| *k == key) {
            if tx.try_send(order).is_ok() {
                accepted = Some(key);
                break;
            }
        }
    }
    reg.activate(order, accepted)
}

fn node(reg: &mut Registar) -> (u64, SyncSender<Affector>, Receiver<Affector>) {
    let key = reg.register().unwrap();
    let (tx, rx) = sync_channel(4);
    (key, tx, rx)
}

#[test]
fn activate_without_controller_is_offline() {
    let mut reg = Registar::new();
    assert_eq!(actuate(&mut reg, &[], Affector::Mhz14Calibrate), Err(Offline));
}

#[test]
fn activate_reaches_registered_node_until_dropped() {
    let mut reg = Registar::new();
    let (key, tx, rx) = node(&mut reg);
    reg.update_affectors(key, Affector::Mhz14Calibrate);
    let sinks = vec![(key, tx)];
    assert_eq!(actuate(&mut reg, &sinks, Affector::Mhz14Calibrate), Ok(()));
    assert_eq!(rx.try_recv(), Ok(Affector::Mhz14Calibrate));

    drop(rx);
    assert_eq!(actuate(&mut reg, &sinks, Affector::Mhz14Calibrate), Err(Offline));
    reg.remove(key);
    assert!(reg.list().is_empty());
    assert_eq!(actuate(&mut reg, &[], Affector::Mhz14Calibrate), Err(Offline));
}

#[test]
fn repeated_updates_keep_one_entry() {
    let mut reg = Registar::new();
    let (key, _tx, _rx) = node(&mut reg);
    reg.update_affectors(key, Affector::Nau7802LeftCalibrate { known_weight_g: 100 });
    reg.update_affectors(key, Affector::Sps30FanClean);
    reg.update_affectors(key, Affector::Nau7802LeftCalibrate { known_weight_g: 250 });
    assert_eq!(
        reg.list(),
        vec![Affector::Nau7802LeftCalibrate { known_weight_g: 250 }, Affector::Sps30FanClean]
    );
    assert!(Affector::Nau7802LeftCalibrate { known_weight_g: 1 }
        .is_same_as(&Affector::Nau7802LeftCalibrate { known_weight_g: 2 }));
    assert!(!Affector::Sps30FanClean.is_same_as(&Affector::Mhz14Calibrate));
}

#[test]
fn list_concatenates_nodes_in_order() {
    let mut reg = Registar::new();
    let (a, _ta, _ra) = node(&mut reg);
    let (b, _tb, _rb) = node(&mut reg);
    assert_ne!(a, b);
    reg.update_affectors(b, Affector::Mhz14Calibrate);
    reg.update_affectors(a, Affector::Sps30FanClean);
    assert_eq!(reg.list(), vec![Affector::Sps30FanClean, Affector::Mhz14Calibrate]);
    assert_eq!(reg.controllers_of(Affector::Mhz14Calibrate), vec![b]);
}

#[test]
fn full_node_is_skipped_for_next_controller() {
    let mut reg = Registar::new();
    let (a, ta, _ra) = node(&mut reg);
    let (b, tb, rb) = node(&mut reg);
    reg.update_affectors(a, Affector::Sps30FanClean);
    reg.update_affectors(b, Affector::Sps30FanClean);
    for _ in 0..4 {
        ta.try_send(Affector::Mhz14Calibrate).unwrap();
    }
    let sinks = vec![(a, ta), (b, tb)];
    assert_eq!(actuate(&mut reg, &sinks, Affector::Sps30FanClean), Ok(()));
    assert_eq!(rb.try_recv(), Ok(Affector::Sps30FanClean));
}

#[test]
fn names_and_versions() {
    assert_eq!(bed::Device::Sht31.as_str(), "Sht31");
    assert_eq!(bed::Device::Nau7802Left.as_str(), "Nau7802Left");
    assert_eq!(Actuator::CalibrateCo2.version(), 0);
    assert_eq!(ActiveList::Readings.swap(), ActiveList::Actuators);
    assert_eq!(ActiveList::Actuators.swap(), ActiveList::Readings);
}

#[test]
fn first_keys_are_handed_out_in_order() {
    let mut reg = Registar::new();
    assert_eq!(reg.register(), Some(0));
    assert_eq!(reg.register(), Some(1));
    reg.remove(0);
    assert_eq!(reg.register(), Some(2));
}
