use node_graph::geom::{port_hit, sat_add, Pos};
use node_graph::ids::{AnyParameterId, InputId, OutputId};
use node_graph::widget::PortLocations;

#[test]
fn saturating_addition_pins_at_the_edges() {
    assert_eq!(sat_add(1, 2), 3);
    assert_eq!(sat_add(i64::MAX, 1), i64::MAX);
    assert_eq!(sat_add(i64::MIN, -1), i64::MIN);
    assert_eq!(sat_add(i64::MAX, i64::MIN), -1);
    assert_eq!(sat_add(-5, 5), 0);
}

#[test]
fn port_hit_box_is_five_units_each_way() {
    let center = Pos { x: 100, y: 200 };
    assert!(port_hit(center, Pos { x: 100, y: 200 }));
    assert!(port_hit(center, Pos { x: 105, y: 205 }));
    assert!(port_hit(center, Pos { x: 95, y: 195 }));
    assert!(!port_hit(center, Pos { x: 106, y: 200 }));
    assert!(!port_hit(center, Pos { x: 100, y: 194 }));
}

#[test]
fn shifted_applies_per_axis() {
    let p = Pos { x: 10, y: -10 };
    assert_eq!(p.shifted(Pos { x: -3, y: 4 }), Pos { x: 7, y: -6 });
    assert_eq!(
        p.shifted_back(Pos { x: -3, y: 4 }),
        Pos { x: 13, y: -14 }
    );
}

#[test]
fn registry_last_registration_wins() {
    let mut reg = PortLocations::new();
    let a = AnyParameterId::Input(InputId(1));
    let b = AnyParameterId::Output(OutputId(2));
    assert_eq!(reg.get(a), None);
    reg.insert(a, Pos { x: 1, y: 1 });
    reg.insert(b, Pos { x: 2, y: 2 });
    reg.insert(a, Pos { x: 3, y: 3 });
    assert_eq!(reg.get(a), Some(Pos { x: 3, y: 3 }));
    assert_eq!(reg.get(b), Some(Pos { x: 2, y: 2 }));
}
