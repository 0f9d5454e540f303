use public_transport::{Bus, City, Event, Simulation};

fn summary(events: &[Event]) -> Vec<(u32, u32, String, u32, u32)> {
    events
        .iter()
        .map(|e| (e.tick(), e.bus_id(), e.city().name(), e.got_off(), e.got_on()))
        .collect()
}

#[test]
fn travel_time_sums_roads_from_now() {
    let mut sim = Simulation::new();
    let c1 = sim.new_city("c1");
    let c2 = sim.new_city("c2");
    let c3 = sim.new_city("c3");
    let r1 = sim.new_road(&c1, &c2, 5);
    let r2 = sim.new_road(&c2, &c3, 7);
    let roads = vec![r1, r2];
    let mut bus = Bus::new(&[&c1, &c2, &c3], 0);
    assert_eq!(bus.calculate_travel_time(&roads, &c3, 0), 12);
    let mut later = Bus::new(&[&c1, &c2, &c3], 1);
    assert_eq!(later.calculate_travel_time(&roads, &c3, 10), 22);
}

#[test]
fn travel_time_is_remembered_until_the_bus_moves() {
    let mut sim = Simulation::new();
    let c1 = sim.new_city("c1");
    let c2 = sim.new_city("c2");
    let c3 = sim.new_city("c3");
    let roads = vec![sim.new_road(&c1, &c2, 5), sim.new_road(&c2, &c3, 7)];
    let mut bus = Bus::new(&[&c1, &c2, &c3], 0);
    assert_eq!(bus.calculate_travel_time(&roads, &c3, 0), 12);
    assert_eq!(bus.calculate_travel_time(&roads, &c3, 10), 12);
    assert_eq!(bus.calculate_travel_time(&roads, &c2, 10), 15);
    bus.move_to_next();
    assert_eq!(bus.calculate_travel_time(&roads, &c3, 5), 12);
}

#[test]
fn travel_time_saturates_at_the_end_of_time() {
    let mut sim = Simulation::new();
    let a = sim.new_city("a");
    let b = sim.new_city("b");
    let r = sim.new_road(&a, &b, 10);
    let mut bus = Bus::new(&[&a, &b], 0);
    assert_eq!(bus.calculate_travel_time(&vec![r], &b, u32::MAX - 3), u32::MAX);
}

#[test]
fn current_stop_is_not_upcoming() {
    let mut sim = Simulation::new();
    let c1 = sim.new_city("c1");
    let c2 = sim.new_city("c2");
    let c3 = sim.new_city("c3");
    let mut bus = Bus::new(&[&c1, &c2, &c3], 4);
    assert_eq!(bus.get_id(), 4);
    assert_eq!(bus.current_stop(), c1.id());
    assert!(!bus.is_upcoming_stop(&c1));
    assert!(bus.is_upcoming_stop(&c2));
    assert!(bus.is_upcoming_stop(&c3));
    bus.move_to_next();
    assert!(!bus.is_upcoming_stop(&c1));
    assert!(!bus.is_upcoming_stop(&c2));
    assert!(bus.is_upcoming_stop(&c3));
    assert_eq!(bus.current_stop(), c2.id());
    bus.move_to_next();
    bus.move_to_next();
    assert!(!bus.is_upcoming_stop(&c3));
    bus.move_to_next();
    assert!(!bus.is_upcoming_stop(&c3));
}

#[test]
fn left_city_is_not_upcoming_on_a_return_route() {
    let mut sim = Simulation::new();
    let a = sim.new_city("a");
    let b = sim.new_city("b");
    let mut bus = Bus::new(&[&a, &b, &a], 0);
    assert!(!bus.is_upcoming_stop(&a));
    bus.move_to_next();
    assert!(!bus.is_upcoming_stop(&a));
}

#[test]
fn roads_join_both_ways() {
    let mut sim = Simulation::new();
    let a = sim.new_city("a");
    let b = sim.new_city("b");
    let c = sim.new_city("c");
    let road = sim.new_road(&a, &b, 3);
    assert_eq!(road.travel_time(), 3);
    assert!(sim.valid_route(&[&a, &b]));
    assert!(sim.valid_route(&[&b, &a]));
    assert!(!sim.valid_route(&[&a, &c]));
    assert!(!sim.valid_route(&[&c, &a]));
    assert!(!sim.valid_route(&[&a]));
    assert!(!sim.valid_route(&[]));
    assert!(sim.valid_route(&[&a, &b, &a]));
}

#[test]
fn cities_keep_their_names() {
    let mut sim = Simulation::new();
    let a = sim.new_city("Plzen");
    let b = sim.new_city("Plzen");
    assert_eq!(a.name(), "Plzen");
    assert_ne!(a.id(), b.id());
}

#[test]
fn ledger_accumulates_and_restarts_after_boarding() {
    let mut sim = Simulation::new();
    let a = sim.new_city("a");
    let b = sim.new_city("b");
    sim.new_road(&a, &b, 4);
    sim.add_people(&a, &b, 5);
    sim.add_people(&a, &b, 3);
    assert_eq!(sim.waiting(&a, &b), 8);
    assert_eq!(sim.waiting(&b, &a), 0);
    sim.new_bus(&[&a, &b]);
    let events = sim.execute(1);
    assert_eq!(summary(&events), vec![(0, 0, "a".to_string(), 0, 8)]);
    assert_eq!(sim.waiting(&a, &b), 0);
    sim.add_people(&a, &b, 2);
    assert_eq!(sim.waiting(&a, &b), 2);
    let events = sim.execute(10);
    assert_eq!(summary(&events), vec![(4, 0, "b".to_string(), 8, 0)]);
}

#[test]
fn arrivals_at_the_same_tick_merge() {
    let mut sim = Simulation::new();
    let a = sim.new_city("a");
    let b = sim.new_city("b");
    let c = sim.new_city("c");
    sim.new_road(&a, &b, 5);
    sim.new_road(&b, &c, 0);
    sim.add_people(&a, &b, 3);
    sim.add_people(&a, &c, 4);
    sim.new_bus(&[&a, &b, &c]);
    let events = sim.execute(10);
    assert_eq!(
        summary(&events),
        vec![(0, 0, "a".to_string(), 0, 7), (5, 0, "b".to_string(), 7, 0)]
    );
}

#[test]
fn end_to_end_two_buses() {
    let mut sim = Simulation::new();
    let pls = sim.new_city("Plzen");
    let prg = sim.new_city("Prague");
    let brn = sim.new_city("Brno");
    let ust = sim.new_city("Usti");
    sim.new_road(&pls, &prg, 90);
    sim.new_road(&prg, &brn, 120);
    sim.new_road(&prg, &ust, 80);
    sim.new_road(&pls, &ust, 110);
    sim.new_bus(&[&pls, &prg, &brn]);
    sim.new_bus(&[&prg, &pls, &ust]);
    sim.add_people(&prg, &brn, 50);
    sim.add_people(&prg, &ust, 50);
    sim.add_people(&pls, &ust, 50);
    sim.add_people(&pls, &prg, 10);
    let events = sim.execute(270);
    assert_eq!(
        summary(&events),
        vec![
            (0, 0, "Plzen".to_string(), 0, 10),
            (0, 1, "Prague".to_string(), 0, 50),
            (90, 0, "Prague".to_string(), 10, 50),
            (200, 1, "Usti".to_string(), 50, 0),
            (210, 0, "Brno".to_string(), 50, 0),
        ]
    );
    assert_eq!(sim.current_time(), 270);
    assert_eq!(sim.waiting(&pls, &ust), 50);
    assert_eq!(sim.waiting(&prg, &brn), 0);
    let events = sim.execute(90);
    assert!(events.is_empty());
    assert_eq!(sim.current_time(), 360);
}

#[test]
fn finished_bus_reports_last_stop_once() {
    let mut sim = Simulation::new();
    let a = sim.new_city("a");
    let b = sim.new_city("b");
    sim.new_road(&a, &b, 10);
    sim.add_people(&a, &b, 5);
    sim.new_bus(&[&a, &b]);
    let events = sim.execute(20);
    assert_eq!(
        summary(&events),
        vec![(0, 0, "a".to_string(), 0, 5), (10, 0, "b".to_string(), 5, 0)]
    );
    sim.add_people(&a, &b, 3);
    sim.add_people(&b, &a, 3);
    let events = sim.execute(50);
    assert!(events.is_empty());
    assert_eq!(sim.waiting(&a, &b), 3);
    assert_eq!(sim.waiting(&b, &a), 3);
}

#[test]
fn idle_ticks_still_pass() {
    let mut sim = Simulation::new();
    assert_eq!(sim.current_time(), 0);
    let events = sim.execute(100);
    assert!(events.is_empty());
    assert_eq!(sim.current_time(), 100);
    let a = sim.new_city("a");
    let b = sim.new_city("b");
    sim.new_road(&a, &b, 1);
    sim.new_bus(&[&a, &b]);
    let events = sim.execute(5);
    assert_eq!(summary(&events), vec![(100, 0, "a".to_string(), 0, 0)]);
    assert_eq!(sim.current_time(), 105);
}

#[test]
fn bus_moves_on_only_where_it_stops() {
    let mut sim = Simulation::new();
    let pls = sim.new_city("Plzen");
    let prg = sim.new_city("Prague");
    let brn = sim.new_city("Brno");
    sim.new_road(&pls, &prg, 90);
    sim.new_road(&prg, &brn, 120);
    sim.new_bus(&[&pls, &prg, &brn]);
    sim.add_people(&prg, &brn, 50);
    let events = sim.execute(270);
    assert_eq!(summary(&events), vec![(0, 0, "Plzen".to_string(), 0, 0)]);
    assert_eq!(sim.waiting(&prg, &brn), 50);
    assert_eq!(sim.bus_count(), 1);
}
