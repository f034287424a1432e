use rust_game::ecs::event_bus::BoxedEvent;
use rust_game::ecs::EventBus;
use std::any::TypeId;

#[derive(Debug, PartialEq, Eq)]
struct ExampleEvent(&'static str);

#[test]
fn publish_and_drain_by_type() {
    let mut bus = EventBus::new();
    bus.publish(ExampleEvent("first"));
    bus.publish(ExampleEvent("second"));

    let drained = bus.drain::<ExampleEvent>();
    assert_eq!(drained, vec![ExampleEvent("first"), ExampleEvent("second")]);
    assert!(bus.drain::<ExampleEvent>().is_empty());
}

#[test]
fn events_of_different_types_are_isolated() {
    let mut bus = EventBus::new();
    bus.publish(ExampleEvent("only"));
    bus.publish(42u32);

    let strings = bus.drain::<ExampleEvent>();
    let numbers = bus.drain::<u32>();

    assert_eq!(strings, vec![ExampleEvent("only")]);
    assert_eq!(numbers, vec![42]);
}

#[derive(Debug, PartialEq, Eq, Clone)]
struct Foo(u32);

#[derive(Debug, PartialEq, Eq, Clone)]
struct Bar(u32);

#[test]
fn draining_one_type_keeps_other_queues_in_order() {
    let mut bus = EventBus::new();
    bus.publish(Foo(1));
    bus.publish(Bar(9));
    bus.publish(Foo(2));
    bus.publish(Foo(3));

    let foos = bus.drain::<Foo>();
    assert_eq!(foos, vec![Foo(1), Foo(2), Foo(3)]);

    let bars = bus.drain::<Bar>();
    assert_eq!(bars, vec![Bar(9)]);
}

#[test]
fn clear_discards_all_pending_events() {
    let mut bus = EventBus::new();
    bus.publish(Foo(1));
    bus.publish(Bar(2));
    bus.clear();
    assert!(bus.drain::<Foo>().is_empty());
    assert!(bus.drain::<Bar>().is_empty());
}

#[test]
fn keyed_layer_drains_exactly_by_payload_type() {
    let mut bus = EventBus::new();
    bus.publish_boxed(BoxedEvent::of(Foo(5)));
    bus.publish(Foo(6));
    bus.publish(Bar(1));

    let foo_key = TypeId::of::<Foo>();
    let drained = bus.drain_keyed(&foo_key);
    assert_eq!(drained.len(), 2);
    for event in &drained {
        assert_eq!(event.type_key(), foo_key);
    }
    assert!(bus.drain_keyed(&foo_key).is_empty());
    assert_eq!(bus.drain::<Bar>(), vec![Bar(1)]);
}
