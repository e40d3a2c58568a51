use gecs::entity::{keyed, Bundle, Component, Entity, EntityBuilder, TypeKey};
use gecs::world::World;

struct Tagged(TypeKey, &'static str);

impl Component for Tagged {
    fn type_key(&self) -> TypeKey {
        self.0
    }
}

#[test]
fn a_pair_is_a_bundle_of_one() {
    assert_eq!((3u64, 'a').fetch_components(), vec![(3, 'a')]);
}

#[test]
fn a_pair_of_pairs_is_a_bundle_of_two_in_order() {
    assert_eq!(((3u64, 'a'), (1u64, 'b')).fetch_components(), vec![(3, 'a'), (1, 'b')]);
}

#[test]
fn a_list_is_a_bundle_of_any_size() {
    let empty: Vec<(TypeKey, char)> = Vec::new();
    assert_eq!(empty.fetch_components(), Vec::new());
    let many: Vec<(TypeKey, u32)> = (0..20).map(|i| (i as TypeKey, i * 10)).collect();
    assert_eq!(many.clone().fetch_components(), many);
}

#[test]
fn keyed_asks_the_component_for_its_key() {
    let pair = keyed(Tagged(5, "five"));
    assert_eq!(pair.0, 5);
    assert_eq!(pair.1 .1, "five");
}

#[test]
fn a_new_builder_has_nothing_staged() {
    let mut world: World<char> = World::new();
    let builder = EntityBuilder::new(Entity { id: 9 }, &mut world);
    assert_eq!(builder.entity, Entity { id: 9 });
    assert!(builder.components.is_empty());
}

#[test]
fn the_builder_stages_in_the_order_of_the_calls() {
    let mut world: World<char> = World::new();
    let builder = EntityBuilder::new(Entity { id: 9 }, &mut world)
        .with_components((2u64, 'a'))
        .with_components(((1u64, 'b'), (2u64, 'c')))
        .with_components(vec![(4u64, 'd'), (3u64, 'e')]);
    assert_eq!(builder.entity, Entity { id: 9 });
    assert_eq!(builder.components, vec![(2, 'a'), (1, 'b'), (2, 'c'), (4, 'd'), (3, 'e')]);
}

#[test]
fn with_stages_under_the_key_of_the_component() {
    let mut world: World<Tagged> = World::new();
    let builder = EntityBuilder::new(Entity { id: 9 }, &mut world)
        .with(Tagged(7, "seven"))
        .with_components(keyed(Tagged(8, "eight")));
    let staged: Vec<(TypeKey, TypeKey, &str)> =
        builder.components.iter().map(|pair| (pair.0, pair.1 .0, pair.1 .1)).collect();
    assert_eq!(staged, vec![(7, 7, "seven"), (8, 8, "eight")]);
}

#[test]
fn spawn_hands_the_entity_back() {
    let mut world: World<char> = World::new();
    world.new_archetype(2);
    let spawned =
        EntityBuilder::new(Entity { id: 9 }, &mut world).with_components((2u64, 'a')).spawn();
    assert_eq!(spawned, Ok(Entity { id: 9 }));
    assert!(world.has_component(2, &Entity { id: 9 }));
}
