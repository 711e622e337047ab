use automancy::id::{Id, IdRaw, Interner};
use automancy::item::{Item, ItemRaw};
use automancy::registry::{id_match, Registry, Tag};
use automancy::resource::{find_label, ResourceManager};
use automancy::tag_cache::TagCache;
use automancy::text::{str_eq, str_le};
use std::sync::Arc;

fn raw(id: &str, model: &str) -> ItemRaw {
    ItemRaw { id: IdRaw::parse(id), model: IdRaw::parse(model) }
}

#[test]
fn intern_to_item_interns_both_names() {
    let mut interner = Interner::new();
    let item = raw("iron", "iron_model").intern_to_item(&mut interner);
    assert_eq!(interner.len(), 2);
    assert_eq!(interner.resolve(item.id), Some("iron"));
    assert_eq!(interner.resolve(item.model), Some("iron_model"));
    let again = raw("iron", "iron_model").intern_to_item(&mut interner);
    assert_eq!(again, item);
    assert_eq!(interner.len(), 2);
    let same = raw("gold", "gold").intern_to_item(&mut interner);
    assert_eq!(same.id, same.model);
    assert_eq!(interner.len(), 3);
}

#[test]
fn to_item_needs_both_names() {
    let mut interner = Interner::new();
    let iron = interner.intern("iron");
    let model = interner.intern("iron_model");
    assert_eq!(raw("iron", "iron_model").to_item(&interner), Some(Item { id: iron, model }));
    assert_eq!(raw("iron", "other").to_item(&interner), None);
    assert_eq!(raw("other", "iron_model").to_item(&interner), None);
    assert_eq!(interner.len(), 2);
}

#[test]
fn to_item_raw_needs_both_handles() {
    let mut interner = Interner::new();
    let iron = interner.intern("iron");
    let model = interner.intern("iron_model");
    assert_eq!(Item { id: iron, model }.to_item_raw(&interner), Some(raw("iron", "iron_model")));
    assert_eq!(Item { id: iron, model: Id::from_raw(5) }.to_item_raw(&interner), None);
    assert_eq!(Item { id: Id::from_raw(5), model }.to_item_raw(&interner), None);
    assert_eq!(raw("a", "b").clone(), raw("a", "b"));
}

#[test]
fn item_round_trip() {
    let mut interner = Interner::new();
    let item = raw("iron", "iron_model").intern_to_item(&mut interner);
    assert_eq!(item.to_item_raw(&interner).unwrap().to_item(&interner), Some(item));
}

#[test]
fn id_match_is_equality_or_tag_membership() {
    let mut interner = Interner::new();
    let iron = interner.intern("iron");
    let gold = interner.intern("gold");
    let coal = interner.intern("coal");
    let metal = interner.intern("#metal");
    let mut registry = Registry::new();
    registry.insert_tag(Tag { id: metal, entries: vec![iron, gold] });
    assert!(id_match(&registry, iron, iron));
    assert!(id_match(&registry, iron, metal));
    assert!(id_match(&registry, gold, metal));
    assert!(!id_match(&registry, coal, metal));
    assert!(!id_match(&registry, iron, gold));
    assert!(!id_match(&registry, metal, iron));
    assert!(id_match(&registry, metal, metal));
    assert!(registry.tag(metal).unwrap().of(gold));
    assert!(!registry.tag(metal).unwrap().of(coal));
    assert_eq!(registry.tag(iron), None);
}

#[test]
fn registry_holds_each_item_and_tag_once() {
    let mut interner = Interner::new();
    let iron = interner.intern("iron");
    let model = interner.intern("model");
    let other = interner.intern("other");
    let mut registry = Registry::new();
    assert_eq!(registry.item_count(), 0);
    assert_eq!(registry.tag_count(), 0);
    registry.insert_item(Item { id: iron, model });
    registry.insert_item(Item { id: other, model });
    registry.insert_item(Item { id: iron, model: other });
    assert_eq!(registry.item_count(), 2);
    assert_eq!(registry.item(iron), Some(&Item { id: iron, model: other }));
    assert_eq!(registry.item(model), None);
    assert_eq!(registry.item_id_at(0), iron);
    assert_eq!(registry.item_id_at(1), other);
    registry.insert_tag(Tag { id: model, entries: vec![iron] });
    registry.insert_tag(Tag { id: model, entries: vec![other] });
    assert_eq!(registry.tag_count(), 1);
    assert_eq!(registry.tag(model), Some(&Tag { id: model, entries: vec![other] }));
}

fn resources() -> (ResourceManager, Id, Id, Id, Id) {
    let mut resources = ResourceManager::new("<unnamed>".to_string());
    let iron = resources.register_item(raw("iron", "iron_model")).id;
    let gold = resources.register_item(raw("gold", "gold_model")).id;
    let coal = resources.register_item(raw("coal", "coal_model")).id;
    let metal = resources.interner.intern("#metal");
    resources.registry.insert_tag(Tag { id: metal, entries: vec![gold, iron] });
    resources.translates.items.push((iron, "Iron".to_string()));
    resources.translates.items.push((gold, "Gold".to_string()));
    resources.translates.items.push((iron, "Shadowed".to_string()));
    (resources, iron, gold, coal, metal)
}

#[test]
fn register_item_interns_and_registers() {
    let (resources, iron, gold, coal, _) = resources();
    assert_eq!(resources.registry.item_count(), 3);
    assert_eq!(resources.interner.resolve(iron), Some("iron"));
    assert_eq!(resources.interner.get("gold_model"), Some(resources.registry.item(gold).unwrap().model));
    assert_eq!(resources.registry.item(coal).unwrap().id, coal);
}

#[test]
fn item_name_falls_back_to_unnamed() {
    let (resources, iron, gold, coal, _) = resources();
    assert_eq!(resources.item_name(iron), "Iron");
    assert_eq!(resources.item_name(gold), "Gold");
    assert_eq!(resources.item_name(coal), "<unnamed>");
    assert_eq!(find_label(&resources.translates.items, coal), None);
    assert_eq!(find_label(&resources.translates.items, iron), Some("Iron"));
}

#[test]
fn ordered_items_sorts_by_display_name() {
    let (mut resources, iron, gold, coal, _) = resources();
    resources.ordered_items();
    assert_eq!(resources.ordered_items, vec![coal, gold, iron]);
    resources.translates.items.insert(0, (iron, "ABC".to_string()));
    resources.translates.items.insert(0, (coal, "abc".to_string()));
    resources.translates.items.insert(0, (gold, "AB".to_string()));
    resources.ordered_items();
    assert_eq!(resources.ordered_items, vec![gold, iron, coal]);
}

#[test]
fn an_item_resolves_to_itself_and_leaves_the_cache_alone() {
    let (mut resources, iron, _, _, metal) = resources();
    resources.ordered_items();
    let mut cache = TagCache::new();
    let found = resources.get_items(iron, &mut cache);
    assert_eq!(*found, vec![*resources.registry.item(iron).unwrap()]);
    assert_eq!(cache.get(iron), None);
    assert_eq!(cache.get(metal), None);
}

#[test]
fn a_tag_resolves_to_its_items_in_display_order() {
    let (mut resources, iron, gold, _, metal) = resources();
    resources.ordered_items();
    let mut cache = TagCache::new();
    let found = resources.get_items(metal, &mut cache);
    let expected =
        vec![*resources.registry.item(gold).unwrap(), *resources.registry.item(iron).unwrap()];
    assert_eq!(*found, expected);
    assert_eq!(resources.items_of_tag(metal), expected);
    assert_eq!(cache.get(metal), Some(Arc::new(expected)));
}

#[test]
fn a_second_lookup_gives_the_same_items() {
    let (mut resources, _, _, _, metal) = resources();
    resources.ordered_items();
    let mut cache = TagCache::new();
    let first = resources.get_items(metal, &mut cache);
    let second = resources.get_items(metal, &mut cache);
    assert_eq!(first, second);
    assert!(Arc::ptr_eq(&first, &second));
}

#[test]
fn the_cache_answers_before_the_registry_is_searched() {
    let (mut resources, iron, _, coal, metal) = resources();
    resources.ordered_items();
    let mut cache = TagCache::new();
    let remembered = vec![*resources.registry.item(coal).unwrap()];
    cache.insert(metal, Arc::new(remembered.clone()));
    assert_eq!(*resources.get_items(metal, &mut cache), remembered);
    let unknown = resources.interner.intern("#nothing");
    assert_eq!(*resources.get_items(unknown, &mut cache), vec![]);
    assert_eq!(cache.get(unknown), Some(Arc::new(vec![])));
    assert_eq!(cache.get(iron), None);
}

#[test]
fn a_tag_without_display_order_has_no_items() {
    let (resources, _, _, _, metal) = resources();
    let mut cache = TagCache::new();
    assert_eq!(*resources.get_items(metal, &mut cache), vec![]);
}

#[test]
fn strings_are_ordered_by_code_points() {
    assert!(str_le("", ""));
    assert!(str_le("", "a"));
    assert!(!str_le("a", ""));
    assert!(str_le("a", "a"));
    assert!(str_le("a", "ab"));
    assert!(!str_le("ab", "a"));
    assert!(str_le("Z", "a"));
    assert!(!str_le("a", "Z"));
    assert!(str_le("az", "b"));
    assert!(str_le("z", "é"));
    assert!(str_le("é", "\u{10000}"));
    assert!(!str_le("\u{10000}", "\u{ffff}"));
    for (a, b) in [("iron", "Iron"), ("x", "xy"), ("é", "e"), ("", "")] {
        assert_eq!(str_le(a, b), a <= b);
        assert_eq!(str_le(b, a), b <= a);
    }
}

#[test]
fn strings_are_equal_when_all_characters_are() {
    assert!(str_eq("", ""));
    assert!(str_eq("iron", "iron"));
    assert!(!str_eq("iron", "iro"));
    assert!(!str_eq("iro", "iron"));
    assert!(!str_eq("iron", "irom"));
    assert!(!str_eq("", "a"));
    assert!(str_eq("é", "é"));
    assert!(!str_eq("é", "e"));
}

#[test]
fn the_items_of_a_tag_are_registry_items_without_repeats() {
    let (mut resources, iron, gold, _, metal) = resources();
    let both = resources.interner.intern("#both");
    resources.registry.insert_tag(Tag { id: both, entries: vec![iron, gold, iron, gold] });
    resources.ordered_items();
    let mut cache = TagCache::new();
    for tag in [metal, both] {
        let found = resources.get_items(tag, &mut cache);
        assert_eq!(found.len(), 2);
        assert!(found.len() <= resources.registry.item_count());
        for (i, item) in found.iter().enumerate() {
            assert_eq!(resources.registry.item(item.id), Some(item));
            for other in &found[i + 1..] {
                assert_ne!(item, other);
            }
        }
    }
    let mut seen = resources.ordered_items.clone();
    seen.sort();
    seen.dedup();
    assert_eq!(seen.len(), resources.ordered_items.len());
}
