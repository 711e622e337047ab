use automancy::data::{Data, Inventory, ItemStack};
use automancy::data_map::DataMap;
use automancy::hints::{
    find_binding, hint_key_labels, hint_key_text, hint_label, input_hint_keys, input_hint_names,
    join_keys, key_label, named_key_label, rest_of_the_info, HintColumns, Key, KeyAction,
    NamedKey, KEY_SEPARATOR,
};
use automancy::id::{Id, Interner};
use automancy::resource::Translates;
use automancy::selection::{
    find_category, find_tile_def, has_category_item, tile_choices, Category, SelectionKeys,
    TileChoice, TileDef,
};

const UNDO: u32 = 1;
const REDO: u32 = 2;
const HOLD: u32 = 3;
const MENU: u32 = 4;
const ODD: u32 = 5;

fn key_map(undo_name: Id, menu_name: Id) -> Vec<(Key, KeyAction)> {
    vec![
        (Key::Character("z".to_string()), KeyAction { action: UNDO, name: Some(undo_name) }),
        (Key::Named(NamedKey::Control), KeyAction { action: HOLD, name: None }),
        (Key::Character("y".to_string()), KeyAction { action: REDO, name: None }),
        (Key::Named(NamedKey::Escape), KeyAction { action: MENU, name: Some(menu_name) }),
        (Key::Unidentified, KeyAction { action: ODD, name: None }),
        (Key::Named(NamedKey::F1), KeyAction { action: MENU, name: None }),
    ]
}

#[test]
fn named_keys_have_short_names() {
    assert_eq!(named_key_label(NamedKey::Alt), "Alt");
    assert_eq!(named_key_label(NamedKey::Control), "Ctrl");
    assert_eq!(named_key_label(NamedKey::Shift), "Shift");
    assert_eq!(named_key_label(NamedKey::Delete), "Del");
    assert_eq!(named_key_label(NamedKey::Backspace), "Backspace");
    assert_eq!(named_key_label(NamedKey::Enter), "Enter");
    assert_eq!(named_key_label(NamedKey::Escape), "Esc");
    assert_eq!(named_key_label(NamedKey::Tab), "Tab");
    assert_eq!(named_key_label(NamedKey::F1), "F1");
    assert_eq!(named_key_label(NamedKey::F10), "F10");
    assert_eq!(named_key_label(NamedKey::F12), "F12");
    assert_eq!(named_key_label(NamedKey::ArrowLeft), "Left");
    assert_eq!(named_key_label(NamedKey::ArrowUp), "Up");
    assert_eq!(named_key_label(NamedKey::ArrowDown), "Down");
    assert_eq!(named_key_label(NamedKey::ArrowRight), "Right");
    assert_eq!(named_key_label(NamedKey::Other), "<?>");
}

#[test]
fn character_keys_are_shown_in_upper_case() {
    assert_eq!(key_label(&Key::Character("z".to_string())), Some("Z".to_string()));
    assert_eq!(key_label(&Key::Character("ß".to_string())), Some("SS".to_string()));
    assert_eq!(key_label(&Key::Named(NamedKey::Tab)), Some("Tab".to_string()));
    assert_eq!(key_label(&Key::Unidentified), None);
}

#[test]
fn hint_keys_are_joined_with_plus() {
    let mut interner = Interner::new();
    let keys = key_map(interner.intern("undo"), interner.intern("menu"));
    assert_eq!(KEY_SEPARATOR, " + ");
    assert_eq!(hint_key_text(&vec![HOLD, UNDO], &keys), "Ctrl + Z");
    assert_eq!(hint_key_text(&vec![UNDO], &keys), "Z");
    assert_eq!(hint_key_text(&vec![], &keys), "");
    assert_eq!(hint_key_text(&vec![ODD, 99, MENU, ODD, REDO], &keys), "Esc + Y");
    assert_eq!(find_binding(&keys, MENU), Some(3));
    assert_eq!(find_binding(&keys, 99), None);
    assert_eq!(
        input_hint_keys(&vec![vec![HOLD, UNDO], vec![], vec![MENU]], &keys),
        vec!["Ctrl + Z".to_string(), "".to_string(), "Esc".to_string()]
    );
}

#[test]
fn keys_are_joined_in_order() {
    assert_eq!(join_keys(&vec![]), "");
    assert_eq!(join_keys(&vec!["A".to_string()]), "A");
    assert_eq!(
        join_keys(&vec!["Ctrl".to_string(), "Shift".to_string(), "Z".to_string()]),
        "Ctrl + Shift + Z"
    );
    assert_eq!(join_keys(&vec!["".to_string(), "".to_string()]), " + ");
    let mut interner = Interner::new();
    let keys = key_map(interner.intern("undo"), interner.intern("menu"));
    assert_eq!(
        hint_key_labels(&vec![ODD, HOLD, 99, UNDO], &keys),
        vec!["Ctrl".to_string(), "Z".to_string()]
    );
}

#[test]
fn hint_columns_hold_names_and_keys() {
    let mut interner = Interner::new();
    let undo = interner.intern("undo");
    let keys = key_map(undo, interner.intern("menu"));
    let translates = Translates {
        items: vec![],
        keys: vec![(undo, "Undo".to_string())],
        unnamed: "?".to_string(),
    };
    assert_eq!(
        rest_of_the_info(&vec![vec![HOLD, UNDO], vec![MENU]], &keys, &translates),
        HintColumns {
            names: vec!["Undo".to_string(), "?".to_string()],
            keys: vec!["Ctrl + Z".to_string(), "Esc".to_string()],
        }
    );
}

#[test]
fn hint_names_come_from_the_last_action() {
    let mut interner = Interner::new();
    let undo = interner.intern("undo");
    let menu = interner.intern("menu");
    let keys = key_map(undo, menu);
    let translates = Translates {
        items: vec![],
        keys: vec![(undo, "Undo".to_string())],
        unnamed: "?".to_string(),
    };
    assert_eq!(hint_label(&vec![HOLD, UNDO], &keys, &translates), "Undo");
    assert_eq!(hint_label(&vec![UNDO, HOLD], &keys, &translates), "?");
    assert_eq!(hint_label(&vec![MENU], &keys, &translates), "?");
    assert_eq!(hint_label(&vec![99], &keys, &translates), "?");
    assert_eq!(hint_label(&vec![], &keys, &translates), "?");
    assert_eq!(
        input_hint_names(&vec![vec![HOLD, UNDO], vec![REDO]], &keys, &translates),
        vec!["Undo".to_string(), "?".to_string()]
    );
}

struct Shop {
    keys: SelectionKeys,
    machines: Id,
    belts: Id,
    wrench: Id,
    categories: Vec<Category>,
    tiles: Vec<TileDef>,
    miner: Id,
    belt: Id,
    ground: Id,
    lab: Id,
}

fn shop() -> Shop {
    let mut interner = Interner::new();
    let keys = SelectionKeys {
        category: interner.intern("category"),
        default_tile: interner.intern("default_tile"),
        player_inventory: interner.intern("player_inventory"),
    };
    let machines = interner.intern("machines");
    let belts = interner.intern("belts");
    let wrench = interner.intern("wrench");
    let icon = interner.intern("icon");
    let model = interner.intern("model");
    let miner = interner.intern("miner");
    let belt = interner.intern("belt");
    let ground = interner.intern("ground");
    let lab = interner.intern("lab");
    let categories = vec![
        Category { id: machines, icon, item: Some(wrench) },
        Category { id: belts, icon, item: None },
    ];
    let mut miner_data = DataMap::new();
    miner_data.insert(keys.category, Data::Id(machines));
    let mut belt_data = DataMap::new();
    belt_data.insert(keys.category, Data::Id(belts));
    let mut ground_data = DataMap::new();
    ground_data.insert(keys.default_tile, Data::Bool(true));
    let mut lab_data = DataMap::new();
    lab_data.insert(keys.category, Data::Id(machines));
    lab_data.insert(keys.default_tile, Data::Bool(false));
    let tiles = vec![
        TileDef { id: miner, model, data: miner_data },
        TileDef { id: belt, model: icon, data: belt_data },
        TileDef { id: ground, model, data: ground_data },
        TileDef { id: lab, model, data: lab_data },
    ];
    Shop { keys, machines, belts, wrench, categories, tiles, miner, belt, ground, lab }
}

#[test]
fn a_category_without_an_item_is_always_open() {
    let shop = shop();
    assert!(has_category_item(&shop.categories, &DataMap::new(), shop.keys, shop.belts));
    assert_eq!(find_category(&shop.categories, shop.belts), Some(shop.categories[1]));
    assert_eq!(find_category(&shop.categories, shop.wrench), None);
}

#[test]
fn a_category_with_an_item_needs_it_in_the_inventory() {
    let shop = shop();
    let mut game_data = DataMap::new();
    assert!(!has_category_item(&shop.categories, &game_data, shop.keys, shop.machines));
    game_data.insert(shop.keys.player_inventory, Data::Amount(5));
    assert!(!has_category_item(&shop.categories, &game_data, shop.keys, shop.machines));
    game_data.insert(
        shop.keys.player_inventory,
        Data::Inventory(Inventory { stacks: vec![ItemStack { id: shop.wrench, amount: 0 }] }),
    );
    assert!(!has_category_item(&shop.categories, &game_data, shop.keys, shop.machines));
    game_data.insert(
        shop.keys.player_inventory,
        Data::Inventory(Inventory { stacks: vec![ItemStack { id: shop.wrench, amount: 1 }] }),
    );
    assert!(has_category_item(&shop.categories, &game_data, shop.keys, shop.machines));
}

#[test]
fn tiles_are_offered_by_category() {
    let shop = shop();
    let order = vec![shop.lab, shop.ground, shop.belt, shop.miner, shop.wrench];
    let model = shop.tiles[0].model;
    assert_eq!(
        tile_choices(&shop.tiles, &order, shop.keys, &vec![], Some(shop.machines), true),
        vec![
            TileChoice { id: shop.lab, model, default_tile: false, active: true },
            TileChoice { id: shop.ground, model, default_tile: true, active: true },
            TileChoice { id: shop.miner, model, default_tile: false, active: true },
        ]
    );
    assert_eq!(
        tile_choices(&shop.tiles, &order, shop.keys, &vec![], None, false),
        vec![TileChoice { id: shop.ground, model, default_tile: true, active: true }]
    );
    assert_eq!(find_tile_def(&shop.tiles, shop.belt), Some(1));
    assert_eq!(find_tile_def(&shop.tiles, shop.wrench), None);
}

#[test]
fn locked_tiles_are_held_back_and_missing_items_deactivate() {
    let shop = shop();
    let order = vec![shop.miner, shop.lab, shop.ground];
    let model = shop.tiles[0].model;
    assert_eq!(
        tile_choices(
            &shop.tiles,
            &order,
            shop.keys,
            &vec![shop.lab, shop.ground],
            Some(shop.machines),
            false
        ),
        vec![
            TileChoice { id: shop.miner, model, default_tile: false, active: false },
            TileChoice { id: shop.ground, model, default_tile: true, active: true },
        ]
    );
}
