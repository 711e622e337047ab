//! The key hints: for each hinted combination of actions, what it is called
//! and which keys it takes.

use crate::id::Id;
use crate::resource::{find_label, label_or, labels, Translates};
use crate::seqs::{filter_map, lemma_filter_map_push};
use crate::text::{joined, lemma_joined_push, upper, uppercase_of};
use vstd::prelude::*;
use vstd::string::StringExecFns;

verus! {

/// A kind of input action, by its number.
pub type ActionType = u32;

/// What a key does: the action it starts, and the handle of the action's
/// display name where it has one.
#[derive(Debug, Clone, Copy, PartialEq, Eq, Structural)]
pub struct KeyAction {
    pub action: ActionType,
    pub name: Option<Id>,
}

/// A key that has a name of its own.
#[derive(Debug, Clone, Copy, PartialEq, Eq, Structural)]
pub enum NamedKey {
    Alt,
    Control,
    Shift,
    Delete,
    Backspace,
    Enter,
    Escape,
    Tab,
    F1,
    F2,
    F3,
    F4,
    F5,
    F6,
    F7,
    F8,
    F9,
    F10,
    F11,
    F12,
    ArrowLeft,
    ArrowUp,
    ArrowDown,
    ArrowRight,
    /// Any other named key.
    Other,
}

/// A key of the keyboard.
#[derive(Debug, PartialEq, Eq)]
pub enum Key {
    /// A key that types the given characters.
    Character(String),
    /// A key with a name.
    Named(NamedKey),
    /// A key of neither kind.
    Unidentified,
}

/// What a [`Key`] holds.
pub enum KeyView {
    Character(Seq<char>),
    Named(NamedKey),
    Unidentified,
}

impl View for Key {
    type V = KeyView;

    open spec fn view(&self) -> KeyView {
        match self {
            Key::Character(text) => KeyView::Character(text@),
            Key::Named(named) => KeyView::Named(*named),
            Key::Unidentified => KeyView::Unidentified,
        }
    }
}

/// What a list of key bindings holds.
pub open spec fn bindings(key_map: Seq<(Key, KeyAction)>) -> Seq<(KeyView, KeyAction)> {
    key_map.map_values(|binding: (Key, KeyAction)| (binding.0@, binding.1))
}

/// The text that stands for a named key in a hint.
pub open spec fn named_key_text(named: NamedKey) -> Seq<char> {
    match named {
        NamedKey::Alt => "Alt"@,
        NamedKey::Control => "Ctrl"@,
        NamedKey::Shift => "Shift"@,
        NamedKey::Delete => "Del"@,
        NamedKey::Backspace => "Backspace"@,
        NamedKey::Enter => "Enter"@,
        NamedKey::Escape => "Esc"@,
        NamedKey::Tab => "Tab"@,
        NamedKey::F1 => "F1"@,
        NamedKey::F2 => "F2"@,
        NamedKey::F3 => "F3"@,
        NamedKey::F4 => "F4"@,
        NamedKey::F5 => "F5"@,
        NamedKey::F6 => "F6"@,
        NamedKey::F7 => "F7"@,
        NamedKey::F8 => "F8"@,
        NamedKey::F9 => "F9"@,
        NamedKey::F10 => "F10"@,
        NamedKey::F11 => "F11"@,
        NamedKey::F12 => "F12"@,
        NamedKey::ArrowLeft => "Left"@,
        NamedKey::ArrowUp => "Up"@,
        NamedKey::ArrowDown => "Down"@,
        NamedKey::ArrowRight => "Right"@,
        NamedKey::Other => "<?>"@,
    }
}

/// The text that stands for a key in a hint: a character key in upper case,
/// a named key by its short name, any other key not at all.
pub open spec fn key_text(key: KeyView) -> Option<Seq<char>> {
    match key {
        KeyView::Character(text) => Some(uppercase_of(text)),
        KeyView::Named(named) => Some(named_key_text(named)),
        KeyView::Unidentified => None,
    }
}

/// The first binding of the list that starts `action`.
pub open spec fn binding_for(list: Seq<(KeyView, KeyAction)>, action: ActionType) -> Option<
    (KeyView, KeyAction),
>
    decreases list.len(),
{
    if list.len() == 0 {
        None
    } else if list[0].1.action == action {
        Some(list[0])
    } else {
        binding_for(list.drop_first(), action)
    }
}

/// The text of the key that starts an action, where a key starts it and has
/// a text.
pub open spec fn action_key_text(list: Seq<(KeyView, KeyAction)>) -> spec_fn(ActionType) -> Option<
    Seq<char>,
> {
    |action: ActionType|
        match binding_for(list, action) {
            Some(binding) => key_text(binding.0),
            None => None,
        }
}

/// The separator between the keys of one hint.
pub const KEY_SEPARATOR: &'static str = " + ";

/// The keys of a hint: the texts of the keys of its actions, joined.
pub open spec fn hint_keys(hint: Seq<ActionType>, list: Seq<(KeyView, KeyAction)>) -> Seq<char> {
    joined(filter_map(hint, action_key_text(list)), KEY_SEPARATOR@)
}

/// The name of a hint: the display name of its last action, as the first
/// key bound to that action names it; `unnamed` where there is none.
pub open spec fn hint_name(
    hint: Seq<ActionType>,
    list: Seq<(KeyView, KeyAction)>,
    key_labels: Seq<(Id, Seq<char>)>,
    unnamed: Seq<char>,
) -> Seq<char> {
    if hint.len() == 0 {
        unnamed
    } else {
        match binding_for(list, hint.last()) {
            Some(binding) => match binding.1.name {
                Some(name) => label_or(key_labels, name, unnamed),
                None => unnamed,
            },
            None => unnamed,
        }
    }
}

/// The short name of a named key.
pub fn named_key_label(named: NamedKey) -> (text: &'static str)
    ensures
        text@ == named_key_text(named),
{
    match named {
        NamedKey::Alt => "Alt",
        NamedKey::Control => "Ctrl",
        NamedKey::Shift => "Shift",
        NamedKey::Delete => "Del",
        NamedKey::Backspace => "Backspace",
        NamedKey::Enter => "Enter",
        NamedKey::Escape => "Esc",
        NamedKey::Tab => "Tab",
        NamedKey::F1 => "F1",
        NamedKey::F2 => "F2",
        NamedKey::F3 => "F3",
        NamedKey::F4 => "F4",
        NamedKey::F5 => "F5",
        NamedKey::F6 => "F6",
        NamedKey::F7 => "F7",
        NamedKey::F8 => "F8",
        NamedKey::F9 => "F9",
        NamedKey::F10 => "F10",
        NamedKey::F11 => "F11",
        NamedKey::F12 => "F12",
        NamedKey::ArrowLeft => "Left",
        NamedKey::ArrowUp => "Up",
        NamedKey::ArrowDown => "Down",
        NamedKey::ArrowRight => "Right",
        NamedKey::Other => "<?>",
    }
}

/// The text that stands for `key` in a hint.
pub fn key_label(key: &Key) -> (text: Option<String>)
    ensures
        match text {
            Some(text) => key_text(key@) == Some(text@),
            None => key_text(key@) is None,
        },
{
    match key {
        Key::Character(text) => Some(upper(text.as_str())),
        Key::Named(named) => Some(String::from_str(named_key_label(*named))),
        Key::Unidentified => None,
    }
}

/// The position of the first binding that starts `action`.
pub fn find_binding(key_map: &Vec<(Key, KeyAction)>, action: ActionType) -> (found: Option<usize>)
    ensures
        match found {
            Some(i) => i < key_map@.len() && binding_for(bindings(key_map@), action) == Some(
                (key_map@[i as int].0@, key_map@[i as int].1),
            ),
            None => binding_for(bindings(key_map@), action) is None,
        },
{
    let ghost all = bindings(key_map@);
    let mut i: usize = 0;
    assert(all.skip(0) =~= all);
    while i < key_map.len()
        invariant
            all == bindings(key_map@),
            i <= key_map@.len(),
            binding_for(all, action) == binding_for(all.skip(i as int), action),
        decreases key_map@.len() - i,
    {
        let ghost rest = all.skip(i as int);
        assert(rest[0] == all[i as int]);
        if key_map[i].1.action == action {
            return Some(i);
        }
        assert(rest.drop_first() =~= all.skip(i + 1));
        i += 1;
    }
    None
}

/// The texts of a list of strings.
pub open spec fn texts(strings: Seq<String>) -> Seq<Seq<char>> {
    strings.map_values(|text: String| text@)
}

/// The texts of the keys of one hint, one for each action that a key with a
/// text starts, in order.
pub fn hint_key_labels(hint: &Vec<ActionType>, key_map: &Vec<(Key, KeyAction)>) -> (found: Vec<
    String,
>)
    ensures
        texts(found@) == filter_map(hint@, action_key_text(bindings(key_map@))),
{
    let ghost part = action_key_text(bindings(key_map@));
    let mut found: Vec<String> = Vec::new();
    let mut i: usize = 0;
    assert(texts(found@) =~= filter_map(hint@.take(0), part));
    while i < hint.len()
        invariant
            part == action_key_text(bindings(key_map@)),
            i <= hint@.len(),
            texts(found@) == filter_map(hint@.take(i as int), part),
        decreases hint@.len() - i,
    {
        proof {
            lemma_filter_map_push(hint@.take(i as int), hint@[i as int], part);
            assert(hint@.take(i + 1) =~= hint@.take(i as int).push(hint@[i as int]));
        }
        if let Some(at) = find_binding(key_map, hint[i]) {
            if let Some(label) = key_label(&key_map[at].0) {
                let ghost before = found@;
                found.push(label);
                assert(texts(found@) =~= texts(before).push(label@));
            }
        }
        i += 1;
    }
    assert(hint@.take(hint@.len() as int) =~= hint@);
    found
}

/// The texts of keys in a row, with the separator between each two.
pub fn join_keys(labels: &Vec<String>) -> (text: String)
    ensures
        text@ == joined(texts(labels@), KEY_SEPARATOR@),
{
    let mut text = String::new();
    let mut i: usize = 0;
    assert(texts(labels@).take(0) =~= Seq::<Seq<char>>::empty());
    while i < labels.len()
        invariant
            i <= labels@.len(),
            text@ == joined(texts(labels@).take(i as int), KEY_SEPARATOR@),
        decreases labels@.len() - i,
    {
        proof {
            let all = texts(labels@);
            lemma_joined_push(all.take(i as int), all[i as int], KEY_SEPARATOR@);
            assert(all.take(i + 1) =~= all.take(i as int).push(all[i as int]));
        }
        if i > 0 {
            text.append(KEY_SEPARATOR);
        }
        text.append(labels[i].as_str());
        i += 1;
    }
    assert(texts(labels@).take(labels@.len() as int) =~= texts(labels@));
    text
}

/// The keys of one hint.
pub fn hint_key_text(hint: &Vec<ActionType>, key_map: &Vec<(Key, KeyAction)>) -> (text: String)
    ensures
        text@ == hint_keys(hint@, bindings(key_map@)),
{
    join_keys(&hint_key_labels(hint, key_map))
}

/// The name of one hint.
pub fn hint_label(
    hint: &Vec<ActionType>,
    key_map: &Vec<(Key, KeyAction)>,
    translates: &Translates,
) -> (text: String)
    ensures
        text@ == hint_name(
            hint@,
            bindings(key_map@),
            labels(translates.keys@),
            translates.unnamed@,
        ),
{
    if hint.len() == 0 {
        return translates.unnamed.clone();
    }
    let action = hint[hint.len() - 1];
    if let Some(at) = find_binding(key_map, action) {
        if let Some(name) = key_map[at].1.name {
            if let Some(label) = find_label(&translates.keys, name) {
                return String::from_str(label);
            }
        }
    }
    translates.unnamed.clone()
}

/// The names of the hints, one for each hint, in order.
pub fn input_hint_names(
    hints: &Vec<Vec<ActionType>>,
    key_map: &Vec<(Key, KeyAction)>,
    translates: &Translates,
) -> (names: Vec<String>)
    ensures
        names@.len() == hints@.len(),
        forall|i: int|
            0 <= i < hints@.len() ==> (#[trigger] names@[i])@ == hint_name(
                hints@[i]@,
                bindings(key_map@),
                labels(translates.keys@),
                translates.unnamed@,
            ),
{
    let mut names: Vec<String> = Vec::new();
    let mut i: usize = 0;
    while i < hints.len()
        invariant
            i <= hints@.len(),
            names@.len() == i,
            forall|k: int|
                0 <= k < i ==> (#[trigger] names@[k])@ == hint_name(
                    hints@[k]@,
                    bindings(key_map@),
                    labels(translates.keys@),
                    translates.unnamed@,
                ),
        decreases hints@.len() - i,
    {
        names.push(hint_label(&hints[i], key_map, translates));
        i += 1;
    }
    names
}

/// The keys of the hints, one text for each hint, in order.
pub fn input_hint_keys(hints: &Vec<Vec<ActionType>>, key_map: &Vec<(Key, KeyAction)>) -> (keys: Vec<
    String,
>)
    ensures
        keys@.len() == hints@.len(),
        forall|i: int|
            0 <= i < hints@.len() ==> (#[trigger] keys@[i])@ == hint_keys(
                hints@[i]@,
                bindings(key_map@),
            ),
{
    let mut keys: Vec<String> = Vec::new();
    let mut i: usize = 0;
    while i < hints.len()
        invariant
            i <= hints@.len(),
            keys@.len() == i,
            forall|k: int|
                0 <= k < i ==> (#[trigger] keys@[k])@ == hint_keys(hints@[k]@, bindings(key_map@)),
        decreases hints@.len() - i,
    {
        keys.push(hint_key_text(&hints[i], key_map));
        i += 1;
    }
    keys
}

/// The two columns of the key hints: what each hint is called, and which
/// keys it takes.
#[derive(Debug, PartialEq, Eq)]
pub struct HintColumns {
    pub names: Vec<String>,
    pub keys: Vec<String>,
}

/// The key hints as they are shown below the other information: the names
/// of the hints in one column, their keys in the other.
pub fn rest_of_the_info(
    hints: &Vec<Vec<ActionType>>,
    key_map: &Vec<(Key, KeyAction)>,
    translates: &Translates,
) -> (columns: HintColumns)
    ensures
        columns.names@.len() == hints@.len(),
        columns.keys@.len() == hints@.len(),
        forall|i: int|
            0 <= i < hints@.len() ==> (#[trigger] columns.names@[i])@ == hint_name(
                hints@[i]@,
                bindings(key_map@),
                labels(translates.keys@),
                translates.unnamed@,
            ),
        forall|i: int|
            0 <= i < hints@.len() ==> (#[trigger] columns.keys@[i])@ == hint_keys(
                hints@[i]@,
                bindings(key_map@),
            ),
{
    HintColumns {
        names: input_hint_names(hints, key_map, translates),
        keys: input_hint_keys(hints, key_map),
    }
}

} // verus!
