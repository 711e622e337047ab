use automancy::id::{Id, IdRaw, Interner};

#[test]
fn intern_then_resolve_gives_the_name_back() {
    let mut interner = Interner::new();
    let stone = interner.intern("automancy:stone");
    assert_eq!(interner.resolve(stone), Some("automancy:stone"));
}

#[test]
fn interning_twice_gives_the_same_handle() {
    let mut interner = Interner::new();
    let first = interner.intern("automancy:stone");
    let other = interner.intern("automancy:ore");
    let second = interner.intern("automancy:stone");
    assert_eq!(first, second);
    assert_ne!(first, other);
    assert_eq!(interner.len(), 2);
}

#[test]
fn get_does_not_intern() {
    let mut interner = Interner::new();
    assert_eq!(interner.get("a"), None);
    assert_eq!(interner.len(), 0);
    let a = interner.intern("a");
    assert_eq!(interner.get("a"), Some(a));
    assert_eq!(interner.get("b"), None);
}

#[test]
fn resolve_fails_for_a_handle_never_issued() {
    let mut interner = Interner::new();
    let a = interner.intern("a");
    assert_eq!(a.to_raw(), 0);
    assert_eq!(interner.resolve(Id::from_raw(1)), None);
    assert_eq!(interner.resolve(Id::from_raw(0)), Some("a"));
}

#[test]
fn raw_name_interns_itself() {
    let mut interner = Interner::new();
    let raw = IdRaw::parse("automancy:tile");
    assert_eq!(raw.as_str(), "automancy:tile");
    assert_eq!(raw.to_string(), "automancy:tile".to_string());
    let id = raw.to_id(&mut interner);
    assert_eq!(interner.resolve(id), Some("automancy:tile"));
    assert_eq!(raw.to_id(&mut interner), id);
}

#[test]
fn many_names_keep_their_handles() {
    let mut interner = Interner::new();
    let mut ids = Vec::new();
    for n in 0..2000u64 {
        let id = interner.intern(&format!("name-{n}"));
        assert_eq!(id.to_raw(), n);
        ids.push(id);
    }
    assert_eq!(interner.len(), 2000);
    for n in (0..2000u64).rev() {
        let name = format!("name-{n}");
        assert_eq!(interner.get(&name), Some(ids[n as usize]));
        assert_eq!(interner.intern(&name), ids[n as usize]);
        assert_eq!(interner.resolve(ids[n as usize]), Some(name.as_str()));
    }
    assert_eq!(interner.len(), 2000);
    assert_eq!(interner.get("name-2000"), None);
}

#[test]
fn names_are_told_apart_exactly() {
    let mut interner = Interner::new();
    let empty = interner.intern("");
    let a = interner.intern("a");
    let upper = interner.intern("A");
    let accent = interner.intern("á");
    let long = interner.intern("aa");
    let ids = [empty, a, upper, accent, long];
    for (i, x) in ids.iter().enumerate() {
        for (j, y) in ids.iter().enumerate() {
            assert_eq!(x == y, i == j);
        }
    }
    assert_eq!(interner.resolve(accent), Some("á"));
    assert_eq!(interner.get(""), Some(empty));
}
