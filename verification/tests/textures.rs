use imgui_sdl3_renderer::canvas::Texture;
use imgui_sdl3_renderer::textures::TextureMap;

#[test]
fn ids_are_handed_out_in_sequence() {
    let mut map = TextureMap::new();
    let a = Texture { handle: 11, width: 4, height: 8 };
    let b = Texture { handle: 22, width: 16, height: 32 };
    assert_eq!(map.insert(a), 0);
    assert_eq!(map.insert(b), 1);
    assert_eq!(map.insert(a), 2);
    assert_eq!(map.get(0), Some(a));
    assert_eq!(map.get(1), Some(b));
    assert_eq!(map.get(2), Some(a));
}

#[test]
fn an_unknown_id_resolves_to_nothing() {
    let mut map = TextureMap::new();
    assert_eq!(map.get(0), None);
    let id = map.insert(Texture { handle: 5, width: 1, height: 1 });
    assert_eq!(map.get(id + 1), None);
    assert_eq!(map.get(usize::MAX), None);
}

#[test]
fn earlier_entries_stay_when_more_are_registered() {
    let mut map = TextureMap::new();
    let first = Texture { handle: 1, width: 2, height: 3 };
    let id = map.insert(first);
    for handle in 2..50usize {
        map.insert(Texture { handle, width: 9, height: 9 });
        assert_eq!(map.get(id), Some(first));
    }
    assert_eq!(map.get(30), Some(Texture { handle: 31, width: 9, height: 9 }));
}

#[test]
fn try_insert_hands_out_the_next_id() {
    let mut map = TextureMap::new();
    let a = Texture { handle: 1, width: 2, height: 3 };
    let b = Texture { handle: 4, width: 5, height: 6 };
    assert!(!map.is_full());
    assert_eq!(map.try_insert(a), Some(0));
    assert_eq!(map.insert(b), 1);
    assert_eq!(map.try_insert(a), Some(2));
    assert!(!map.is_full());
    assert_eq!(map.get(0), Some(a));
    assert_eq!(map.get(1), Some(b));
    assert_eq!(map.get(2), Some(a));
    assert_eq!(map.get(3), None);
}
