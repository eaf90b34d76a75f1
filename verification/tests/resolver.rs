use display::assets::file::external_path;
use display::assets::file::Path;
use display::assets::loader::Resolver;
use display::assets::texture::TextureId;
use display::assets::AssetId;

fn key(id: TextureId) -> AssetId {
    AssetId::from(id)
}

#[test]
fn path_keeps_its_text() {
    assert_eq!(Path::new("textures/blue.png").as_str(), "textures/blue.png");
    assert_eq!(Path::new_owned(String::from("a/b")).to_string(), "a/b");
    assert_eq!(Path::new("").as_str(), "");
}

#[test]
fn path_join_puts_one_slash_between() {
    assert_eq!(Path::new("textures").join("blue.png").as_str(), "textures/blue.png");
    assert_eq!(Path::new("").join("x").as_str(), "/x");
    assert_eq!(Path::new("a/").join("").as_str(), "a//");
}

#[test]
fn path_clone_is_equal_text() {
    let path = Path::new("textures/mob.png");
    assert_eq!(path.clone().as_str(), path.as_str());
}

#[test]
fn asset_id_wraps_the_texture_id() {
    assert_eq!(AssetId::from(TextureId::Mob0), AssetId::Texture(TextureId::Mob0));
    assert_ne!(AssetId::from(TextureId::Mob0), AssetId::from(TextureId::Mob1));
    let through_into: AssetId = TextureId::Missing.into();
    assert_eq!(through_into, AssetId::Texture(TextureId::Missing));
}

#[test]
fn resolver_prefixes_the_base_directory() {
    let table = vec![
        (key(TextureId::BluePlatform), String::from("blue.png")),
        (key(TextureId::Missing), String::from("missing.png")),
    ];
    let resolver = Resolver::new("textures", Some(table));
    let blue = resolver.get(key(TextureId::BluePlatform));
    assert_eq!(blue.map(|p| p.to_string()), Some(String::from("textures/blue.png")));
    let missing = resolver.get(key(TextureId::Missing));
    assert_eq!(missing.map(|p| p.to_string()), Some(String::from("textures/missing.png")));
}

#[test]
fn resolver_returns_none_for_what_is_not_listed() {
    let table = vec![(key(TextureId::BluePlatform), String::from("blue.png"))];
    let resolver = Resolver::new("textures", Some(table));
    assert!(resolver.get(key(TextureId::GreenPlatform)).is_none());
    assert!(resolver.get(key(TextureId::Missing)).is_none());
}

#[test]
fn resolver_without_a_table_resolves_nothing() {
    let resolver = Resolver::new("textures", None);
    let all = [
        TextureId::DoodleLeft,
        TextureId::DoodleRight,
        TextureId::BluePlatform,
        TextureId::GreenPlatform,
        TextureId::RedPlatform,
        TextureId::WhitePlatform,
        TextureId::CrackedPlatform0,
        TextureId::CrackedPlatform1,
        TextureId::CrackedPlatform2,
        TextureId::CrackedPlatform3,
        TextureId::Mob0,
        TextureId::Mob1,
        TextureId::Mob2Left,
        TextureId::Mob2Right,
        TextureId::Missing,
        TextureId::default(),
    ];
    for id in all {
        assert!(resolver.get(key(id)).is_none());
    }
}

#[test]
fn resolver_with_an_empty_table_resolves_nothing() {
    let resolver = Resolver::new("textures", Some(Vec::new()));
    assert!(resolver.get(key(TextureId::BluePlatform)).is_none());
}

#[test]
fn resolver_last_entry_for_an_identifier_counts() {
    let table = vec![
        (key(TextureId::Mob0), String::from("old.png")),
        (key(TextureId::Mob1), String::from("other.png")),
        (key(TextureId::Mob0), String::from("new.png")),
    ];
    let resolver = Resolver::new("t", Some(table));
    assert_eq!(resolver.get(key(TextureId::Mob0)).map(|p| p.to_string()), Some(String::from("t/new.png")));
    assert_eq!(resolver.get(key(TextureId::Mob1)).map(|p| p.to_string()), Some(String::from("t/other.png")));
}

#[test]
fn resolver_does_not_change_the_listed_path() {
    let table = vec![(key(TextureId::Mob0), String::from("sub/dir/mob.png"))];
    let resolver = Resolver::new("base/dir", Some(table));
    assert_eq!(
        resolver.get(key(TextureId::Mob0)).map(|p| p.to_string()),
        Some(String::from("base/dir/sub/dir/mob.png"))
    );
}

fn by_std(root: &str, p: &str) -> String {
    format!("{}/resources/external/{}", root, p).replace("\\", "/").replace("//", "/")
}

#[test]
fn external_path_joins_root_and_asset() {
    assert_eq!(external_path("/opt/game", "textures/blue.png"), "/opt/game/resources/external/textures/blue.png");
    assert_eq!(external_path("", ""), "/resources/external/");
}

#[test]
fn external_path_turns_backslashes_into_slashes() {
    assert_eq!(
        external_path("C:\\games\\doodle", "textures\\blue.png"),
        "C:/games/doodle/resources/external/textures/blue.png"
    );
}

#[test]
fn external_path_makes_pairs_of_slashes_one() {
    assert_eq!(external_path("/opt/game/", "/blue.png"), "/opt/game/resources/external/blue.png");
    assert_eq!(external_path("a\\/b", "c/\\d"), "a/b/resources/external/c/d");
    // Pairs do not overlap: three slashes in a row leave two, four leave two.
    assert_eq!(external_path("a", "//b"), "a/resources/external//b");
    assert_eq!(external_path("a", "///b"), "a/resources/external//b");
    assert_eq!(external_path("a", "////b"), "a/resources/external///b");
}

#[test]
fn external_path_agrees_with_the_standard_replace() {
    let parts = ["", "/", "//", "\\", "a", "a/", "/a", "\\\\a\\", "é/ü", "a//b///c////d", "/\\/\\/"];
    for root in parts {
        for p in parts {
            assert_eq!(external_path(root, p), by_std(root, p));
        }
    }
}
