use display::assets::sprite::SpriteId;
use display::assets::texture::id::DynamicTextureParams;
use display::assets::texture::TextureId;
use display::render::Color;

#[test]
fn default_texture_is_the_placeholder() {
    assert_eq!(TextureId::default(), TextureId::Missing);
}

#[test]
fn default_sprite_is_missing_no() {
    assert_eq!(SpriteId::default(), SpriteId::MissingNo);
}

#[test]
fn default_dynamic_params_are_one_white_pixel() {
    let params = DynamicTextureParams::default();
    assert_eq!(params.size, 1);
    assert_eq!(params.color, Color { r: 255, g: 255, b: 255, a: 255 });
    assert_eq!(params.color, Color::from([255, 255, 255, 255]));
}

#[test]
fn dynamic_identifiers_are_equal_by_value() {
    let a = TextureId::Dynamic(DynamicTextureParams { size: 4, color: Color::from_rgb(1, 2, 3) });
    let b = TextureId::Dynamic(DynamicTextureParams { size: 4, color: Color::from_rgba(1, 2, 3, 255) });
    let c = TextureId::Dynamic(DynamicTextureParams { size: 5, color: Color::from_rgb(1, 2, 3) });
    let d = TextureId::Dynamic(DynamicTextureParams { size: 4, color: Color::from_rgba(1, 2, 3, 0) });
    assert_eq!(a, b);
    assert_ne!(a, c);
    assert_ne!(a, d);
    assert_ne!(a, TextureId::Missing);
}

#[test]
fn color_from_channels() {
    assert_eq!(Color::from([1, 2, 3, 4]), Color { r: 1, g: 2, b: 3, a: 4 });
    assert_eq!(Color::from_rgba(9, 8, 7, 6), Color { r: 9, g: 8, b: 7, a: 6 });
    assert_eq!(Color::from_rgb(9, 8, 7), Color { r: 9, g: 8, b: 7, a: 255 });
}
