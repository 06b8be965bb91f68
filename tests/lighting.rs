use rgraphics::color::Color;
use rgraphics::light::{pack_lights, Light, LightType, SpotLightInfo, Vec4, MAX_LIGHTS};
use rgraphics::material::Material;
use rgraphics::text::UNIT;
use rgraphics::vertex::Vec3;

#[test]
fn colors() {
    assert_eq!(Color::rgba(1, 2, 3, 4), Color { r: 1, g: 2, b: 3, a: 4 });
    assert_eq!(Color::rgb(1, 2, 3), Color { r: 1, g: 2, b: 3, a: 255 });
    assert_eq!(Color::black(), Color { r: 0, g: 0, b: 0, a: 255 });
    assert_eq!(Color::white(), Color { r: 255, g: 255, b: 255, a: 255 });
    assert_eq!(Color::gray(), Color { r: 128, g: 128, b: 128, a: 255 });
    assert_eq!(Color::red(), Color { r: 255, g: 0, b: 0, a: 255 });
    assert_eq!(Color::green(), Color { r: 0, g: 255, b: 0, a: 255 });
    assert_eq!(Color::blue(), Color { r: 0, g: 0, b: 255, a: 255 });
    assert_eq!(Color::rgba(9, 8, 7, 6).channels(), [9, 8, 7, 6]);
}

fn point(i: i128) -> Light {
    Light::new_point(Vec3 { x: i, y: 0, z: 0 }, Color::white(), Color::red(), Color::black())
}

#[test]
fn light_records() {
    let dir = Vec3 { x: 0, y: -UNIT, z: 0 };
    let pos = Vec3 { x: 1, y: 2, z: 3 };
    let d = Light::new_directional(dir, Color::white(), Color::white(), Color::black()).to_record();
    assert_eq!(d.light_type, 0);
    assert_eq!(d.position, Vec4 { x: 0, y: 0, z: 0, w: UNIT });
    assert_eq!(d.direction, Vec4 { x: 0, y: -UNIT, z: 0, w: 0 });
    let p = point(5).to_record();
    assert_eq!(p.light_type, 1);
    assert_eq!(p.position, Vec4 { x: 5, y: 0, z: 0, w: UNIT });
    assert_eq!(p.direction, Vec4 { x: 0, y: 0, z: 0, w: 0 });
    assert_eq!(p.diffuse_color, Color::white());
    assert_eq!(p.specular_color, Color::red());
    assert_eq!(p.ambient_color, Color::black());
    let info = SpotLightInfo { inner_radius: 10, outer_radius: 20, falloff: 30 };
    let s = Light::new_spot(pos, dir, info, Color::blue(), Color::green(), Color::gray()).to_record();
    assert_eq!(s.light_type, 2);
    assert_eq!(s.position, Vec4 { x: 1, y: 2, z: 3, w: UNIT });
    assert_eq!(s.direction, Vec4 { x: 0, y: -UNIT, z: 0, w: 0 });
    assert_eq!((s.spotlight_inner, s.spotlight_outer, s.spotlight_falloff), (10, 20, 30));
    let l = Light::new(LightType::Point(pos), Color::red(), Color::green(), Color::blue());
    assert_eq!(l.light_type, LightType::Point(pos));
}

#[test]
fn lights_are_truncated() {
    let lights: Vec<Light> = (0..11).map(|i| point(i as i128)).collect();
    let up = pack_lights(&lights);
    assert_eq!(up.count, MAX_LIGHTS as i32);
    assert_eq!(up.records.len(), MAX_LIGHTS);
    for i in 0..MAX_LIGHTS {
        assert_eq!(up.records[i], lights[i].to_record());
    }
}

#[test]
fn few_lights_leave_zero_slots() {
    let up = pack_lights(&[point(1), point(2)]);
    assert_eq!(up.count, 2);
    assert_eq!(up.records.len(), MAX_LIGHTS);
    assert_eq!(up.records[1].position.x, 2);
    assert_eq!(up.records[2].light_type, 0);
    assert_eq!(up.records[2].position, Vec4 { x: 0, y: 0, z: 0, w: 0 });
    assert_eq!(up.records[7].diffuse_color, Color { r: 0, g: 0, b: 0, a: 0 });
    let none = pack_lights(&[]);
    assert_eq!(none.count, 0);
    assert_eq!(none.records.len(), MAX_LIGHTS);
}

#[test]
fn material_records() {
    let m = Material::Untextured {
        diffuse_color: Color::gray(),
        ambient_color: Color::black(),
        specular_color: Color::white(),
        specular_power: 3 * UNIT,
    }
    .to_record();
    assert_eq!(m.diffuse_color, Color::gray());
    assert_eq!(m.specular_color, Color::white());
    assert_eq!(m.specular_power, 3 * UNIT);
    assert_eq!((m.use_diffuse_texture, m.use_specular_texture), (0, 0));
    let t = Material::Textured { ambient_color: Color::red(), diffuse_texture: 0, specular_texture: 1 }
        .to_record();
    assert_eq!(t.diffuse_color, Color::black());
    assert_eq!(t.specular_color, Color::black());
    assert_eq!(t.ambient_color, Color::red());
    assert_eq!(t.specular_power, UNIT);
    assert_eq!((t.use_diffuse_texture, t.use_specular_texture), (1, 1));
}
