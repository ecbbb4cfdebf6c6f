use duku::target::Builtins;
use duku::target::Target;

type Matrix = [[f32; 4]; 4];

const IDENTITY: Matrix = [
    [1.0, 0.0, 0.0, 0.0],
    [0.0, 1.0, 0.0, 0.0],
    [0.0, 0.0, 1.0, 0.0],
    [0.0, 0.0, 0.0, 1.0],
];

fn builtins() -> Builtins {
    Builtins {
        phong_shader: 1,
        font_shader: 2,
        blit_shader: 3,
        wireframe_shader: 4,
        white_material: 10,
        white_texture: 20,
        roboto_font: 30,
        cube_mesh: 40,
        sphere_mesh: 41,
        surface_mesh: 42,
    }
}

fn moved_x(x: f32) -> Matrix {
    let mut m = IDENTITY;
    m[3][0] = x;
    m
}

#[test]
fn three_materials_then_first_again() {
    let mut target: Target<Matrix, u8> = Target::new(builtins(), IDENTITY);
    target.set_material(100);
    target.draw_cube(moved_x(1.0));
    target.set_material(101);
    target.draw_cube(moved_x(2.0));
    target.set_material(102);
    target.draw_cube(moved_x(3.0));
    target.set_material(100);
    target.draw_cube(moved_x(4.0));

    let shaders = target.orders_by_shader();
    assert_eq!(shaders.len(), 1);
    assert_eq!(shaders[0].shader(), 1);
    let materials = shaders[0].orders_by_material();
    assert_eq!(materials.len(), 3);
    assert_eq!(materials[0].material(), 100);
    assert_eq!(materials[1].material(), 101);
    assert_eq!(materials[2].material(), 102);
    let first = materials[0].orders();
    assert_eq!(first.len(), 2);
    assert_eq!(first[0].model[3][0], 1.0);
    assert_eq!(first[1].model[3][0], 4.0);
    assert_eq!(first[0].mesh, 40);
    assert_eq!(materials[1].orders().len(), 1);
    assert_eq!(materials[2].orders().len(), 1);
    assert!(target.has_shadows());
}

#[test]
fn shader_buckets_follow_first_use() {
    let mut target: Target<Matrix, u8> = Target::new(builtins(), IDENTITY);
    target.set_shader(7);
    target.draw(55, IDENTITY);
    target.set_shader(8);
    target.set_material(11);
    target.draw_sphere(IDENTITY);
    target.set_shader(7);
    target.draw(56, IDENTITY);
    let shaders = target.orders_by_shader();
    assert_eq!(shaders.len(), 2);
    assert_eq!(shaders[0].shader(), 7);
    assert_eq!(shaders[1].shader(), 8);
    let seven = shaders[0].orders_by_material();
    assert_eq!(seven.len(), 2);
    assert_eq!(seven[0].material(), 10);
    assert_eq!(seven[0].orders()[0].mesh, 55);
    assert_eq!(seven[1].material(), 11);
    assert_eq!(seven[1].orders()[0].mesh, 56);
    assert_eq!(shaders[1].orders_by_material()[0].orders()[0].mesh, 41);
}

#[test]
fn surface_casts_no_shadows() {
    let mut target: Target<Matrix, u8> = Target::new(builtins(), IDENTITY);
    target.draw_surface();
    assert!(!target.has_shadows());
    let order = target.orders_by_shader()[0].orders_by_material()[0].orders()[0];
    assert_eq!(order.mesh, 42);
    assert!(!order.has_shadows);
    assert_eq!(order.albedo, 20);
    assert_eq!(order.framebuffer, None);
}

#[test]
fn sampler_flags_and_albedo_reach_orders() {
    let mut target: Target<Matrix, u8> = Target::new(builtins(), IDENTITY);
    target.set_albedo_texture(66);
    target.enable_sampler_nearest();
    target.enable_sampler_no_mipmaps();
    target.draw_cube(IDENTITY);
    target.reset();
    target.draw_cube(IDENTITY);
    let orders = target.orders_by_shader()[0].orders_by_material()[0].orders();
    assert_eq!(orders[0].albedo, 66);
    assert_eq!(orders[0].sampler_index, 5);
    assert_eq!(orders[1].albedo, 20);
    assert_eq!(orders[1].sampler_index, 0);
}

#[test]
fn wireframes_copy_orders_into_their_own_bucket() {
    let mut target: Target<Matrix, u8> = Target::new(builtins(), IDENTITY);
    target.enable_wireframes();
    target.set_material(12);
    target.draw_cube(IDENTITY);
    target.set_material(13);
    target.draw_sphere(IDENTITY);
    let shaders = target.orders_by_shader();
    assert_eq!(shaders.len(), 2);
    assert_eq!(shaders[0].shader(), 1);
    assert_eq!(shaders[1].shader(), 4);
    let wire = shaders[1].orders_by_material();
    assert_eq!(wire.len(), 1);
    assert_eq!(wire[0].material(), 10);
    assert_eq!(wire[0].orders().len(), 2);
    assert_eq!(wire[0].orders()[1].mesh, 41);
}

#[test]
fn blit_uses_blit_shader_and_framebuffer() {
    let mut target: Target<Matrix, u8> = Target::new(builtins(), IDENTITY);
    target.blit_framebuffer(90);
    target.draw_cube(IDENTITY);
    let shaders = target.orders_by_shader();
    assert_eq!(shaders[0].shader(), 3);
    let blit = shaders[0].orders_by_material()[0].orders()[0];
    assert_eq!(blit.framebuffer, Some(90));
    assert_eq!(blit.mesh, 42);
    assert_eq!(shaders[1].shader(), 1);
    assert_eq!(shaders[1].orders_by_material()[0].orders()[0].framebuffer, None);
}

#[test]
fn text_glyphs_use_font_shader_and_atlas() {
    let mut target: Target<Matrix, u8> = Target::new(builtins(), IDENTITY);
    target.draw_text(&vec![(200, moved_x(0.0)), (201, moved_x(1.0))], 31);
    target.draw_cube(IDENTITY);
    let shaders = target.orders_by_shader();
    assert_eq!(shaders[0].shader(), 2);
    let glyphs = shaders[0].orders_by_material()[0].orders();
    assert_eq!(glyphs.len(), 2);
    assert_eq!(glyphs[0].mesh, 200);
    assert_eq!(glyphs[1].mesh, 201);
    assert_eq!(glyphs[1].albedo, 31);
    assert!(!glyphs[0].has_shadows);
    assert_eq!(shaders[1].shader(), 1);
    assert_eq!(target.current_font(), 30);
}

#[test]
fn lights_are_padded_and_capped_at_three() {
    let mut target: Target<Matrix, u8> = Target::new(builtins(), IDENTITY);
    target.add_directional_light(5);
    assert_eq!(target.lights(0), [5, 0, 0]);
    target.add_directional_light(6);
    target.add_directional_light(7);
    target.add_directional_light(8);
    assert_eq!(target.lights(0), [5, 6, 7]);
}
