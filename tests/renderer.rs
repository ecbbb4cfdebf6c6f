use duku::renderer::passes;
use duku::renderer::stats;
use duku::renderer::Command;
use duku::renderer::ForwardRenderer;
use duku::renderer::Pass;
use duku::renderer::CASCADE_COUNT;
use duku::resource::CoreMaterial;
use duku::resource::CoreMesh;
use duku::resource::ResourceManager;
use duku::resource::Shader;
use duku::resource::Texture;
use duku::target::Builtins;
use duku::target::Target;
use duku::uniform::Descriptor;

struct Scene {
    rm: ResourceManager,
    builtins: Builtins,
}

fn scene() -> Scene {
    let mut rm = ResourceManager::new();
    let white = rm.add_texture(Texture { view: 500, image_index: 0 });
    let phong = rm.add_shader(Shader { pipeline: 600 });
    let material = rm.add_material(CoreMaterial { descriptor: Descriptor(1, 700) });
    let cube = rm.add_mesh(CoreMesh { vertex_buffer: 800, index_buffer: 801, index_count: 36 });
    let surface = rm.add_mesh(CoreMesh { vertex_buffer: 810, index_buffer: 811, index_count: 6 });
    let builtins = Builtins {
        phong_shader: phong,
        font_shader: 90,
        blit_shader: 91,
        wireframe_shader: 92,
        white_material: material,
        white_texture: white,
        roboto_font: 93,
        cube_mesh: cube,
        sphere_mesh: 94,
        surface_mesh: surface,
    };
    Scene { rm, builtins }
}

#[test]
fn color_pass_binds_shader_then_material_then_draws() {
    let s = scene();
    let mut target: Target<u8, u8> = Target::new(s.builtins, 0);
    target.draw_cube(1);
    target.draw_cube(2);
    let renderer = ForwardRenderer::new(&vec![40, 41], 999);
    let plan = renderer.draw(&s.rm, &target, 0);
    assert_eq!(plan.color.len(), 4);
    assert!(matches!(plan.color[0], Command::BindShader(600)));
    assert!(matches!(plan.color[1], Command::BindDescriptor(Descriptor(1, 700))));
    match plan.color[3] {
        Command::Draw(call) => {
            assert_eq!(call.model, 2);
            assert_eq!(call.vertex_buffer, 800);
            assert_eq!(call.index_count, 36);
            assert_eq!(call.albedo_index, 0);
        },
        _ => panic!("expected a draw"),
    }
    assert_eq!(plan.stats.shaders_used, 1);
    assert_eq!(plan.stats.materials_used, 1);
    assert_eq!(plan.stats.draw_calls, 2);
    assert_eq!(plan.stats.drawn_indices, 72);
    assert_eq!(plan.stats.drawn_triangles, 24);
}

#[test]
fn shadow_pass_uses_other_frames_set_and_only_casters() {
    let s = scene();
    let mut target: Target<u8, u8> = Target::new(s.builtins, 0);
    target.draw_cube(1);
    target.draw_surface();
    let renderer = ForwardRenderer::new(&vec![40, 41, 42], 999);
    let plan = renderer.draw(&s.rm, &target, 2);
    let shadow = plan.shadow.expect("shadow pass");
    assert_eq!(shadow.recording_set, Descriptor(3, 40));
    assert_eq!(shadow.color_set, Descriptor(3, 42));
    assert_eq!(shadow.commands.len(), 3);
    assert!(matches!(shadow.commands[0], Command::BindShader(999)));
    assert!(matches!(shadow.commands[1], Command::BindDescriptor(_)));
    assert!(matches!(shadow.commands[2], Command::Draw(c) if c.model == 1));
    assert_eq!(plan.passes.len(), CASCADE_COUNT + 1);
    assert_eq!(plan.passes[0], Pass::Shadow(0));
    assert_eq!(plan.passes[CASCADE_COUNT], Pass::Color);
    assert_eq!(plan.stats.draw_calls, 2);
}

#[test]
fn no_casters_no_shadow_pass() {
    let s = scene();
    let mut target: Target<u8, u8> = Target::new(s.builtins, 0);
    target.draw_surface();
    let renderer = ForwardRenderer::new(&vec![40], 999);
    let plan = renderer.draw(&s.rm, &target, 0);
    assert!(plan.shadow.is_none());
    assert_eq!(plan.passes, vec![Pass::Color]);
    assert_eq!(passes(false), vec![Pass::Color]);
}

#[test]
fn orders_with_missing_resources_are_skipped() {
    let s = scene();
    let mut target: Target<u8, u8> = Target::new(s.builtins, 0);
    target.draw(12345, 1);
    target.set_albedo_texture(4242);
    target.draw_cube(2);
    target.reset();
    target.draw_cube(3);
    target.set_shader(777);
    target.draw_cube(4);
    let renderer = ForwardRenderer::new(&vec![40], 999);
    let plan = renderer.draw(&s.rm, &target, 0);
    assert_eq!(plan.color.len(), 3);
    assert!(matches!(plan.color[2], Command::Draw(c) if c.model == 3));
    assert_eq!(stats(&plan.color).draw_calls, 1);
}
