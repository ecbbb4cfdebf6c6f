use duku::error::Error;
use duku::resource::CoreFramebuffer;
use duku::resource::CoreMaterial;
use duku::resource::CoreMesh;
use duku::resource::Font;
use duku::resource::ResourceManager;
use duku::resource::Shader;
use duku::resource::Texture;
use duku::uniform::Descriptor;
use duku::uniform::ImageUniform;

#[test]
fn handles_come_from_one_counter() {
    let mut rm = ResourceManager::new();
    let t = rm.add_texture(Texture { view: 1, image_index: 0 });
    let m = rm.add_material(CoreMaterial { descriptor: Descriptor(1, 9) });
    let s = rm.add_shader(Shader { pipeline: 3 });
    let me = rm.add_mesh(CoreMesh { vertex_buffer: 1, index_buffer: 2, index_count: 36 });
    let f = rm.add_font(Font { atlas: t });
    let fb = rm.add_framebuffer(CoreFramebuffer { descriptor: Descriptor(4, 5), width: 8, height: 8 });
    assert_eq!((t, m, s, me, f, fb), (0, 1, 2, 3, 4, 5));
    assert_eq!(rm.material(m), Ok(CoreMaterial { descriptor: Descriptor(1, 9) }));
    assert_eq!(rm.mesh(me).unwrap().index_count, 36);
    assert_eq!(rm.framebuffer(fb).unwrap().width, 8);
    assert_eq!(rm.texture(t), Ok(Texture { view: 1, image_index: 0 }));
    assert_eq!(rm.shader(s), Ok(Shader { pipeline: 3 }));
    assert_eq!(rm.font(f), Ok(Font { atlas: 0 }));
}

#[test]
fn unknown_handles_are_invalid() {
    let mut rm = ResourceManager::new();
    let m = rm.add_material(CoreMaterial { descriptor: Descriptor(1, 9) });
    assert_eq!(rm.material(m + 1), Err(Error::InvalidHandle));
    assert_eq!(rm.mesh(m), Err(Error::InvalidHandle));
    assert_eq!(rm.texture(m), Err(Error::InvalidHandle));
    assert_eq!(rm.mesh_mut(7, CoreMesh { vertex_buffer: 0, index_buffer: 0, index_count: 0 }), Err(Error::InvalidHandle));
    assert_eq!(rm.release_texture(3), Err(Error::InvalidHandle));
}

#[test]
fn replacing_a_material_keeps_its_handle() {
    let mut rm = ResourceManager::new();
    let m = rm.add_material(CoreMaterial { descriptor: Descriptor(1, 9) });
    assert_eq!(rm.material_mut(m, CoreMaterial { descriptor: Descriptor(1, 10) }), Ok(()));
    assert_eq!(rm.material(m), Ok(CoreMaterial { descriptor: Descriptor(1, 10) }));
    let fb = rm.add_framebuffer(CoreFramebuffer { descriptor: Descriptor(4, 5), width: 8, height: 8 });
    assert_eq!(rm.framebuffer_mut(fb, CoreFramebuffer { descriptor: Descriptor(4, 6), width: 16, height: 16 }), Ok(()));
    assert_eq!(rm.framebuffer(fb).unwrap().width, 16);
}

#[test]
fn collection_frees_the_texture_slot_for_reuse() {
    let mut images = ImageUniform::new(1, vec![0; 8]);
    let mut rm = ResourceManager::new();
    let a_slot = images.add(1000);
    let b_slot = images.add(1001);
    let c_slot = images.add(1002);
    let _a = rm.add_texture(Texture { view: 1000, image_index: a_slot });
    let b = rm.add_texture(Texture { view: 1001, image_index: b_slot });
    let _c = rm.add_texture(Texture { view: 1002, image_index: c_slot });
    assert_eq!(rm.release_texture(b), Ok(()));
    assert_eq!(rm.release_texture(b), Err(Error::InvalidHandle));
    rm.clean_unused(&mut images);
    assert_eq!(rm.texture(b), Err(Error::InvalidHandle));
    assert_eq!(images.add(2000), b_slot);
}

#[test]
fn referenced_textures_survive_collection() {
    let mut images = ImageUniform::new(1, vec![0; 8]);
    let mut rm = ResourceManager::new();
    let slot = images.add(1000);
    let t = rm.add_texture(Texture { view: 1000, image_index: slot });
    assert_eq!(rm.acquire_texture(t), Ok(()));
    assert_eq!(rm.release_texture(t), Ok(()));
    rm.clean_unused(&mut images);
    assert!(rm.texture(t).is_ok());
    assert_eq!(images.add(2000), 1);
}

#[test]
fn materials_are_not_collected() {
    let mut images = ImageUniform::new(1, vec![0; 8]);
    let mut rm = ResourceManager::new();
    let m = rm.add_material(CoreMaterial { descriptor: Descriptor(1, 9) });
    rm.clean_unused(&mut images);
    assert!(rm.material(m).is_ok());
}
