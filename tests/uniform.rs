use duku::buffer::Allocation;
use duku::buffer::Buffer;
use duku::buffer::BufferUsage;
use duku::error::Error;
use duku::uniform::sampler_combinations;
use duku::uniform::sampler_index;
use duku::uniform::Descriptor;
use duku::uniform::ImageUniform;
use duku::uniform::MaterialUniform;
use duku::uniform::SamplerAddress;
use duku::uniform::SamplerFilter;
use duku::uniform::SamplerMipmaps;
use duku::uniform::ShadowMapUniform;
use duku::uniform::WorldUniform;
use duku::uniform::IMAGE_SLOT_COUNT;

fn image_group() -> ImageUniform {
    ImageUniform::new(77, vec![10, 11, 12, 13, 14, 15, 16, 17])
}

#[test]
fn add_appends_when_no_slot_is_free() {
    let mut u = image_group();
    assert_eq!(u.add(100), 0);
    assert_eq!(u.add(101), 1);
    assert_eq!(u.add(102), 2);
    assert_eq!(u.image_count(), 3);
}

#[test]
fn removed_slot_is_reused_first_fit() {
    let mut u = image_group();
    for v in 100..105 {
        u.add(v);
    }
    u.remove(3);
    u.remove(1);
    assert_eq!(u.add(200), 1);
    assert_eq!(u.add(201), 3);
    assert_eq!(u.add(202), 5);
    assert_eq!(u.image_count(), 6);
}

#[test]
fn remove_then_add_returns_same_slot() {
    let mut u = image_group();
    for v in 0..10 {
        u.add(v);
    }
    u.remove(7);
    assert_eq!(u.add(99), 7);
}

#[test]
fn flush_fills_empty_slots_with_slot_zero() {
    let mut u = image_group();
    u.add(500);
    u.add(501);
    u.add(502);
    u.remove(1);
    u.set_skybox(900);
    let writes = u.update_if_needed().unwrap().unwrap();
    assert_eq!(writes.set, 77);
    assert_eq!(writes.images.len(), IMAGE_SLOT_COUNT);
    assert_eq!(writes.images[0], 500);
    assert_eq!(writes.images[1], 500);
    assert_eq!(writes.images[2], 502);
    assert_eq!(writes.images[99], 500);
    assert_eq!(writes.samplers, vec![10, 11, 12, 13, 14, 15, 16, 17]);
    assert_eq!(writes.skybox, Some(900));
    // nothing pending any more
    assert!(u.update_if_needed().unwrap().is_none());
}

#[test]
fn flush_without_slot_zero_fails() {
    let mut u = image_group();
    assert_eq!(u.update_if_needed().err(), Some(Error::ImageSlotZeroEmpty));
    u.add(1);
    u.add(2);
    u.remove(0);
    assert_eq!(u.update_if_needed().err(), Some(Error::ImageSlotZeroEmpty));
    u.add(3);
    assert!(u.update_if_needed().unwrap().is_some());
}

#[test]
fn image_group_descriptor_is_set_two() {
    let u = image_group();
    assert_eq!(u.descriptor(), Descriptor(2, 77));
    assert_eq!(ShadowMapUniform::new(5).descriptor(), Descriptor(3, 5));
}

#[test]
fn sampler_list_is_the_cross_product() {
    let list = sampler_combinations();
    assert_eq!(list.len(), 8);
    assert_eq!(list[0].filter, SamplerFilter::Linear);
    assert_eq!(list[0].address, SamplerAddress::Repeat);
    assert_eq!(list[0].mipmaps, SamplerMipmaps::Enabled);
    assert_eq!(list[5].filter, SamplerFilter::Nearest);
    assert_eq!(list[5].address, SamplerAddress::Repeat);
    assert_eq!(list[5].mipmaps, SamplerMipmaps::Disabled);
    assert_eq!(list[7].address, SamplerAddress::Clamp);
}

#[test]
fn sampler_index_packs_flags() {
    assert_eq!(sampler_index(false, false, false), 0);
    assert_eq!(sampler_index(false, false, true), 1);
    assert_eq!(sampler_index(false, true, false), 2);
    assert_eq!(sampler_index(true, false, false), 4);
    assert_eq!(sampler_index(true, true, true), 7);
    let list = sampler_combinations();
    let c = list[sampler_index(true, false, true) as usize];
    assert_eq!(c.filter, SamplerFilter::Nearest);
    assert_eq!(c.address, SamplerAddress::Repeat);
    assert_eq!(c.mipmaps, SamplerMipmaps::Disabled);
}

#[test]
fn write_fits_only_within_capacity() {
    let b: Buffer<u32> = Buffer::dynamic(BufferUsage::Vertex, 4, Allocation { handle: 1, memory: 2 });
    assert_eq!(b.size(), 16);
    assert_eq!(b.len(), 4);
    assert_eq!(b.copy_from_data(&[1, 2, 3, 4]), Ok(16));
    assert_eq!(b.copy_from_data(&[1, 2, 3, 4, 5]), Err(Error::BufferTooSmall));
}

#[test]
fn resize_then_write_of_new_length_succeeds() {
    let mut b: Buffer<[f32; 4]> = Buffer::dynamic(BufferUsage::Vertex, 2, Allocation { handle: 1, memory: 2 });
    let data = vec![[0.0f32; 4]; 6];
    assert_eq!(b.copy_from_data(&data), Err(Error::BufferTooSmall));
    let previous = b.resize(6, Allocation { handle: 3, memory: 4 });
    assert_eq!(previous, Allocation { handle: 1, memory: 2 });
    assert_eq!(b.handle(), 3);
    assert_eq!(b.len(), 6);
    assert_eq!(b.copy_from_data(&data), Ok(96));
}

#[test]
fn staging_buffer_is_sized_for_its_data() {
    let b: Buffer<u16> = Buffer::staging(&[1, 2, 3], Allocation { handle: 8, memory: 9 });
    assert_eq!(b.size(), 6);
    assert_eq!(b.destroy(), Allocation { handle: 8, memory: 9 });
}

#[test]
fn single_record_groups_accept_one_record() {
    let wb: Buffer<[f32; 16]> = Buffer::dynamic(BufferUsage::Uniform, 1, Allocation { handle: 1, memory: 1 });
    let world = WorldUniform::new(wb, 40);
    assert_eq!(world.descriptor(), Descriptor(0, 40));
    assert_eq!(world.update([1.0; 16]), Ok(64));
    let mb: Buffer<[f32; 4]> = Buffer::dynamic(BufferUsage::Uniform, 1, Allocation { handle: 2, memory: 2 });
    let mb2: Buffer<[f32; 4]> = Buffer::dynamic(BufferUsage::Uniform, 1, Allocation { handle: 2, memory: 3 });
    let material = MaterialUniform::new(mb, 41);
    let other = MaterialUniform::new(mb2, 42);
    assert_eq!(material.descriptor(), Descriptor(1, 41));
    assert_eq!(material.update([0.5; 4]), Ok(16));
    assert!(material.same_material(&other));
}
