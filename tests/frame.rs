use duku::error::Error;
use duku::frame::Context;
use duku::frame::RenderStage;

fn context() -> Context {
    Context::new(5, vec![1, 2, 3, 4, 5, 6, 7, 8])
}

#[test]
fn frame_flushes_images_once() {
    let mut ctx = context();
    let a = ctx.create_texture(100);
    let _b = ctx.create_texture(101);
    assert_eq!(ctx.resources().texture(a).unwrap().image_index, 0);
    let writes = ctx.begin_draw().unwrap().unwrap();
    assert_eq!(writes.images[0], 100);
    assert_eq!(writes.images[1], 101);
    assert_eq!(writes.images[2], 100);
    assert_eq!(ctx.stage(), RenderStage::During);
    // a second begin inside the frame changes nothing
    assert!(ctx.begin_draw().unwrap().is_none());
    ctx.end_draw();
    assert_eq!(ctx.stage(), RenderStage::Before);
    // nothing changed since the last flush
    assert!(ctx.begin_draw().unwrap().is_none());
}

#[test]
fn released_texture_slot_is_reused_next_frame() {
    let mut ctx = context();
    let _a = ctx.create_texture(100);
    let b = ctx.create_texture(101);
    let _c = ctx.create_texture(102);
    assert_eq!(ctx.release_texture(b), Ok(()));
    let writes = ctx.begin_draw().unwrap().unwrap();
    assert_eq!(writes.images[1], 100);
    assert_eq!(writes.images[2], 102);
    assert_eq!(ctx.resources().texture(b), Err(Error::InvalidHandle));
    ctx.end_draw();
    let d = ctx.create_texture(103);
    assert_eq!(ctx.resources().texture(d).unwrap().image_index, 1);
}

#[test]
fn first_frame_without_textures_fails_flush() {
    let mut ctx = context();
    assert_eq!(ctx.begin_draw().err(), Some(Error::ImageSlotZeroEmpty));
}
