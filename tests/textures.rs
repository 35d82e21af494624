use ggez_egui::{
    frame_step, rgba_bytes, store_copied_text, write_patch, FrameStep, ImageDelta, Painter, Rgba,
    RgbaImage, SurfaceStatus, TextureError, TextureId, TextureStore, TexturesDelta,
};

fn px(r: u8, g: u8, b: u8, a: u8) -> Rgba {
    Rgba { r, g, b, a }
}

fn image(width: usize, height: usize, pixels: Vec<Rgba>) -> RgbaImage {
    RgbaImage { width, height, pixels }
}

fn whole(width: usize, height: usize, pixels: Vec<Rgba>) -> ImageDelta {
    ImageDelta { image: image(width, height, pixels), pos: None }
}

fn patch(x: usize, y: usize, width: usize, height: usize, pixels: Vec<Rgba>) -> ImageDelta {
    ImageDelta { image: image(width, height, pixels), pos: Some((x, y)) }
}

fn grey(v: u8) -> Rgba {
    px(v, v, v, v)
}

type Made = (usize, usize, Vec<u8>);

fn make(w: usize, h: usize, bytes: Vec<u8>) -> Made {
    (w, h, bytes)
}

#[test]
fn rgba_bytes_lays_out_channels_in_order() {
    let pixels = vec![px(1, 2, 3, 4), px(250, 0, 17, 255)];
    assert_eq!(rgba_bytes(&pixels), vec![1, 2, 3, 4, 250, 0, 17, 255]);
}

#[test]
fn rgba_bytes_of_no_texels_is_empty() {
    assert!(rgba_bytes(&Vec::new()).is_empty());
}

#[test]
fn well_sized_compares_texel_count() {
    assert!(image(2, 1, vec![px(0, 0, 0, 0), px(1, 1, 1, 1)]).well_sized());
    assert!(!image(2, 2, vec![px(0, 0, 0, 0)]).well_sized());
    assert!(image(0, 5, Vec::new()).well_sized());
    assert!(!image(usize::MAX, 2, Vec::new()).well_sized());
}

#[test]
fn store_keeps_managed_and_user_ids_apart() {
    let mut store: TextureStore<u32> = TextureStore::new();
    store.insert(TextureId::Managed(3), 10);
    store.insert(TextureId::User(3), 20);
    assert_eq!(store.get(TextureId::Managed(3)), Some(&10));
    assert_eq!(store.get(TextureId::User(3)), Some(&20));
    store.insert(TextureId::Managed(3), 30);
    assert_eq!(store.get(TextureId::Managed(3)), Some(&30));
    assert_eq!(store.remove(TextureId::User(3)), Some(20));
    assert!(!store.contains(TextureId::User(3)));
    assert_eq!(store.remove(TextureId::User(3)), None);
    assert!(store.contains(TextureId::Managed(3)));
}

#[test]
fn update_sets_then_frees() {
    let mut painter: Painter<Made> = Painter::new();
    let delta = TexturesDelta {
        set: vec![
            (TextureId::Managed(0), whole(1, 1, vec![px(9, 8, 7, 6)])),
            (TextureId::User(5), whole(2, 1, vec![px(1, 2, 3, 4), px(5, 6, 7, 8)])),
        ],
        free: vec![TextureId::User(5)],
    };
    assert_eq!(painter.update_textures(delta, make), Ok(()));
    assert_eq!(painter.texture(TextureId::Managed(0)), Some(&(1, 1, vec![9, 8, 7, 6])));
    assert_eq!(painter.texture(TextureId::User(5)), None);
}

#[test]
fn update_keeps_last_image_of_a_texture() {
    let mut painter: Painter<Made> = Painter::new();
    let delta = TexturesDelta {
        set: vec![
            (TextureId::Managed(1), whole(1, 1, vec![px(1, 1, 1, 1)])),
            (TextureId::Managed(1), whole(1, 2, vec![px(2, 2, 2, 2), px(3, 3, 3, 3)])),
        ],
        free: Vec::new(),
    };
    assert_eq!(painter.update_textures(delta, make), Ok(()));
    assert_eq!(
        painter.texture(TextureId::Managed(1)),
        Some(&(1, 2, vec![2, 2, 2, 2, 3, 3, 3, 3]))
    );
}

#[test]
fn update_leaves_other_textures_alone() {
    let mut painter: Painter<Made> = Painter::new();
    let first = TexturesDelta {
        set: vec![(TextureId::User(7), whole(1, 1, vec![px(4, 4, 4, 4)]))],
        free: Vec::new(),
    };
    assert_eq!(painter.update_textures(first, make), Ok(()));
    let second = TexturesDelta {
        set: vec![(TextureId::Managed(0), whole(1, 1, vec![px(5, 5, 5, 5)]))],
        free: vec![TextureId::User(8)],
    };
    assert_eq!(painter.update_textures(second, make), Ok(()));
    assert_eq!(painter.texture(TextureId::User(7)), Some(&(1, 1, vec![4, 4, 4, 4])));
    assert_eq!(painter.texture(TextureId::Managed(0)), Some(&(1, 1, vec![5, 5, 5, 5])));
}

#[test]
fn update_stops_at_ill_sized_image() {
    let mut painter: Painter<Made> = Painter::new();
    let first = TexturesDelta {
        set: vec![(TextureId::User(1), whole(1, 1, vec![px(1, 1, 1, 1)]))],
        free: Vec::new(),
    };
    assert_eq!(painter.update_textures(first, make), Ok(()));
    let bad = TexturesDelta {
        set: vec![
            (TextureId::Managed(2), whole(1, 1, vec![px(0, 0, 0, 0)])),
            (TextureId::Managed(3), whole(2, 2, vec![px(0, 0, 0, 0)])),
            (TextureId::Managed(4), whole(3, 1, Vec::new())),
        ],
        free: vec![TextureId::User(1)],
    };
    assert_eq!(
        painter.update_textures(bad, make),
        Err(TextureError::SizeMismatch(TextureId::Managed(3)))
    );
    assert_eq!(painter.texture(TextureId::Managed(2)), Some(&(1, 1, vec![0, 0, 0, 0])));
    assert_eq!(painter.texture(TextureId::Managed(3)), None);
    assert_eq!(painter.texture(TextureId::Managed(4)), None);
    assert_eq!(painter.texture(TextureId::User(1)), Some(&(1, 1, vec![1, 1, 1, 1])));
}

#[test]
fn pending_deltas_apply_oldest_first() {
    let mut painter: Painter<Made> = Painter::new();
    assert_eq!(painter.pending_deltas(), 0);
    painter.queue_delta(TexturesDelta {
        set: vec![(TextureId::Managed(0), whole(1, 1, vec![px(1, 0, 0, 0)]))],
        free: Vec::new(),
    });
    painter.queue_delta(TexturesDelta {
        set: vec![(TextureId::Managed(0), whole(1, 1, vec![px(2, 0, 0, 0)]))],
        free: Vec::new(),
    });
    assert_eq!(painter.pending_deltas(), 2);
    assert_eq!(painter.apply_next_delta(make), Ok(()));
    assert_eq!(painter.pending_deltas(), 1);
    assert_eq!(painter.texture(TextureId::Managed(0)), Some(&(1, 1, vec![1, 0, 0, 0])));
    assert_eq!(painter.apply_next_delta(make), Ok(()));
    assert_eq!(painter.texture(TextureId::Managed(0)), Some(&(1, 1, vec![2, 0, 0, 0])));
    assert_eq!(painter.pending_deltas(), 0);
}

#[test]
fn apply_next_delta_with_nothing_pending_does_nothing() {
    let mut painter: Painter<Made> = Painter::new();
    assert_eq!(painter.apply_next_delta(make), Ok(()));
    assert_eq!(painter.pending_deltas(), 0);
    assert_eq!(painter.texture(TextureId::Managed(0)), None);
}

#[test]
fn apply_next_delta_drops_a_refused_delta() {
    let mut painter: Painter<Made> = Painter::new();
    painter.queue_delta(TexturesDelta {
        set: vec![(TextureId::User(9), whole(0, 1, vec![px(1, 1, 1, 1)]))],
        free: Vec::new(),
    });
    assert_eq!(
        painter.apply_next_delta(make),
        Err(TextureError::SizeMismatch(TextureId::User(9)))
    );
    assert_eq!(painter.pending_deltas(), 0);
    assert_eq!(painter.texture(TextureId::User(9)), None);
}

#[test]
fn copied_text_replaces_clipboard() {
    let mut clipboard = String::from("old");
    store_copied_text(&mut clipboard, String::from("new text"));
    assert_eq!(clipboard, "new text");
}

#[test]
fn nothing_copied_keeps_clipboard() {
    let mut clipboard = String::from("kept");
    store_copied_text(&mut clipboard, String::new());
    assert_eq!(clipboard, "kept");
}

#[test]
fn frame_step_per_surface_status() {
    assert_eq!(frame_step(SurfaceStatus::Acquired), FrameStep::Draw);
    assert_eq!(frame_step(SurfaceStatus::Timeout), FrameStep::Skip);
    assert_eq!(frame_step(SurfaceStatus::Outdated), FrameStep::Skip);
    assert_eq!(frame_step(SurfaceStatus::Lost), FrameStep::Skip);
    assert_eq!(frame_step(SurfaceStatus::OutOfMemory), FrameStep::Fail);
}

#[test]
fn write_patch_overwrites_only_the_patch_region() {
    let base = image(3, 2, vec![grey(0), grey(1), grey(2), grey(3), grey(4), grey(5)]);
    let p = image(2, 1, vec![grey(9), grey(8)]);
    let r = write_patch(&base, &p, 1, 1);
    assert_eq!((r.width, r.height), (3, 2));
    assert_eq!(r.pixels, vec![grey(0), grey(1), grey(2), grey(3), grey(9), grey(8)]);
}

#[test]
fn patch_updates_part_of_a_texture() {
    let mut painter: Painter<Made> = Painter::new();
    let delta = TexturesDelta {
        set: vec![
            (TextureId::Managed(0), whole(2, 2, vec![grey(1), grey(2), grey(3), grey(4)])),
            (TextureId::Managed(0), patch(1, 0, 1, 2, vec![grey(7), grey(8)])),
        ],
        free: Vec::new(),
    };
    assert_eq!(painter.update_textures(delta, make), Ok(()));
    assert_eq!(
        painter.texture(TextureId::Managed(0)),
        Some(&(2, 2, vec![1, 1, 1, 1, 7, 7, 7, 7, 3, 3, 3, 3, 8, 8, 8, 8]))
    );
}

#[test]
fn patch_of_missing_texture_is_refused() {
    let mut painter: Painter<Made> = Painter::new();
    let delta = TexturesDelta {
        set: vec![(TextureId::User(2), patch(0, 0, 1, 1, vec![grey(1)]))],
        free: Vec::new(),
    };
    assert_eq!(
        painter.update_textures(delta, make),
        Err(TextureError::PatchOutside(TextureId::User(2)))
    );
    assert_eq!(painter.texture(TextureId::User(2)), None);
}

#[test]
fn patch_past_the_edge_is_refused() {
    let mut painter: Painter<Made> = Painter::new();
    let delta = TexturesDelta {
        set: vec![
            (TextureId::User(2), whole(2, 1, vec![grey(1), grey(2)])),
            (TextureId::User(2), patch(1, 0, 2, 1, vec![grey(5), grey(6)])),
        ],
        free: vec![TextureId::User(2)],
    };
    assert_eq!(
        painter.update_textures(delta, make),
        Err(TextureError::PatchOutside(TextureId::User(2)))
    );
    assert_eq!(painter.texture(TextureId::User(2)), Some(&(2, 1, vec![1, 1, 1, 1, 2, 2, 2, 2])));
}
