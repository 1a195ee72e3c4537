use tangerine::atlas::{AtlasBuilder, AtlasError};
use tangerine::bitmap::Bitmap;
use tangerine::sprite::SpriteLoadOptions;

fn solid(w: u32, h: u32, rgba: [u8; 4]) -> Bitmap {
    let mut data: Vec<u8> = Vec::new();
    for _ in 0..(w * h) {
        data.extend_from_slice(&rgba);
    }
    match Bitmap::from_raw(w, h, data) {
        Ok(b) => b,
        Err(_) => panic!("bad test bitmap"),
    }
}

#[test]
fn handles_come_back_in_submission_order() {
    let mut builder = AtlasBuilder::new();
    let a = builder.add_sprite(solid(2, 2, [10, 0, 0, 255]));
    let b = builder.add_sprite(solid(4, 4, [0, 20, 0, 255]));
    let c = builder.add_sprite(solid(1, 1, [0, 0, 30, 255]));
    assert_eq!((a, b, c), (0, 1, 2));
    let atlas = builder.finalize_and_repack().unwrap();
    // Sprite i is the image submitted i-th, whatever order the packer used:
    // the placements' sizes follow the submission order.
    assert_eq!((atlas.placements[0].w, atlas.placements[0].h), (2, 2));
    assert_eq!((atlas.placements[1].w, atlas.placements[1].h), (4, 4));
    assert_eq!((atlas.placements[2].w, atlas.placements[2].h), (1, 1));
    // The internal sort packed the largest image first.
    assert_eq!(atlas.order[0], 1);
    for i in 0..3u32 {
        let s = atlas.sprites[i as usize].indices();
        assert_eq!(s, (6 * i, 6 * i + 6));
    }
}

#[test]
fn uv_corners_reproduce_the_placement() {
    let mut builder = AtlasBuilder::new();
    builder.add_sprite(solid(3, 2, [1, 2, 3, 255]));
    builder.add_sprite(solid(5, 7, [4, 5, 6, 255]));
    let atlas = builder.finalize_and_repack().unwrap();
    for i in 0..2usize {
        let p = atlas.placements[i];
        let v = &atlas.vertices[4 * i..4 * i + 4];
        // Bottom left, bottom right, top left, top right; texel
        // coordinates trace the placement rectangle exactly.
        assert_eq!((v[0].tex_x, v[0].tex_y), (p.x, p.y + p.h));
        assert_eq!((v[1].tex_x, v[1].tex_y), (p.x + p.w, p.y + p.h));
        assert_eq!((v[2].tex_x, v[2].tex_y), (p.x, p.y));
        assert_eq!((v[3].tex_x, v[3].tex_y), (p.x + p.w, p.y));
        assert!(!v[0].corner_right && !v[0].corner_top);
        assert!(v[3].corner_right && v[3].corner_top);
    }
    // Two triangles per sprite over its own four vertices.
    assert_eq!(atlas.indices[0..6], [0, 1, 2, 1, 3, 2]);
    assert_eq!(atlas.indices[6..12], [4, 5, 6, 5, 7, 6]);
}

#[test]
fn every_pixel_lands_at_its_placement() {
    let mut builder = AtlasBuilder::new();
    builder.add_sprite(solid(2, 2, [200, 10, 20, 255]));
    builder.add_sprite(solid(3, 1, [30, 40, 50, 128]));
    let atlas = builder.finalize_and_repack().unwrap();
    for i in 0..2usize {
        let p = atlas.placements[i];
        let expected: [u8; 4] = if i == 0 {
            [200, 10, 20, 255]
        } else {
            [30, 40, 50, 128]
        };
        for dy in 0..p.h {
            for dx in 0..p.w {
                for c in 0..4u32 {
                    assert_eq!(
                        atlas.buffer.byte(p.x + dx, p.y + dy, c),
                        expected[c as usize],
                        "sprite {} pixel ({}, {}) channel {}",
                        i,
                        dx,
                        dy,
                        c
                    );
                }
            }
        }
    }
}

#[test]
fn empty_build_is_refused() {
    let builder = AtlasBuilder::new();
    assert_eq!(builder.finalize_and_repack().unwrap_err(), AtlasError::NoSprites);
}

#[test]
fn single_image_atlas_is_exactly_its_size() {
    let mut builder = AtlasBuilder::new();
    builder.add_sprite(solid(3, 5, [9, 9, 9, 255]));
    let atlas = builder.finalize_and_repack().unwrap();
    assert_eq!((atlas.buffer.width, atlas.buffer.height), (3, 5));
    assert_eq!((atlas.placements[0].x, atlas.placements[0].y), (0, 0));
}

#[test]
fn atlas_covers_all_placements() {
    let mut builder = AtlasBuilder::new();
    builder.add_sprite(solid(1, 1, [1, 1, 1, 255]));
    builder.add_sprite(solid(4, 4, [2, 2, 2, 255]));
    let atlas = builder.finalize_and_repack().unwrap();
    for i in 0..2usize {
        let p = atlas.placements[i];
        assert!(p.x + p.w <= atlas.buffer.width);
        assert!(p.y + p.h <= atlas.buffer.height);
    }
}

#[test]
fn premultiplied_image_is_unpremultiplied_on_load() {
    let mut builder = AtlasBuilder::new();
    builder.add_sprite_advanced(
        solid(1, 1, [128, 0, 0, 128]),
        SpriteLoadOptions { premultiplied: true },
    );
    let atlas = builder.finalize_and_repack().unwrap();
    assert_eq!(atlas.buffer.byte(0, 0, 0), 255);
    assert_eq!(atlas.buffer.byte(0, 0, 1), 0);
    assert_eq!(atlas.buffer.byte(0, 0, 2), 0);
    assert_eq!(atlas.buffer.byte(0, 0, 3), 128);
}

#[test]
fn non_premultiplied_image_is_stored_unchanged() {
    let mut builder = AtlasBuilder::new();
    builder.add_sprite_advanced(
        solid(1, 1, [128, 64, 32, 128]),
        SpriteLoadOptions { premultiplied: false },
    );
    let atlas = builder.finalize_and_repack().unwrap();
    assert_eq!(atlas.buffer.byte(0, 0, 0), 128);
    assert_eq!(atlas.buffer.byte(0, 0, 1), 64);
    assert_eq!(atlas.buffer.byte(0, 0, 2), 32);
    assert_eq!(atlas.buffer.byte(0, 0, 3), 128);
}
