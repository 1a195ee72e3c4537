use tangerine::packing::{pack_all, Packer, PlacedRect};

fn overlap(a: &PlacedRect, b: &PlacedRect) -> bool {
    a.w > 0 && a.h > 0 && b.w > 0 && b.h > 0 && a.x < b.x + b.w && b.x < a.x + a.w && a.y < b.y
        + b.h && b.y < a.y + a.h
}

#[test]
fn first_image_lands_at_origin() {
    let placements = pack_all(&vec![(10, 20)]).unwrap();
    assert_eq!(placements.len(), 1);
    assert_eq!((placements[0].x, placements[0].y), (0, 0));
    assert_eq!((placements[0].w, placements[0].h), (10, 20));
}

#[test]
fn two_images_do_not_overlap() {
    let placements = pack_all(&vec![(10, 20), (10, 10)]).unwrap();
    assert_eq!(placements.len(), 2);
    assert!(!overlap(&placements[0], &placements[1]));
    // The first split leaves more horizontal slack, so the second image
    // lands directly to the right of the first.
    assert_eq!((placements[0].x, placements[0].y), (0, 0));
    assert_eq!((placements[1].x, placements[1].y), (10, 0));
}

#[test]
fn many_images_pairwise_disjoint() {
    let sizes: Vec<(u32, u32)> = vec![
        (64, 64),
        (32, 48),
        (32, 32),
        (16, 64),
        (16, 16),
        (8, 8),
        (8, 8),
        (1, 1),
    ];
    let placements = pack_all(&sizes).unwrap();
    assert_eq!(placements.len(), sizes.len());
    for i in 0..placements.len() {
        assert_eq!((placements[i].w, placements[i].h), sizes[i]);
        for j in 0..i {
            assert!(!overlap(&placements[i], &placements[j]), "{} overlaps {}", i, j);
        }
    }
}

#[test]
fn image_that_finds_no_room_is_reported() {
    // The first image consumes the whole packing area exactly; the second
    // finds no free region, and the failure names its position.
    let r = pack_all(&vec![(u32::MAX, u32::MAX), (1, 1)]);
    assert_eq!(r.unwrap_err(), 1);
}

#[test]
fn zero_sized_image_packs() {
    let placements = pack_all(&vec![(0, 5)]).unwrap();
    assert_eq!((placements[0].w, placements[0].h), (0, 5));
}

#[test]
fn packer_counts_insertions() {
    let mut p = Packer::new();
    assert!(p.insert(4, 4));
    assert!(p.insert(2, 2));
    assert_eq!(p.placement_count(), 2);
    let placements = p.into_placements();
    assert_eq!(placements.len(), 2);
    assert!(!overlap(&placements[0], &placements[1]));
}
