// The layout calculator: sizes, alignments, slot runs, discriminants,
// unions, and the machine-word bound.

use typic::descriptor::{
    compute_layout, is_well_formed, Array, Descriptor, Field, LayoutError, Shape, VariantDef,
};
use typic::examples::{Constrained, Packed, Padded, Unconstrained};
use typic::slot::{
    Initialized, Kind, Mutability, NonZero, Public, Slot, Uninitialized, Visibility, POINTER_WIDTH,
};

fn prim(width: usize, align: usize, kind: Kind) -> Descriptor {
    match kind {
        Kind::Uninitialized => Descriptor::primitive(width, align, Uninitialized, true),
        Kind::Initialized => Descriptor::primitive(width, align, Initialized, true),
        Kind::NonZero => Descriptor::primitive(width, align, NonZero, true),
    }
}

fn pub_field(desc: Descriptor) -> Field {
    Field::of(Public, desc)
}

#[test]
fn padded_layout_slots() {
    let d = Padded::descriptor();
    assert!(is_well_formed(&d));
    let l = compute_layout(&d).unwrap();
    assert_eq!(l.size, 6);
    assert_eq!(l.align, 2);
    assert!(l.attested);
    assert_eq!(l.alts.len(), 1);
    let widths: Vec<(Kind, usize)> = l.alts[0]
        .iter()
        .map(|s| match s {
            Slot::Bytes { kind, width, .. } => (*kind, *width),
            _ => panic!("byte slots expected"),
        })
        .collect();
    assert_eq!(
        widths,
        vec![
            (Kind::Initialized, 1),
            (Kind::Uninitialized, 1),
            (Kind::Initialized, 2),
            (Kind::Initialized, 1),
            (Kind::Uninitialized, 1),
        ]
    );
}

#[test]
fn packed_layout_has_no_gaps() {
    let l = compute_layout(&Packed::descriptor()).unwrap();
    assert_eq!(l.size, 6);
    assert_eq!(l.align, 2);
    for s in &l.alts[0] {
        assert!(matches!(s, Slot::Bytes { kind: Kind::Initialized, .. }));
    }
}

#[test]
fn unit_struct_is_zero_sized() {
    let d = Descriptor {
        shape: Shape::Struct { fields: vec![] },
        min_align: 1,
        pack: None,
        attested: true,
    };
    let l = compute_layout(&d).unwrap();
    assert_eq!(l.size, 0);
    assert_eq!(l.align, 1);
    assert_eq!(l.alts.len(), 1);
    assert!(l.alts[0].is_empty());
}

#[test]
fn packing_caps_field_alignment() {
    // (u8, u16) packed to 1: no interior padding, size 3, align 1
    let d = Descriptor {
        shape: Shape::Struct {
            fields: vec![
                pub_field(prim(1, 1, Kind::Initialized)),
                pub_field(prim(2, 2, Kind::Initialized)),
            ],
        },
        min_align: 1,
        pack: Some(1),
        attested: true,
    };
    let l = compute_layout(&d).unwrap();
    assert_eq!(l.size, 3);
    assert_eq!(l.align, 1);
    assert_eq!(l.alts[0].len(), 2);
}

#[test]
fn raised_minimum_alignment_pads_the_tail() {
    // a lone u8 under a minimum alignment of 4: one byte, three of padding
    let d = Descriptor {
        shape: Shape::Struct { fields: vec![pub_field(prim(1, 1, Kind::Initialized))] },
        min_align: 4,
        pack: None,
        attested: true,
    };
    let l = compute_layout(&d).unwrap();
    assert_eq!(l.size, 4);
    assert_eq!(l.align, 4);
    assert!(matches!(
        l.alts[0][1],
        Slot::Bytes { kind: Kind::Uninitialized, width: 3, .. }
    ));
}

#[test]
fn discriminants_encode_little_endian() {
    // one variant tagged with the bit pattern 0xFFFF at width 2
    let d = Descriptor {
        shape: Shape::Variants {
            tag_width: 2,
            variants: vec![VariantDef { tag: Some(65535), fields: vec![] }],
        },
        min_align: 1,
        pack: None,
        attested: true,
    };
    let l = compute_layout(&d).unwrap();
    assert_eq!(l.size, 2);
    assert_eq!(l.align, 2);
    assert_eq!(l.alts.len(), 1);
    match &l.alts[0][0] {
        Slot::Discriminant(t) => assert_eq!(t.pattern, vec![0xFF, 0xFF]),
        _ => panic!("discriminant expected"),
    }
}

#[test]
fn unspecified_tags_count_on() {
    // A = 0, B = 1, C = 7, D = 8
    let variant = |tag: Option<u64>| VariantDef { tag, fields: vec![] };
    let d = Descriptor {
        shape: Shape::Variants {
            tag_width: 1,
            variants: vec![variant(None), variant(None), variant(Some(7)), variant(None)],
        },
        min_align: 1,
        pack: None,
        attested: true,
    };
    let l = compute_layout(&d).unwrap();
    assert_eq!(l.alts.len(), 4);
    let tags: Vec<u8> = l
        .alts
        .iter()
        .map(|alt| match &alt[0] {
            Slot::Discriminant(t) => t.pattern[0],
            _ => panic!("discriminant expected"),
        })
        .collect();
    assert_eq!(tags, vec![0, 1, 7, 8]);
}

#[test]
fn enum_variants_pad_to_the_widest() {
    // one variant holds a u16 after a 1-byte tag, the other nothing
    let d = Descriptor {
        shape: Shape::Variants {
            tag_width: 1,
            variants: vec![
                VariantDef { tag: None, fields: vec![pub_field(prim(2, 2, Kind::Initialized))] },
                VariantDef { tag: None, fields: vec![] },
            ],
        },
        min_align: 1,
        pack: None,
        attested: true,
    };
    let l = compute_layout(&d).unwrap();
    assert_eq!(l.align, 2);
    assert_eq!(l.size, 4);
    assert_eq!(l.alts.len(), 2);
}

#[test]
fn union_members_share_offset_zero() {
    let d = Descriptor {
        shape: Shape::Union {
            fields: vec![
                pub_field(prim(1, 1, Kind::Initialized)),
                pub_field(prim(2, 2, Kind::Initialized)),
            ],
        },
        min_align: 1,
        pack: None,
        attested: true,
    };
    let l = compute_layout(&d).unwrap();
    assert_eq!(l.size, 2);
    assert_eq!(l.align, 2);
    assert_eq!(l.alts.len(), 2);
}

#[test]
fn references_are_pointer_sized() {
    let d = Descriptor {
        shape: Shape::Reference {
            mutability: Mutability::Unique,
            scope: 3,
            pointee: Box::new(prim(4, 4, Kind::Initialized)),
        },
        min_align: 1,
        pack: None,
        attested: true,
    };
    let l = compute_layout(&d).unwrap();
    assert_eq!(l.size, POINTER_WIDTH);
    assert_eq!(l.align, POINTER_WIDTH);
    match &l.alts[0][0] {
        Slot::Reference(r) => {
            assert!(r.nonnull);
            assert_eq!(r.scope, 3);
            assert_eq!(r.pointee.size, 4);
        },
        _ => panic!("reference slot expected"),
    }
}

#[test]
fn arrays_repeat_their_element() {
    let d = Descriptor {
        shape: Shape::Array(Array {
            element: Box::new(prim(2, 2, Kind::Initialized)),
            count: 3,
        }),
        min_align: 1,
        pack: None,
        attested: true,
    };
    let l = compute_layout(&d).unwrap();
    assert_eq!(l.size, 6);
    assert_eq!(l.align, 2);
    assert_eq!(l.alts[0].len(), 3);
}

#[test]
fn oversize_layouts_are_rejected() {
    let d = Descriptor {
        shape: Shape::Array(Array {
            element: Box::new(prim(usize::MAX, 1, Kind::Initialized)),
            count: 2,
        }),
        min_align: 1,
        pack: None,
        attested: true,
    };
    assert!(is_well_formed(&d));
    match compute_layout(&d) {
        Err(e) => assert_eq!(e, LayoutError::Oversize),
        Ok(_) => panic!("an oversize layout was accepted"),
    }
}

#[test]
fn malformed_descriptors_are_refused() {
    // a zero alignment is not a descriptor
    let d = prim(1, 0, Kind::Initialized);
    assert!(!is_well_formed(&d));
    // the layout knobs stand only on aggregate definitions
    let mut p = prim(1, 1, Kind::Initialized);
    p.min_align = 2;
    assert!(!is_well_formed(&p));
}

#[test]
fn example_descriptors_are_well_formed() {
    assert!(is_well_formed(&Padded::descriptor()));
    assert!(is_well_formed(&Packed::descriptor()));
    assert!(is_well_formed(&Constrained::descriptor()));
    assert!(is_well_formed(&Unconstrained::descriptor()));
    let c = Constrained::new(-3, 7);
    let _ = c;
}
