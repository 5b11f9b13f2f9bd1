// Conversion scenarios: zero-sized types, merged small fields, padding,
// arrays, and references.

use typic::compat::{check_compatible, Dimension, Report};
use typic::descriptor::{compute_layout, Descriptor, Field};
use typic::examples::{Packed, Padded};
use typic::layout::Layout;
use typic::policy::{AlwaysValid, Enforced, Policy, Stable, Static, Variant};
use typic::slot::{Initialized, Kind, NonZero, Public, Shared, Slot, Uninitialized, Visibility};

fn prim(width: usize, align: usize, kind: Kind) -> Descriptor {
    match kind {
        Kind::Uninitialized => Descriptor::primitive(width, align, Uninitialized, true),
        Kind::Initialized => Descriptor::primitive(width, align, Initialized, true),
        Kind::NonZero => Descriptor::primitive(width, align, NonZero, true),
    }
}

fn strukt(fields: Vec<Field>) -> Descriptor {
    Descriptor::structure(fields, true)
}

fn pub_field(desc: Descriptor) -> Field {
    Field::of(Public, desc)
}

fn array(element: Descriptor, count: usize) -> Descriptor {
    Descriptor::repetition(element, count, true)
}

fn reference(pointee: Descriptor) -> Descriptor {
    Descriptor::reference(Shared, 0, pointee, true)
}

fn layout(d: &Descriptor) -> Layout {
    compute_layout(d).expect("layout must fit")
}

fn ok(src: &Descriptor, dst: &Descriptor) -> bool {
    check_compatible(&layout(src), &layout(dst), Policy::default()).is_ok()
}

#[test]
fn zst_transmute() {
    let t = strukt(vec![]);
    let u = strukt(vec![]);
    assert!(ok(&t, &u));
    assert!(ok(&u, &u));
    assert!(ok(&u, &t));
    assert!(ok(&t, &t));

    let rt = reference(strukt(vec![]));
    let ru = reference(strukt(vec![]));
    assert!(ok(&ru, &rt));
    assert!(ok(&rt, &rt));
    assert!(ok(&rt, &ru));
    assert!(ok(&ru, &ru));
}

#[test]
fn small_transmute() {
    let t = strukt(vec![
        pub_field(prim(1, 1, Kind::Initialized)),
        pub_field(prim(1, 1, Kind::Initialized)),
    ]);
    let u = strukt(vec![pub_field(prim(2, 2, Kind::Initialized))]);
    assert!(ok(&t, &u));
    assert!(ok(&u, &u));
    assert!(ok(&u, &t));
    assert!(ok(&t, &t));
}

#[test]
fn padding_transmute() {
    let padded = Padded::descriptor();
    let packed = Packed::descriptor();
    let lp = layout(&padded);
    let lk = layout(&packed);
    assert_eq!(lp.size, 6);
    assert_eq!(lp.align, 2);
    assert_eq!(lk.size, 6);
    assert_eq!(lk.align, 2);

    assert!(ok(&packed, &packed));
    assert!(ok(&padded, &padded));

    // Transmuting initialized bytes into padding bytes is sound.
    assert!(ok(&packed, &padded));

    // Transmuting padding bytes into initialized bytes is unsound.
    let r = check_compatible(&lp, &lk, Policy::default());
    assert_eq!(
        r,
        Err(Report::KindMismatch {
            offset: 1,
            src_kind: Kind::Uninitialized,
            dst_kind: Kind::Initialized,
        })
    );
    assert_eq!(r.unwrap_err().relaxation(), Some(Dimension::Validity));
}

#[test]
fn arrays() {
    let a_u16_2 = array(prim(2, 2, Kind::Initialized), 2);
    let a_u8_4 = array(prim(1, 1, Kind::Initialized), 4);
    let a_u8_5 = array(prim(1, 1, Kind::Initialized), 5);
    let a_u16_4 = array(prim(2, 2, Kind::Initialized), 4);

    // The inner type of the array may be mutated
    assert!(ok(&a_u16_2, &a_u8_4));
    assert!(ok(&a_u8_4, &a_u16_2));

    // Arrays may be shrunk
    assert!(ok(&a_u8_5, &a_u8_4));

    // Arrays may not be grown:
    assert!(matches!(
        check_compatible(&layout(&a_u8_4), &layout(&a_u8_5), Policy::default()),
        Err(Report::SizeExceeded { src_size: 4, dst_size: 5 })
    ));
    assert!(!ok(&a_u8_4, &a_u16_4));
}

#[test]
fn references() {
    // You may transmute to a less strictly aligned type:
    let r_u16_0 = reference(array(prim(2, 2, Kind::Initialized), 0));
    let r_u8_0 = reference(array(prim(1, 1, Kind::Initialized), 0));
    assert!(ok(&r_u16_0, &r_u8_0));

    // ...but not a more strictly aligned type:
    let rev = check_compatible(&layout(&r_u8_0), &layout(&r_u16_0), Policy::default());
    assert!(matches!(rev, Err(Report::AlignmentViolation { offset: 0, src_align: 1, dst_align: 2 })));
    assert_eq!(rev.unwrap_err().relaxation(), Some(Dimension::Alignment));

    // You cannot alter the validity with a pointer transmute:
    let r_u8 = reference(prim(1, 1, Kind::Initialized));
    let r_nz8 = reference(prim(1, 1, Kind::NonZero));
    assert!(!ok(&r_u8, &r_nz8));
    assert!(!ok(&r_nz8, &r_u8));

    // You may decrease the size:
    let r_u16 = reference(prim(2, 2, Kind::Initialized));
    assert!(ok(&r_u16, &r_u8));

    // ...but you cannot increase the size:
    assert!(!ok(&r_u8, &r_u16));

    // You cannot violate transparency:
    let a = strukt(vec![Field { vis: Visibility::Private, desc: prim(1, 1, Kind::Initialized) }]);
    let b = strukt(vec![pub_field(prim(1, 1, Kind::Initialized))]);
    let ra = reference(a);
    let rb = reference(b);
    assert!(!ok(&ra, &rb));
    assert!(!ok(&rb, &ra));
}

#[test]
fn from_layout_test() {
    let pol = Policy::of(Variant, Static, Enforced, Stable, AlwaysValid);
    let pad = |w: usize| Slot::Bytes {
        kind: Kind::Uninitialized,
        vis: Visibility::Public,
        width: w,
    };
    let lay = |size: usize, align: usize, slots: Vec<Slot>| Layout {
        align,
        size,
        attested: true,
        alts: vec![slots],
    };

    let src = lay(2, 1, vec![pad(2)]);
    let dst = lay(0, 1, vec![]);
    assert!(check_compatible(&src, &dst, pol).is_ok());

    let src = lay(2, 1, vec![pad(2)]);
    let dst = lay(1, 1, vec![pad(1)]);
    assert!(check_compatible(&src, &dst, pol).is_ok());

    let src = lay(2, 1, vec![pad(1), pad(1)]);
    let dst = lay(2, 1, vec![pad(2)]);
    assert!(check_compatible(&src, &dst, pol).is_ok());
}
