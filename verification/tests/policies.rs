// Policies, named opt-outs, discriminant exactness, visibility gating,
// pointer rules, and the report's relaxation hints.

use typic::compat::{check_compatible, Dimension, Equivalent, Report, Subsumes};
use typic::layout::Candidate;
use typic::descriptor::{compute_layout, Descriptor, Field, Shape, VariantDef};
use typic::examples::{Constrained, Unconstrained};
use typic::neglect;
use typic::neglect::UnsafeTransmuteOptions;
use typic::policy::{Alignment, Policy, Stability, Transparency, Validity, Variance};
use typic::slot::{
    Initialized, Kind, Mutability, NonZero, Public, Shared, Uninitialized, Unique, Visibility,
};

fn prim(width: usize, align: usize, kind: Kind) -> Descriptor {
    match kind {
        Kind::Uninitialized => Descriptor::primitive(width, align, Uninitialized, true),
        Kind::Initialized => Descriptor::primitive(width, align, Initialized, true),
        Kind::NonZero => Descriptor::primitive(width, align, NonZero, true),
    }
}

fn reference(mutability: Mutability, scope: u64, pointee: Descriptor) -> Descriptor {
    match mutability {
        Mutability::Shared => Descriptor::reference(Shared, scope, pointee, true),
        Mutability::Unique => Descriptor::reference(Unique, scope, pointee, true),
    }
}

fn raw_pointer(pointee: Descriptor) -> Descriptor {
    Descriptor {
        shape: Shape::RawPointer { pointee: Box::new(pointee) },
        min_align: 1,
        pack: None,
        attested: true,
    }
}

fn tagged(tag: u64) -> Descriptor {
    Descriptor {
        shape: Shape::Variants {
            tag_width: 2,
            variants: vec![VariantDef { tag: Some(tag), fields: vec![] }],
        },
        min_align: 1,
        pack: None,
        attested: true,
    }
}

fn check(src: &Descriptor, dst: &Descriptor, pol: Policy) -> Result<(), Report> {
    check_compatible(
        &compute_layout(src).unwrap(),
        &compute_layout(dst).unwrap(),
        pol,
    )
}

#[test]
fn policy_presets() {
    let strict = Policy::strict();
    assert_eq!(strict.variance, Variance::Invariant);
    assert_eq!(strict.alignment, Alignment::Static);
    assert_eq!(strict.transparency, Transparency::Enforced);
    assert_eq!(strict.stability, Stability::Stable);
    assert_eq!(strict.validity, Validity::AlwaysValid);

    let safe = Policy::default();
    assert_eq!(safe.variance, Variance::Variant);
    assert_eq!(safe.alignment, Alignment::Static);

    assert_eq!(neglect::Constrain.policy(), strict);
    assert_eq!(().policy(), safe);
    assert_eq!(neglect::Stability.policy().stability, Stability::Unstable);
    assert_eq!(neglect::Alignment.policy().alignment, Alignment::Unchecked);
    assert_eq!(
        neglect::Transparency.policy().transparency,
        Transparency::Unenforced
    );
    assert_eq!(neglect::Validity.policy().validity, Validity::MaybeInvalid);
    let relax = neglect::Relax.policy();
    assert_eq!(relax.validity, Validity::MaybeInvalid);
    assert_eq!(relax.stability, Stability::Unstable);
}

#[test]
fn discriminant_exactness() {
    // -1 as a 16-bit signed tag and 65535 as a 16-bit unsigned tag share one
    // bit pattern; 0 shares it with neither
    let foo = tagged(0xFFFF);
    let bar = tagged(0xFFFF);
    let baz = tagged(0);

    assert!(check(&foo, &bar, Policy::default()).is_ok());
    assert!(check(&bar, &foo, Policy::default()).is_ok());

    let r = check(&foo, &baz, Policy::default());
    assert_eq!(
        r,
        Err(Report::DiscriminantMismatch { offset: 0, src_byte: Some(0xFF), dst_byte: 0x00 })
    );
    assert_eq!(r.unwrap_err().relaxation(), Some(Dimension::Validity));
    assert!(check(&baz, &foo, Policy::default()).is_err());
}

#[test]
fn visibility_gating() {
    let hidden = Constrained::descriptor();
    let open_twin = Unconstrained::descriptor();

    // a private destination byte demands unenforced transparency
    let r = check(&open_twin, &hidden, Policy::default());
    assert_eq!(
        r,
        Err(Report::VisibilityViolation {
            offset: 0,
            src_vis: Visibility::Public,
            dst_vis: Visibility::Private,
        })
    );
    assert_eq!(r.unwrap_err().relaxation(), Some(Dimension::Transparency));
    assert!(check(&open_twin, &hidden, neglect::Transparency.policy()).is_ok());

    // an owned private source may widen into a public destination...
    assert!(check(&hidden, &open_twin, Policy::default()).is_ok());

    // ...but not under exact variance
    let strict_vis = check(&hidden, &open_twin, Policy::strict());
    assert_eq!(
        strict_vis,
        Err(Report::VisibilityViolation {
            offset: 0,
            src_vis: Visibility::Private,
            dst_vis: Visibility::Public,
        })
    );
    assert_eq!(strict_vis.unwrap_err().relaxation(), Some(Dimension::Variance));

    // the candidate view exposes every byte: against it, the same query goes
    // through, which is what an externally proven invariant predicate buys
    let hidden_candidate = compute_layout(&hidden).unwrap().candidate();
    let open_layout = compute_layout(&open_twin).unwrap();
    assert!(check_compatible(&open_layout, &hidden_candidate, Policy::default()).is_ok());
}

#[test]
fn nested_fields_inherit_privacy() {
    // bytes reached through a private field are private, however the inner
    // type declares them
    let inner = Descriptor::structure(
        vec![Field::of(Public, prim(1, 1, Kind::Initialized))],
        true,
    );
    let outer = Descriptor {
        shape: Shape::Struct { fields: vec![Field { vis: Visibility::Private, desc: inner }] },
        min_align: 1,
        pack: None,
        attested: true,
    };
    let open_byte = prim(1, 1, Kind::Initialized);
    assert!(matches!(
        check(&open_byte, &outer, Policy::default()),
        Err(Report::VisibilityViolation { offset: 0, dst_vis: Visibility::Private, .. })
    ));
}

#[test]
fn stability_gating() {
    let mut unattested = prim(1, 1, Kind::Initialized);
    unattested.attested = false;
    let attested = prim(1, 1, Kind::Initialized);

    let r = check(&unattested, &attested, Policy::default());
    assert_eq!(r, Err(Report::StabilityUnattested));
    assert_eq!(r.unwrap_err().relaxation(), Some(Dimension::Stability));
    assert!(check(&unattested, &attested, neglect::Stability.policy()).is_ok());
}

#[test]
fn validity_escape_waives_the_walk_but_not_the_size() {
    let u8_ = prim(1, 1, Kind::Initialized);
    let nz8 = prim(1, 1, Kind::NonZero);

    // Initialized bytes can never satisfy NonZero...
    let r = check(&u8_, &nz8, Policy::default());
    assert_eq!(
        r,
        Err(Report::KindMismatch {
            offset: 0,
            src_kind: Kind::Initialized,
            dst_kind: Kind::NonZero,
        })
    );
    assert_eq!(r.unwrap_err().relaxation(), Some(Dimension::Validity));

    // ...unless the caller takes the validity burden
    assert!(check(&u8_, &nz8, neglect::Validity.policy()).is_ok());

    // but a grown destination stays rejected even then
    let u16_ = prim(2, 2, Kind::Initialized);
    let grown = check(&u8_, &u16_, neglect::Validity.policy());
    assert_eq!(grown, Err(Report::SizeExceeded { src_size: 1, dst_size: 2 }));
    assert_eq!(grown.unwrap_err().relaxation(), None);
}

#[test]
fn kind_widening_needs_variant_variance() {
    let nz8 = prim(1, 1, Kind::NonZero);
    let u8_ = prim(1, 1, Kind::Initialized);

    // NonZero may be read back as Initialized under the widening default...
    assert!(check(&nz8, &u8_, Policy::default()).is_ok());

    // ...but not under exact variance
    let r = check(&nz8, &u8_, Policy::strict());
    assert_eq!(
        r,
        Err(Report::KindMismatch {
            offset: 0,
            src_kind: Kind::NonZero,
            dst_kind: Kind::Initialized,
        })
    );
    assert_eq!(r.unwrap_err().relaxation(), Some(Dimension::Variance));
}

#[test]
fn pointer_mutability_and_lifetimes() {
    let u8_ = || prim(1, 1, Kind::Initialized);

    // unique grants may be shared, never the reverse
    let unique = reference(Mutability::Unique, 5, u8_());
    let shared = reference(Mutability::Shared, 5, u8_());
    assert!(check(&unique, &shared, Policy::default()).is_ok());
    let r = check(&shared, &unique, Policy::default());
    assert_eq!(r, Err(Report::MutabilityViolation { offset: 0 }));

    // the destination's scope must be contained in the source's
    let longer = reference(Mutability::Shared, 5, u8_());
    let shorter = reference(Mutability::Shared, 3, u8_());
    assert!(check(&longer, &shorter, Policy::default()).is_ok());
    let r = check(&shorter, &longer, Policy::default());
    assert_eq!(r, Err(Report::LifetimeViolation { offset: 0 }));
}

#[test]
fn raw_pointers_and_references() {
    let u8_ = || prim(1, 1, Kind::Initialized);

    // a reference may be read as a raw pointer...
    let re = reference(Mutability::Shared, 0, u8_());
    let raw = raw_pointer(u8_());
    assert!(check(&re, &raw, Policy::default()).is_ok());

    // ...but a raw pointer carries no non-null guarantee
    let r = check(&raw, &re, Policy::default());
    assert_eq!(
        r,
        Err(Report::KindMismatch {
            offset: 0,
            src_kind: Kind::Initialized,
            dst_kind: Kind::NonZero,
        })
    );
}

#[test]
fn references_decompose_into_bytes() {
    // a reference read as plain bytes: NonZero first, Initialized after
    let re = reference(Mutability::Shared, 0, prim(1, 1, Kind::Initialized));
    let words = prim(8, 8, Kind::Initialized);
    assert!(check(&re, &words, Policy::default()).is_ok());

    // plain initialized bytes cannot produce a non-null reference
    let r = check(&words, &re, Policy::default());
    assert_eq!(
        r,
        Err(Report::KindMismatch {
            offset: 0,
            src_kind: Kind::Initialized,
            dst_kind: Kind::NonZero,
        })
    );
}

#[test]
fn union_alternatives_match_existentially() {
    let u8_ = prim(1, 1, Kind::Initialized);
    let u16_ = prim(2, 2, Kind::Initialized);
    let union_ = Descriptor {
        shape: Shape::Union {
            fields: vec![
                Field::of(Public, prim(1, 1, Kind::Initialized)),
                Field::of(Public, prim(2, 2, Kind::Initialized)),
            ],
        },
        min_align: 1,
        pack: None,
        attested: true,
    };
    // the u16 reading of the union carries two initialized bytes
    assert!(check(&union_, &u16_, Policy::default()).is_ok());
    // and a u16 fills either reading
    assert!(check(&u16_, &union_, Policy::default()).is_ok());
    // a lone byte is too small
    assert!(check(&u8_, &union_, Policy::default()).is_err());
}

#[test]
fn subsumes_and_equivalent() {
    let nz8 = compute_layout(&prim(1, 1, Kind::NonZero)).unwrap();
    let u8_ = compute_layout(&prim(1, 1, Kind::Initialized)).unwrap();

    // widening one-way relation
    assert!(u8_.subsumes(&nz8));
    assert!(!nz8.subsumes(&u8_));

    // exact one-way relation
    assert!(u8_.equivalent(&u8_));
    assert!(!u8_.equivalent(&nz8));
    assert!(!nz8.equivalent(&u8_));
}

#[test]
fn policy_dimensions_are_orthogonal() {
    // relaxing one dimension leaves the others enforced
    let hidden = Constrained::descriptor();
    let open_twin = Unconstrained::descriptor();
    let mut unattested_hidden = Constrained::descriptor();
    unattested_hidden.attested = false;

    // transparency neglected, stability still demanded
    assert_eq!(
        check(&open_twin, &unattested_hidden, neglect::Transparency.policy()),
        Err(Report::StabilityUnattested)
    );
    // stability neglected, transparency still demanded
    assert!(matches!(
        check(&open_twin, &hidden, neglect::Stability.policy()),
        Err(Report::VisibilityViolation { .. })
    ));
}
