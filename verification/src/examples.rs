//! Worked example types: small structs whose descriptors exercise padding,
//! packing-by-content and the visibility story, ready for callers and tests.

use crate::descriptor::{default_knobs, well_formed, Descriptor, Field, Shape};
use crate::slot::{Initialized, Kind, Private, Public, Visibility};
use vstd::prelude::*;

verus! {

/// Whether `d` is a primitive of the given width, alignment and class, with
/// default knobs and an attested layout.
pub open spec fn is_primitive(d: Descriptor, w: usize, a: usize, k: Kind) -> bool {
    &&& d.shape matches Shape::Primitive { width, align, kind } && width == w && align == a
        && kind == k
    &&& default_knobs(d)
    &&& d.attested
}

/// A struct with one byte of interior and one byte of trailing padding:
/// `(u8, u16, u8)` under C-compatible rules.
pub struct Padded(pub u8, pub u16, pub u8);

impl Padded {
    /// The descriptor of [`Padded`]: three public fields of widths 1, 2, 1.
    pub fn descriptor() -> (d: Descriptor)
        ensures
            well_formed(d),
            d.attested,
            d.min_align == 1 && d.pack is None,
            d.shape matches Shape::Struct { fields } && fields@.len() == 3 && forall|i: int|
                0 <= i < 3 ==> #[trigger] fields@[i].vis == Visibility::Public,
            d.shape matches Shape::Struct { fields } ==> is_primitive(
                fields@[0].desc,
                1,
                1,
                Kind::Initialized,
            ) && is_primitive(fields@[1].desc, 2, 2, Kind::Initialized) && is_primitive(
                fields@[2].desc,
                1,
                1,
                Kind::Initialized,
            ),
    {
        let mut fields: Vec<Field> = Vec::new();
        fields.push(Field::of(Public, Descriptor::primitive(1, 1, Initialized, true)));
        fields.push(Field::of(Public, Descriptor::primitive(2, 2, Initialized, true)));
        fields.push(Field::of(Public, Descriptor::primitive(1, 1, Initialized, true)));
        proof {
            let fv = fields@;
            assert(well_formed(fv[0].desc));
            assert(well_formed(fv[1].desc));
            assert(well_formed(fv[2].desc));
            assert(fv.drop_first()[0] == fv[1]);
            assert(fv.drop_first().drop_first()[0] == fv[2]);
            assert(fv.drop_first().drop_first().drop_first() =~= Seq::<Field>::empty());
            assert(crate::descriptor::fields_wf(fv.drop_first().drop_first().drop_first()));
            assert(crate::descriptor::fields_wf(fv.drop_first().drop_first()));
            assert(crate::descriptor::fields_wf(fv.drop_first()));
            assert(crate::descriptor::fields_wf(fv));
        }
        Descriptor::structure(fields, true)
    }
}

/// A struct with no padding at all: `(u16, u16, u16)` under C-compatible
/// rules.
pub struct Packed(pub u16, pub u16, pub u16);

impl Packed {
    /// The descriptor of [`Packed`]: three public fields of width 2.
    pub fn descriptor() -> (d: Descriptor)
        ensures
            well_formed(d),
            d.attested,
            d.min_align == 1 && d.pack is None,
            d.shape matches Shape::Struct { fields } && fields@.len() == 3 && forall|i: int|
                0 <= i < 3 ==> #[trigger] fields@[i].vis == Visibility::Public && is_primitive(
                    fields@[i].desc,
                    2,
                    2,
                    Kind::Initialized,
                ),
    {
        let mut fields: Vec<Field> = Vec::new();
        fields.push(Field::of(Public, Descriptor::primitive(2, 2, Initialized, true)));
        fields.push(Field::of(Public, Descriptor::primitive(2, 2, Initialized, true)));
        fields.push(Field::of(Public, Descriptor::primitive(2, 2, Initialized, true)));
        proof {
            let fv = fields@;
            assert(well_formed(fv[0].desc));
            assert(well_formed(fv[1].desc));
            assert(well_formed(fv[2].desc));
            assert(fv.drop_first()[0] == fv[1]);
            assert(fv.drop_first().drop_first()[0] == fv[2]);
            assert(fv.drop_first().drop_first().drop_first() =~= Seq::<Field>::empty());
            assert(crate::descriptor::fields_wf(fv.drop_first().drop_first().drop_first()));
            assert(crate::descriptor::fields_wf(fv.drop_first().drop_first()));
            assert(crate::descriptor::fields_wf(fv.drop_first()));
            assert(crate::descriptor::fields_wf(fv));
        }
        Descriptor::structure(fields, true)
    }
}

/// A type that keeps an invariant over fields it does not expose: outside
/// code must not fabricate its bytes, which its all-`Private` descriptor
/// records.
pub struct Constrained {
    wizz: i8,
    bang: u8,
}

impl Constrained {
    /// The invariant the constructor maintains: the sum of the two fields is
    /// never negative.
    pub closed spec fn inv(self) -> bool {
        self.wizz + self.bang >= 0
    }

    /// The only way to build a [`Constrained`]: the caller must offer field
    /// values whose sum is not negative.
    pub fn new(wizz: i8, bang: u8) -> (r: Constrained)
        requires
            wizz + bang >= 0,
        ensures
            r.inv(),
    {
        Constrained { wizz, bang }
    }

    /// The descriptor of [`Constrained`]: two one-byte fields, both private.
    pub fn descriptor() -> (d: Descriptor)
        ensures
            well_formed(d),
            d.attested,
            d.shape matches Shape::Struct { fields } && fields@.len() == 2 && forall|i: int|
                0 <= i < 2 ==> #[trigger] fields@[i].vis == Visibility::Private && is_primitive(
                    fields@[i].desc,
                    1,
                    1,
                    Kind::Initialized,
                ),
    {
        let mut fields: Vec<Field> = Vec::new();
        fields.push(Field::of(Private, Descriptor::primitive(1, 1, Initialized, true)));
        fields.push(Field::of(Private, Descriptor::primitive(1, 1, Initialized, true)));
        proof {
            let fv = fields@;
            assert(well_formed(fv[0].desc));
            assert(well_formed(fv[1].desc));
            assert(fv.drop_first()[0] == fv[1]);
            assert(fv.drop_first().drop_first() =~= Seq::<Field>::empty());
            assert(crate::descriptor::fields_wf(fv.drop_first().drop_first()));
            assert(crate::descriptor::fields_wf(fv.drop_first()));
            assert(crate::descriptor::fields_wf(fv));
        }
        Descriptor::structure(fields, true)
    }
}

/// The [`Constrained`] twin without any invariant: both fields public.
pub struct Unconstrained {
    pub wizz: u8,
    pub bang: i8,
}

impl Unconstrained {
    /// The descriptor of [`Unconstrained`]: two one-byte fields, both public.
    pub fn descriptor() -> (d: Descriptor)
        ensures
            well_formed(d),
            d.attested,
            d.shape matches Shape::Struct { fields } && fields@.len() == 2 && forall|i: int|
                0 <= i < 2 ==> #[trigger] fields@[i].vis == Visibility::Public && is_primitive(
                    fields@[i].desc,
                    1,
                    1,
                    Kind::Initialized,
                ),
    {
        let mut fields: Vec<Field> = Vec::new();
        fields.push(Field::of(Public, Descriptor::primitive(1, 1, Initialized, true)));
        fields.push(Field::of(Public, Descriptor::primitive(1, 1, Initialized, true)));
        proof {
            let fv = fields@;
            assert(well_formed(fv[0].desc));
            assert(well_formed(fv[1].desc));
            assert(fv.drop_first()[0] == fv[1]);
            assert(fv.drop_first().drop_first() =~= Seq::<Field>::empty());
            assert(crate::descriptor::fields_wf(fv.drop_first().drop_first()));
            assert(crate::descriptor::fields_wf(fv.drop_first()));
            assert(crate::descriptor::fields_wf(fv));
        }
        Descriptor::structure(fields, true)
    }
}

} // verus!
