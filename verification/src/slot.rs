//! The slot model: the vocabulary of atomic byte-level units.
//!
//! A computed layout is an ordered sequence of [`Slot`]s. A slot is either a
//! run of bytes of one validity [`Kind`] and one [`Visibility`], a
//! [`Discriminant`] (initialized bytes carrying a fixed literal tag pattern),
//! or a [`Reference`] (an opaque pointer-sized unit that can also be
//! decomposed into bytes).

use crate::layout::{layout_height, layout_valid, layout_view, Layout, LayoutV};
use vstd::prelude::*;

verus! {

/// The width, in bytes, of a pointer-like slot on the modelled target.
pub const POINTER_WIDTH: usize = 8;

/// The byte-level validity class of a run of bytes: what values the bytes may
/// legally hold.
#[derive(Clone, Copy, Debug, PartialEq, Eq, Structural)]
pub enum Kind {
    /// The bytes may be uninitialized or initialized (padding).
    Uninitialized,
    /// The bytes are initialized, to any value.
    Initialized,
    /// The bytes are initialized and not all-zero.
    NonZero,
}

/// Whether the bytes come from a `pub` field. A `Private` byte may be subject
/// to a validity invariant that is not visible at the structural level.
#[derive(Clone, Copy, Debug, PartialEq, Eq, Structural)]
pub enum Visibility {
    Public,
    Private,
}

/// Whether a pointer-like slot grants unique (`&mut`-like) or shared
/// (`&`-like) access to its pointee.
#[derive(Clone, Copy, Debug, PartialEq, Eq, Structural)]
pub enum Mutability {
    Shared,
    Unique,
}

/// The meet of two visibilities: bytes reached through a `Private` field are
/// `Private`, however they are declared further down.
pub open spec fn vis_min(a: Visibility, b: Visibility) -> Visibility {
    if a == Visibility::Private || b == Visibility::Private {
        Visibility::Private
    } else {
        Visibility::Public
    }
}

/// A name for one byte-validity class, so call sites can pick a [`Kind`] by
/// name.
pub trait KindChoice {
    spec fn chosen(&self) -> Kind;

    fn pick(&self) -> (k: Kind)
        ensures
            k == self.chosen(),
    ;
}

/// The byte(s) may be uninitialized: the name of [`Kind::Uninitialized`].
pub struct Uninitialized;

/// The byte(s) are initialized to any value: the name of [`Kind::Initialized`].
pub struct Initialized;

/// The byte(s) are initialized and not all-zero: the name of [`Kind::NonZero`].
pub struct NonZero;

impl KindChoice for Uninitialized {
    open spec fn chosen(&self) -> Kind {
        Kind::Uninitialized
    }

    fn pick(&self) -> Kind {
        Kind::Uninitialized
    }
}

impl KindChoice for Initialized {
    open spec fn chosen(&self) -> Kind {
        Kind::Initialized
    }

    fn pick(&self) -> Kind {
        Kind::Initialized
    }
}

impl KindChoice for NonZero {
    open spec fn chosen(&self) -> Kind {
        Kind::NonZero
    }

    fn pick(&self) -> Kind {
        Kind::NonZero
    }
}

/// A name for one visibility, so call sites can pick a [`Visibility`] by name.
pub trait VisibilityChoice {
    spec fn chosen(&self) -> Visibility;

    fn pick(&self) -> (v: Visibility)
        ensures
            v == self.chosen(),
    ;
}

/// The data is from a `pub` field: the name of [`Visibility::Public`].
pub struct Public;

/// The data is from a field that is not `pub`: the name of
/// [`Visibility::Private`].
pub struct Private;

impl VisibilityChoice for Public {
    open spec fn chosen(&self) -> Visibility {
        Visibility::Public
    }

    fn pick(&self) -> Visibility {
        Visibility::Public
    }
}

impl VisibilityChoice for Private {
    open spec fn chosen(&self) -> Visibility {
        Visibility::Private
    }

    fn pick(&self) -> Visibility {
        Visibility::Private
    }
}

/// A name for one mutability, so call sites can pick a [`Mutability`] by name.
pub trait MutabilityChoice {
    spec fn chosen(&self) -> Mutability;

    fn pick(&self) -> (m: Mutability)
        ensures
            m == self.chosen(),
    ;
}

/// Shared (`&`-like) access: the name of [`Mutability::Shared`].
pub struct Shared;

/// Unique (`&mut`-like) access: the name of [`Mutability::Unique`].
pub struct Unique;

impl MutabilityChoice for Shared {
    open spec fn chosen(&self) -> Mutability {
        Mutability::Shared
    }

    fn pick(&self) -> Mutability {
        Mutability::Shared
    }
}

impl MutabilityChoice for Unique {
    open spec fn chosen(&self) -> Mutability {
        Mutability::Unique
    }

    fn pick(&self) -> Mutability {
        Mutability::Unique
    }
}

/// A discriminant slot: initialized bytes that additionally carry a fixed
/// literal byte pattern (the tag of one variant of a tagged union). Two
/// discriminant slots are mutually compatible only where their patterns are
/// byte-identical.
#[derive(Debug)]
pub struct Discriminant {
    pub vis: Visibility,
    /// The tag's literal bytes, in memory order (least significant byte
    /// first).
    pub pattern: Vec<u8>,
}

/// A reference slot: an opaque, pointer-sized unit. It is compared against
/// another reference slot by the pointer rule (mutability, lifetime scope,
/// pointee compatibility, pointee alignment), and against plain bytes by
/// decomposing into [`POINTER_WIDTH`] bytes, the first of which is
/// [`Kind::NonZero`] for a non-null reference (least significant byte first).
#[derive(Debug)]
pub struct Reference {
    pub vis: Visibility,
    pub mutability: Mutability,
    /// Whether the pointer is known non-null: true for a reference, false for
    /// a raw pointer.
    pub nonnull: bool,
    /// The lifetime scope of the pointee: a larger scope outlives a smaller
    /// one. Meaningful only where `nonnull` holds; raw pointers carry no
    /// scope.
    pub scope: u64,
    /// The full layout of the pointed-to type.
    pub pointee: Layout,
}

/// The atomic unit of a computed layout.
#[derive(Debug)]
pub enum Slot {
    /// `width` bytes that may hold any value of the validity class `kind`.
    Bytes { kind: Kind, vis: Visibility, width: usize },
    /// Initialized bytes carrying a fixed literal tag pattern.
    Discriminant(Discriminant),
    /// A pointer-like unit.
    Reference(Reference),
}

/// The mathematical value of a [`Slot`].
pub ghost enum SlotV {
    Bytes { kind: Kind, vis: Visibility, width: nat },
    Discriminant { vis: Visibility, pattern: Seq<u8> },
    Reference { vis: Visibility, mutability: Mutability, nonnull: bool, scope: nat, pointee: LayoutV },
}

pub open spec fn slot_view(s: Slot) -> SlotV
    decreases s,
{
    match s {
        Slot::Bytes { kind, vis, width } => SlotV::Bytes { kind, vis, width: width as nat },
        Slot::Discriminant(d) => SlotV::Discriminant { vis: d.vis, pattern: d.pattern@ },
        Slot::Reference(r) => SlotV::Reference {
            vis: r.vis,
            mutability: r.mutability,
            nonnull: r.nonnull,
            scope: r.scope as nat,
            pointee: layout_view(r.pointee),
        },
    }
}

pub open spec fn slots_view(v: Seq<Slot>) -> Seq<SlotV>
    decreases v,
{
    if v.len() == 0 {
        Seq::empty()
    } else {
        seq![slot_view(v[0])] + slots_view(v.drop_first())
    }
}

impl View for Slot {
    type V = SlotV;

    open spec fn view(&self) -> SlotV {
        slot_view(*self)
    }
}

/// The width, in bytes, of one slot.
pub open spec fn slot_wid(s: SlotV) -> nat {
    match s {
        SlotV::Bytes { width, .. } => width,
        SlotV::Discriminant { pattern, .. } => pattern.len(),
        SlotV::Reference { .. } => POINTER_WIDTH as nat,
    }
}

/// The summed width, in bytes, of a slot sequence.
pub open spec fn seq_wid(s: Seq<SlotV>) -> nat
    decreases s,
{
    if s.len() == 0 {
        0
    } else {
        slot_wid(s[0]) + seq_wid(s.drop_first())
    }
}

/// The width a sequence still has after `o` of its bytes are consumed
/// (clamped at zero).
pub open spec fn rem_wid(s: Seq<SlotV>, o: nat) -> nat {
    if seq_wid(s) >= o {
        (seq_wid(s) - o) as nat
    } else {
        0
    }
}

/// What one byte of a slot may hold: its validity class, its visibility, and,
/// for a discriminant byte, the fixed value it must carry.
pub ghost struct ByteClass {
    pub kind: Kind,
    pub vis: Visibility,
    pub fixed: Option<u8>,
}

/// The class of byte `k` of slot `s` (meaningful for `k < slot_wid(s)`). A
/// non-null reference decomposes into one `NonZero` byte followed by
/// `Initialized` bytes; a raw pointer into `Initialized` bytes alone.
pub open spec fn class_at(s: SlotV, k: nat) -> ByteClass {
    match s {
        SlotV::Bytes { kind, vis, .. } => ByteClass { kind, vis, fixed: None },
        SlotV::Discriminant { vis, pattern } => ByteClass {
            kind: Kind::Initialized,
            vis,
            fixed: Some(pattern[k as int]),
        },
        SlotV::Reference { vis, nonnull, .. } => ByteClass {
            kind: if nonnull && k == 0 {
                Kind::NonZero
            } else {
                Kind::Initialized
            },
            vis,
            fixed: None,
        },
    }
}

/// The nesting height of a slot: how deep reference pointees are stacked
/// under it. The well-founded measure of every recursion that follows
/// reference pointees.
pub open spec fn slot_height(s: SlotV) -> nat
    decreases s,
{
    match s {
        SlotV::Reference { pointee, .. } => 1 + layout_height(pointee),
        _ => 0,
    }
}

/// The summed nesting height of a slot sequence.
pub open spec fn slots_height(s: Seq<SlotV>) -> nat
    decreases s,
{
    if s.len() == 0 {
        0
    } else {
        slot_height(s[0]) + slots_height(s.drop_first())
    }
}

/// Whether a slot is internally consistent: reference pointees carry valid
/// layouts.
pub open spec fn slot_valid(s: SlotV) -> bool
    decreases s,
{
    match s {
        SlotV::Reference { pointee, .. } => layout_valid(pointee),
        _ => true,
    }
}

/// Whether every slot of a sequence is internally consistent.
pub open spec fn slots_valid(s: Seq<SlotV>) -> bool
    decreases s,
{
    if s.len() == 0 {
        true
    } else {
        slot_valid(s[0]) && slots_valid(s.drop_first())
    }
}

/// `slots_view` maps `slot_view` over the sequence, index by index.
pub proof fn lemma_slots_view_index(v: Seq<Slot>)
    ensures
        slots_view(v).len() == v.len(),
        forall|i: int| 0 <= i < v.len() ==> slots_view(v)[i] == slot_view(v[i]),
    decreases v,
{
    if v.len() > 0 {
        lemma_slots_view_index(v.drop_first());
    }
}

/// Summed width, height and validity of a sequence, read at one index: the
/// head-recursive definitions, restated over an arbitrary split.
pub proof fn lemma_slots_split(s: Seq<SlotV>, i: int)
    requires
        0 <= i < s.len(),
    ensures
        seq_wid(s) >= slot_wid(s[i]),
        slots_height(s) >= slot_height(s[i]),
        slots_valid(s) ==> slot_valid(s[i]),
    decreases s,
{
    if i > 0 {
        lemma_slots_split(s.drop_first(), i - 1);
        assert(s.drop_first()[i - 1] == s[i]);
    }
}

} // verus!
