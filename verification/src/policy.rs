//! The safety policy: five orthogonal dimensions, combined into one decision
//! configuration for a compatibility query.

use vstd::prelude::*;

verus! {

/// Whether byte validity may be widened (a `NonZero` source byte read back as
/// plain `Initialized`, an `Initialized` one as `Uninitialized`), or must
/// match exactly.
#[derive(Clone, Copy, Debug, PartialEq, Eq, Structural)]
pub enum Variance {
    /// Only identical validity classes are compatible.
    Invariant,
    /// Validity may be widened, and an owned private source byte may be read
    /// back as public.
    Variant,
}

/// Whether, between two references, the destination pointee's alignment must
/// be proven no stricter than the source pointee's.
#[derive(Clone, Copy, Debug, PartialEq, Eq, Structural)]
pub enum Alignment {
    /// Alignment is proven structurally.
    Static,
    /// Alignment is not checked; only legal for operations that check it by
    /// other means.
    Unchecked,
}

/// Whether a destination byte of `Private` visibility is rejected (its
/// hidden invariant cannot be assumed satisfied).
#[derive(Clone, Copy, Debug, PartialEq, Eq, Structural)]
pub enum Transparency {
    /// Every destination byte must be public.
    Enforced,
    /// The caller asserts the destination's hidden invariants hold.
    Unenforced,
}

/// Whether both sides must carry an attested, guaranteed-stable layout.
#[derive(Clone, Copy, Debug, PartialEq, Eq, Structural)]
pub enum Stability {
    /// Both layouts must be attested external contracts.
    Stable,
    /// Attestation is not required.
    Unstable,
}

/// Whether the structural relation must hold for all bit patterns of the
/// source, or the caller asserts compatibility despite a structural failure.
#[derive(Clone, Copy, Debug, PartialEq, Eq, Structural)]
pub enum Validity {
    /// Every bit pattern of the source must be a valid destination value.
    AlwaysValid,
    /// The caller takes the correctness burden; the structural check is
    /// waived.
    MaybeInvalid,
}

/// One compatibility query's full configuration: an immutable bundle of the
/// five dimensions, created at the call site and discarded after the query.
#[derive(Clone, Copy, Debug, PartialEq, Eq, Structural)]
pub struct Policy {
    pub variance: Variance,
    pub alignment: Alignment,
    pub transparency: Transparency,
    pub stability: Stability,
    pub validity: Validity,
}

impl Policy {
    /// The strictest policy: exact validity, static alignment, enforced
    /// transparency, attested stability, all bit patterns valid.
    pub fn strict() -> (p: Policy)
        ensures
            p == Policy::strict_spec(),
    {
        Policy {
            variance: Variance::Invariant,
            alignment: Alignment::Static,
            transparency: Transparency::Enforced,
            stability: Stability::Stable,
            validity: Validity::AlwaysValid,
        }
    }

    pub open spec fn strict_spec() -> Policy {
        Policy {
            variance: Variance::Invariant,
            alignment: Alignment::Static,
            transparency: Transparency::Enforced,
            stability: Stability::Stable,
            validity: Validity::AlwaysValid,
        }
    }

    /// The safe default for owned-value conversions: as `strict`, but validity
    /// may widen (an owned value's bytes may lose, never gain, validity
    /// guarantees).
    pub open spec fn default_spec() -> Policy {
        Policy {
            variance: Variance::Variant,
            alignment: Alignment::Static,
            transparency: Transparency::Enforced,
            stability: Stability::Stable,
            validity: Validity::AlwaysValid,
        }
    }

    /// The same policy with the variance dimension replaced: dereferencing a
    /// transmuted reference must never observe invalid bytes, so pointee
    /// checks always re-run at `Invariant`.
    pub open spec fn with_variance(self, v: Variance) -> Policy {
        Policy { variance: v, ..self }
    }

    /// Build a policy from one named choice per dimension, so a call site
    /// reads as the explicit list of what it demands.
    pub fn of<V: VarianceChoice, A: AlignmentChoice, T: TransparencyChoice, S: StabilityChoice, C: ValidityChoice>(
        variance: V,
        alignment: A,
        transparency: T,
        stability: S,
        validity: C,
    ) -> (p: Policy)
        ensures
            p == (Policy {
                variance: variance.chosen(),
                alignment: alignment.chosen(),
                transparency: transparency.chosen(),
                stability: stability.chosen(),
                validity: validity.chosen(),
            }),
    {
        Policy {
            variance: variance.pick(),
            alignment: alignment.pick(),
            transparency: transparency.pick(),
            stability: stability.pick(),
            validity: validity.pick(),
        }
    }
}

impl Default for Policy {
    /// The safe default for owned-value conversions.
    fn default() -> (p: Policy)
        ensures
            p == Policy::default_spec(),
    {
        Policy {
            variance: Variance::Variant,
            alignment: Alignment::Static,
            transparency: Transparency::Enforced,
            stability: Stability::Stable,
            validity: Validity::AlwaysValid,
        }
    }
}

/// A name for one variance choice.
pub trait VarianceChoice {
    spec fn chosen(&self) -> Variance;

    fn pick(&self) -> (v: Variance)
        ensures
            v == self.chosen(),
    ;
}

/// Validity classes must match exactly: the name of [`Variance::Invariant`].
pub struct Invariant;

/// Validity classes may widen: the name of [`Variance::Variant`].
pub struct Variant;

impl VarianceChoice for Invariant {
    open spec fn chosen(&self) -> Variance {
        Variance::Invariant
    }

    fn pick(&self) -> Variance {
        Variance::Invariant
    }
}

impl VarianceChoice for Variant {
    open spec fn chosen(&self) -> Variance {
        Variance::Variant
    }

    fn pick(&self) -> Variance {
        Variance::Variant
    }
}

/// A name for one alignment choice.
pub trait AlignmentChoice {
    spec fn chosen(&self) -> Alignment;

    fn pick(&self) -> (a: Alignment)
        ensures
            a == self.chosen(),
    ;
}

/// Alignment is proven structurally: the name of [`Alignment::Static`].
pub struct Static;

/// Alignment is not checked: the name of [`Alignment::Unchecked`].
pub struct Unchecked;

impl AlignmentChoice for Static {
    open spec fn chosen(&self) -> Alignment {
        Alignment::Static
    }

    fn pick(&self) -> Alignment {
        Alignment::Static
    }
}

impl AlignmentChoice for Unchecked {
    open spec fn chosen(&self) -> Alignment {
        Alignment::Unchecked
    }

    fn pick(&self) -> Alignment {
        Alignment::Unchecked
    }
}

/// A name for one transparency choice.
pub trait TransparencyChoice {
    spec fn chosen(&self) -> Transparency;

    fn pick(&self) -> (t: Transparency)
        ensures
            t == self.chosen(),
    ;
}

/// Private destination bytes are rejected: the name of
/// [`Transparency::Enforced`].
pub struct Enforced;

/// The caller vouches for hidden invariants: the name of
/// [`Transparency::Unenforced`].
pub struct Unenforced;

impl TransparencyChoice for Enforced {
    open spec fn chosen(&self) -> Transparency {
        Transparency::Enforced
    }

    fn pick(&self) -> Transparency {
        Transparency::Enforced
    }
}

impl TransparencyChoice for Unenforced {
    open spec fn chosen(&self) -> Transparency {
        Transparency::Unenforced
    }

    fn pick(&self) -> Transparency {
        Transparency::Unenforced
    }
}

/// A name for one stability choice.
pub trait StabilityChoice {
    spec fn chosen(&self) -> Stability;

    fn pick(&self) -> (s: Stability)
        ensures
            s == self.chosen(),
    ;
}

/// Both layouts must be attested: the name of [`Stability::Stable`].
pub struct Stable;

/// Attestation is not required: the name of [`Stability::Unstable`].
pub struct Unstable;

impl StabilityChoice for Stable {
    open spec fn chosen(&self) -> Stability {
        Stability::Stable
    }

    fn pick(&self) -> Stability {
        Stability::Stable
    }
}

impl StabilityChoice for Unstable {
    open spec fn chosen(&self) -> Stability {
        Stability::Unstable
    }

    fn pick(&self) -> Stability {
        Stability::Unstable
    }
}

/// A name for one validity choice.
pub trait ValidityChoice {
    spec fn chosen(&self) -> Validity;

    fn pick(&self) -> (v: Validity)
        ensures
            v == self.chosen(),
    ;
}

/// All bit patterns of the source must be valid: the name of
/// [`Validity::AlwaysValid`].
pub struct AlwaysValid;

/// The caller asserts compatibility: the name of [`Validity::MaybeInvalid`].
pub struct MaybeInvalid;

impl ValidityChoice for AlwaysValid {
    open spec fn chosen(&self) -> Validity {
        Validity::AlwaysValid
    }

    fn pick(&self) -> Validity {
        Validity::AlwaysValid
    }
}

impl ValidityChoice for MaybeInvalid {
    open spec fn chosen(&self) -> Validity {
        Validity::MaybeInvalid
    }

    fn pick(&self) -> Validity {
        Validity::MaybeInvalid
    }
}

} // verus!
