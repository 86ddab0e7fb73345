//! The active protocol configuration: one of the two flavors, with its
//! group parameters, and the generation entry point.

use vstd::prelude::*;
use crate::digits::ConversionError;
use crate::discrete_logarithm::DiscreteLogarithmConfiguration;
use crate::elliptic_curve::EllipticCurveConfiguration;
use crate::wire::GetPublicParametersResponse;

verus! {

/// Which flavor a configuration should be generated for.
#[derive(Clone, Copy, Debug, PartialEq, Eq, Structural)]
pub enum ConfigFlavor {
    /// The multiplicative group modulo a safe prime.
    DiscreteLogarithm,
    /// The Ristretto255 group.
    EllipticCurve,
}

/// The active configuration: exactly one of the two flavors.
pub enum Configuration {
    /// The multiplicative group modulo a safe prime.
    DiscreteLogarithm(DiscreteLogarithmConfiguration),
    /// The Ristretto255 group.
    EllipticCurve(EllipticCurveConfiguration),
}

impl Configuration {
    /// A valid configuration of either flavor.
    pub open spec fn wf(&self) -> bool {
        match self {
            Configuration::DiscreteLogarithm(c) => c.wf(),
            Configuration::EllipticCurve(c) => c.wf(),
        }
    }

    /// Decides the configuration invariant for values that came from
    /// outside, a parsed file for instance; a `true` answer is what the
    /// service constructor asks its caller for.
    pub fn validate(&self) -> (r: bool)
        ensures
            r == self.wf(),
    {
        match self {
            Configuration::DiscreteLogarithm(c) => c.validate(),
            Configuration::EllipticCurve(c) => c.validate(),
        }
    }
}

/// Generates a configuration of the requested flavor; `prime_bits` sizes the
/// modulus of the discrete-logarithm flavor and is ignored by the
/// elliptic-curve flavor.  Failure can come only from exhausting the
/// random-draw budget of a rejection-sampling search.
pub fn generate_config(flavor: ConfigFlavor, prime_bits: usize) -> (r: Result<
    Configuration,
    ConversionError,
>)
    requires
        flavor == ConfigFlavor::DiscreteLogarithm ==> prime_bits >= 4,
    ensures
        r matches Ok(c) ==> c.wf(),
        r matches Ok(c) ==> (flavor == ConfigFlavor::DiscreteLogarithm <==> c
            is DiscreteLogarithm),
        r matches Ok(c) ==> (flavor == ConfigFlavor::EllipticCurve <==> c is EllipticCurve),
{
    match flavor {
        ConfigFlavor::DiscreteLogarithm => {
            let c = DiscreteLogarithmConfiguration::generate(prime_bits)?;
            Ok(Configuration::DiscreteLogarithm(c))
        },
        ConfigFlavor::EllipticCurve => {
            let c = EllipticCurveConfiguration::generate()?;
            Ok(Configuration::EllipticCurve(c))
        },
    }
}

impl DiscreteLogarithmConfiguration {
    /// Renders the group parameters as the wire message that publishes them.
    pub fn to_public_parameters(&self) -> (r: GetPublicParametersResponse)
        ensures
            r.p@ == self.p@,
            r.q@ == self.q@,
            r.g@ == self.g@,
            r.h@ == self.h@,
    {
        GetPublicParametersResponse {
            p: self.p.to_string(),
            q: self.q.to_string(),
            g: self.g.to_string(),
            h: self.h.to_string(),
        }
    }
}

} // verus!
