//! The protocol's fixed sources of doubt.

use vstd::prelude::*;
use crate::error::InvalidParameter;
use crate::fixed::{fixed_mul, ONE};
use crate::model::{doubt, ParamsView};

verus! {

/// The probability that the protocol eventually accepts a valid claim: 0.99.
pub const COMPLETENESS: u64 = 990_000_000_000_000_000;

/// The bias that the randomness of the verifier selection leaves: 0.001.
pub const VRF_BIAS: u64 = 1_000_000_000_000_000;

/// The mass reserved for Byzantine failure, always subtracted: 0.0001.
pub const BFT_FAIL: u64 = 100_000_000_000_000;

/// The parameters that the protocol runs with unless told otherwise.
pub open spec fn standard_params() -> ParamsView {
    ParamsView {
        completeness: COMPLETENESS as nat,
        vrf_bias: VRF_BIAS as nat,
        bft_fail: BFT_FAIL as nat,
    }
}

/// The error that `ProtocolParams::new` gives for the three values, if any:
/// the first of them that exceeds 1 is named.
pub open spec fn params_error(completeness: u64, vrf_bias: u64, bft_fail: u64) -> Option<
    InvalidParameter,
> {
    if completeness > ONE {
        Some(InvalidParameter::Completeness)
    } else if vrf_bias > ONE {
        Some(InvalidParameter::VrfBias)
    } else if bft_fail > ONE {
        Some(InvalidParameter::BftFail)
    } else {
        None
    }
}

/// Completeness, selection bias and Byzantine mass, each a probability.
#[derive(Clone, Copy, Debug, PartialEq, Eq)]
pub struct ProtocolParams {
    completeness: u64,
    vrf_bias: u64,
    bft_fail: u64,
}

impl View for ProtocolParams {
    type V = ParamsView;

    closed spec fn view(&self) -> ParamsView {
        ParamsView {
            completeness: self.completeness as nat,
            vrf_bias: self.vrf_bias as nat,
            bft_fail: self.bft_fail as nat,
        }
    }
}

impl ProtocolParams {
    #[verifier::type_invariant]
    spec fn well_formed(self) -> bool {
        &&& self.completeness <= ONE
        &&& self.vrf_bias <= ONE
        &&& self.bft_fail <= ONE
    }

    /// Checks that each value is at most 1 and keeps them.
    pub fn new(completeness: u64, vrf_bias: u64, bft_fail: u64) -> (made: Result<
        ProtocolParams,
        InvalidParameter,
    >)
        ensures
            match made {
                Ok(params) => params_error(completeness, vrf_bias, bft_fail) is None && params@ == (
                ParamsView {
                    completeness: completeness as nat,
                    vrf_bias: vrf_bias as nat,
                    bft_fail: bft_fail as nat,
                }),
                Err(error) => params_error(completeness, vrf_bias, bft_fail) == Some(error),
            },
    {
        if completeness > ONE {
            Err(InvalidParameter::Completeness)
        } else if vrf_bias > ONE {
            Err(InvalidParameter::VrfBias)
        } else if bft_fail > ONE {
            Err(InvalidParameter::BftFail)
        } else {
            Ok(ProtocolParams { completeness, vrf_bias, bft_fail })
        }
    }

    /// The protocol's own constants.
    pub fn standard() -> (params: ProtocolParams)
        ensures
            params@ == standard_params(),
    {
        ProtocolParams { completeness: COMPLETENESS, vrf_bias: VRF_BIAS, bft_fail: BFT_FAIL }
    }

    /// The probability that the protocol eventually accepts a valid claim.
    pub fn completeness(&self) -> (value: u64)
        ensures
            value == self@.completeness,
            value <= ONE,
    {
        proof {
            use_type_invariant(self);
        }
        self.completeness
    }

    /// The bias that the verifier selection leaves.
    pub fn vrf_bias(&self) -> (value: u64)
        ensures
            value == self@.vrf_bias,
            value <= ONE,
    {
        proof {
            use_type_invariant(self);
        }
        self.vrf_bias
    }

    /// The mass reserved for Byzantine failure.
    pub fn bft_fail(&self) -> (value: u64)
        ensures
            value == self@.bft_fail,
            value <= ONE,
    {
        proof {
            use_type_invariant(self);
        }
        self.bft_fail
    }

    /// The doubt that no number of rounds removes.
    pub fn doubt(&self) -> (value: u64)
        ensures
            value == doubt(self@),
            value <= ONE,
    {
        proof {
            use_type_invariant(self);
        }
        fixed_mul(ONE - self.completeness, ONE - self.vrf_bias)
    }
}

} // verus!
