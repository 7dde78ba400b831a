//! Why a configuration is refused.
use crate::ieee::double::Double;
use crate::ieee::single::Single;
use vstd::prelude::*;

verus! {

/// A number that a message quotes, in the type it has in the configuration.
#[derive(Clone, Copy, Debug)]
pub enum Quantity {
    Wide(Double),
    Narrow(Single),
    Count(u64),
}

/// The first rule that a configuration breaks. Each `{}` of the template
/// stands for the next of the quoted numbers.
#[derive(Clone, Copy, Debug)]
pub struct ConfigError {
    pub template: &'static str,
    pub first: Option<Quantity>,
    pub second: Option<Quantity>,
}

/// `None` where the rule holds, else the error that quotes `value`.
pub open spec fn spec_rule(holds: bool, template: &'static str, value: Quantity) -> Option<
    ConfigError,
> {
    if holds {
        None
    } else {
        Some(ConfigError { template, first: Some(value), second: None })
    }
}

#[verifier::when_used_as_spec(spec_rule)]
pub fn rule(holds: bool, template: &'static str, value: Quantity) -> (r: Option<ConfigError>)
    ensures
        r == spec_rule(holds, template, value),
{
    if holds {
        None
    } else {
        Some(ConfigError { template, first: Some(value), second: None })
    }
}

/// `None` where `v` is positive and finite, else the error that quotes it.
pub open spec fn spec_positive(v: Double, template: &'static str) -> Option<ConfigError> {
    spec_rule(v.positive(), template, Quantity::Wide(v))
}

#[verifier::when_used_as_spec(spec_positive)]
pub fn positive(v: Double, template: &'static str) -> (r: Option<ConfigError>)
    ensures
        r == spec_positive(v, template),
{
    rule(v.positive(), template, Quantity::Wide(v))
}

/// `None` where `v` is finite and not negative, else the error that quotes it.
pub open spec fn spec_nonnegative(v: Double, template: &'static str) -> Option<ConfigError> {
    spec_rule(v.nonnegative(), template, Quantity::Wide(v))
}

#[verifier::when_used_as_spec(spec_nonnegative)]
pub fn nonnegative(v: Double, template: &'static str) -> (r: Option<ConfigError>)
    ensures
        r == spec_nonnegative(v, template),
{
    rule(v.nonnegative(), template, Quantity::Wide(v))
}

/// `None` where the rule holds, else the error that quotes both values.
pub open spec fn spec_rule_pair(
    holds: bool,
    template: &'static str,
    a: Quantity,
    b: Quantity,
) -> Option<ConfigError> {
    if holds {
        None
    } else {
        Some(ConfigError { template, first: Some(a), second: Some(b) })
    }
}

#[verifier::when_used_as_spec(spec_rule_pair)]
pub fn rule_pair(holds: bool, template: &'static str, a: Quantity, b: Quantity) -> (r: Option<
    ConfigError,
>)
    ensures
        r == spec_rule_pair(holds, template, a, b),
{
    if holds {
        None
    } else {
        Some(ConfigError { template, first: Some(a), second: Some(b) })
    }
}

/// `None` where the rule holds, else the error that quotes nothing.
pub open spec fn spec_rule_plain(holds: bool, template: &'static str) -> Option<ConfigError> {
    if holds {
        None
    } else {
        Some(ConfigError { template, first: None, second: None })
    }
}

#[verifier::when_used_as_spec(spec_rule_plain)]
pub fn rule_plain(holds: bool, template: &'static str) -> (r: Option<ConfigError>)
    ensures
        r == spec_rule_plain(holds, template),
{
    if holds {
        None
    } else {
        Some(ConfigError { template, first: None, second: None })
    }
}

/// The first error among checks made one after the other.
pub open spec fn first_fault(checks: Seq<Option<ConfigError>>) -> Option<ConfigError>
    decreases checks.len(),
{
    if checks.len() == 0 {
        None
    } else if checks[0] is Some {
        checks[0]
    } else {
        first_fault(checks.drop_first())
    }
}

/// The verdict on a configuration: `Ok`, or its first error.
pub open spec fn verdict(e: Option<ConfigError>) -> Result<(), ConfigError> {
    match e {
        None => Ok(()),
        Some(e) => Err(e),
    }
}

/// A list of checks finds nothing exactly where each of them finds nothing.
pub proof fn lemma_no_fault(checks: Seq<Option<ConfigError>>)
    ensures
        first_fault(checks) is None <==> (forall|i: int|
            0 <= i < checks.len() ==> (#[trigger] checks[i]) is None),
    decreases checks.len(),
{
    if checks.len() > 0 {
        let rest = checks.drop_first();
        lemma_no_fault(rest);
        assert(forall|i: int| 0 <= i < rest.len() ==> rest[i] == checks[i + 1]);
        if checks[0] is None {
            assert(forall|i: int|
                0 < i < checks.len() ==> (#[trigger] checks[i]) == rest[i - 1]);
        }
    }
}

/// The first error of two lists of checks, made one after the other.
pub proof fn lemma_first_fault_joined(
    a: Seq<Option<ConfigError>>,
    b: Seq<Option<ConfigError>>,
)
    ensures
        first_fault(a + b) == if first_fault(a) is Some {
            first_fault(a)
        } else {
            first_fault(b)
        },
    decreases a.len(),
{
    if a.len() == 0 {
        assert(a + b == b);
    } else {
        assert((a + b).drop_first() == a.drop_first() + b);
        lemma_first_fault_joined(a.drop_first(), b);
    }
}

/// Reports the first error in the list.
pub fn report(checks: Vec<Option<ConfigError>>) -> (r: Result<(), ConfigError>)
    ensures
        r == verdict(first_fault(checks@)),
{
    let mut i: usize = 0;
    assert(checks@.skip(0) == checks@);
    while i < checks.len()
        invariant
            i <= checks.len(),
            first_fault(checks@) == first_fault(checks@.skip(i as int)),
        decreases checks.len() - i,
    {
        let ghost rest = checks@.skip(i as int);
        if let Some(e) = checks[i] {
            return Err(e);
        }
        proof {
            assert(rest[0] == checks@[i as int]);
            assert(rest.drop_first() == checks@.skip(i + 1));
        }
        i = i + 1;
    }
    assert(checks@.skip(i as int).len() == 0);
    Ok(())
}

} // verus!
