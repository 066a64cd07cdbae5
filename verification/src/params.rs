//! What becomes of a generation parameter on its way to a model: nothing is
//! made up for a model without a configuration.

use crate::number::{double_below, is_below, is_nan};
use vstd::prelude::*;

verus! {

/// What is done with a value that a model does not take as it is.
#[derive(Debug, Clone, Copy, PartialEq, Eq, Structural)]
pub enum ParamPolicy {
    /// It is sent all the same.
    Forward,
    /// It is moved to the nearest bound.
    Clamp,
    /// The request is refused.
    Reject,
    /// The parameter is left out.
    Drop,
}

/// The configuration of a parameter. Values are given as the bits of doubles.
#[derive(Debug, Clone, Copy, PartialEq, Eq, Structural)]
pub struct ParamRule {
    pub supported: bool,
    pub policy: ParamPolicy,
    pub min: Option<u64>,
    pub max: Option<u64>,
    pub default: Option<u64>,
}

/// What becomes of a parameter.
#[derive(Debug, Clone, Copy, PartialEq, Eq, Structural)]
pub enum ParamFate {
    Send(u64),
    Omit,
    Reject,
}

/// A client's value that is below the minimum.
pub open spec fn too_low(rule: ParamRule, v: u64) -> bool {
    rule.min is Some && double_below(v, rule.min->0)
}

/// A client's value that is above the maximum.
pub open spec fn too_high(rule: ParamRule, v: u64) -> bool {
    rule.max is Some && double_below(rule.max->0, v)
}

/// What becomes of a value that a client gave.
pub open spec fn value_fate(rule: ParamRule, v: u64) -> ParamFate {
    if !rule.supported {
        if rule.policy == ParamPolicy::Reject {
            ParamFate::Reject
        } else {
            ParamFate::Omit
        }
    } else if rule.policy == ParamPolicy::Drop {
        ParamFate::Omit
    } else if too_low(rule, v) {
        match rule.policy {
            ParamPolicy::Clamp => ParamFate::Send(rule.min->0),
            ParamPolicy::Reject => ParamFate::Reject,
            _ => ParamFate::Send(v),
        }
    } else if too_high(rule, v) {
        match rule.policy {
            ParamPolicy::Clamp => ParamFate::Send(rule.max->0),
            ParamPolicy::Reject => ParamFate::Reject,
            _ => ParamFate::Send(v),
        }
    } else {
        ParamFate::Send(v)
    }
}

/// What becomes of a parameter: without a configuration a client's value is sent
/// as it is, and nothing where there is none; with one, the default stands in
/// for a value that the client does not give.
pub open spec fn param_fate(rule: Option<ParamRule>, client: Option<u64>) -> ParamFate {
    match (rule, client) {
        (None, Some(v)) => ParamFate::Send(v),
        (None, None) => ParamFate::Omit,
        (Some(r), Some(v)) => value_fate(r, v),
        (Some(r), None) => if r.supported && r.policy != ParamPolicy::Drop && r.default is Some {
            ParamFate::Send(r.default->0)
        } else {
            ParamFate::Omit
        },
    }
}

/// What becomes of a parameter.
pub fn settle_param(rule: Option<ParamRule>, client: Option<u64>) -> (r: ParamFate)
    ensures
        r == param_fate(rule, client),
{
    let rule = match rule {
        Some(x) => x,
        None => {
            return match client {
                Some(v) => ParamFate::Send(v),
                None => ParamFate::Omit,
            };
        },
    };
    let v: u64 = match client {
        Some(v) => v,
        None => {
            return match rule.default {
                Some(d) => if rule.supported && rule.policy != ParamPolicy::Drop {
                    ParamFate::Send(d)
                } else {
                    ParamFate::Omit
                },
                None => ParamFate::Omit,
            };
        },
    };
    if !rule.supported {
        return if rule.policy == ParamPolicy::Reject {
            ParamFate::Reject
        } else {
            ParamFate::Omit
        };
    }
    if rule.policy == ParamPolicy::Drop {
        return ParamFate::Omit;
    }
    if let Some(min) = rule.min {
        if is_below(v, min) {
            return match rule.policy {
                ParamPolicy::Clamp => ParamFate::Send(min),
                ParamPolicy::Reject => ParamFate::Reject,
                _ => ParamFate::Send(v),
            };
        }
    }
    if let Some(max) = rule.max {
        if is_below(max, v) {
            return match rule.policy {
                ParamPolicy::Clamp => ParamFate::Send(max),
                ParamPolicy::Reject => ParamFate::Reject,
                _ => ParamFate::Send(v),
            };
        }
    }
    ParamFate::Send(v)
}

/// A default never stands in for a value that the client gave.
pub proof fn law_client_value_wins(rule: ParamRule, other: Option<u64>, v: u64)
    ensures
        param_fate(Some(rule), Some(v)) == param_fate(
            Some(ParamRule { default: other, ..rule }),
            Some(v),
        ),
{
}

/// No default is made up: a parameter that neither the client nor the
/// configuration gives is left out.
pub proof fn law_no_invented_defaults(rule: Option<ParamRule>)
    requires
        rule matches Some(r) ==> r.default is None,
    ensures
        param_fate(rule, None) == ParamFate::Omit,
{
}

/// What is sent under clamping is within the bounds, where they are in order and
/// the value is a number.
pub proof fn law_clamped_is_within_bounds(rule: ParamRule, v: u64)
    requires
        rule.supported,
        rule.policy == ParamPolicy::Clamp,
        !is_nan(v),
        rule.min is Some && rule.max is Some ==> !double_below(rule.max->0, rule.min->0),
    ensures
        param_fate(Some(rule), Some(v)) matches ParamFate::Send(sent) && !too_low(rule, sent)
            && !too_high(rule, sent),
{
}

/// A value within the bounds is sent as it is, whatever is done with others.
pub proof fn law_values_within_bounds_are_sent(rule: ParamRule, v: u64)
    requires
        rule.supported,
        rule.policy != ParamPolicy::Drop,
        rule.min matches Some(min) ==> !double_below(v, min),
        rule.max matches Some(max) ==> !double_below(max, v),
    ensures
        param_fate(Some(rule), Some(v)) == ParamFate::Send(v),
{
}

/// A value out of bounds meets its policy: it is sent all the same, moved to the
/// bound that it passes, or refused.
pub proof fn law_values_out_of_bounds_meet_the_policy(rule: ParamRule, v: u64)
    requires
        rule.supported,
    ensures
        ({
            let low = rule.min is Some && double_below(v, rule.min->0);
            let high = rule.max is Some && double_below(rule.max->0, v);
            let fate = param_fate(Some(rule), Some(v));
            &&& rule.policy == ParamPolicy::Forward ==> fate == ParamFate::Send(v)
            &&& rule.policy == ParamPolicy::Reject ==> (fate == ParamFate::Reject <==> low || high)
            &&& rule.policy == ParamPolicy::Clamp && low ==> fate == ParamFate::Send(rule.min->0)
            &&& rule.policy == ParamPolicy::Clamp && high && !low ==> fate == ParamFate::Send(
                rule.max->0,
            )
            &&& rule.policy == ParamPolicy::Drop ==> fate == ParamFate::Omit
        }),
{
}

/// A parameter that the model does not support is never sent, and refused only
/// where the policy says so and the client asked for it.
pub proof fn law_unsupported_parameters_are_not_sent(rule: ParamRule, client: Option<u64>)
    requires
        !rule.supported,
    ensures
        !(param_fate(Some(rule), client) is Send),
        param_fate(Some(rule), client) == ParamFate::Reject <==> rule.policy == ParamPolicy::Reject
            && client is Some,
{
}

/// Without a rule the client's value goes through unchanged, and without a value
/// a supported parameter takes its configured default.
pub proof fn law_defaults_and_no_rules(rule: ParamRule, v: u64, d: u64)
    ensures
        param_fate(None, Some(v)) == ParamFate::Send(v),
        param_fate(None, None) == ParamFate::Omit,
        rule.supported && rule.policy != ParamPolicy::Drop && rule.default == Some(d)
            ==> param_fate(Some(rule), None) == ParamFate::Send(d),
        rule.policy == ParamPolicy::Drop ==> param_fate(Some(rule), None) == ParamFate::Omit,
{
}

} // verus!
