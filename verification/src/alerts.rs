//! How close a resource is to its limit.
use vstd::prelude::*;

verus! {

/// Usage levels, in increasing severity.
#[derive(Debug, Clone, Copy, PartialEq, Eq, PartialOrd, Ord, Structural)]
pub enum ResourceAlertLevel {
    /// Within the safe range.
    Safe,
    Warn,
    Critical,
}

pub open spec fn severity(l: ResourceAlertLevel) -> nat {
    match l {
        ResourceAlertLevel::Safe => 0,
        ResourceAlertLevel::Warn => 1,
        ResourceAlertLevel::Critical => 2,
    }
}

/// The level of `current` out of `limit`: critical from 95%, warn from 80%,
/// otherwise safe; a zero limit counts as no usage.
pub open spec fn alert_level_spec(current: nat, limit: nat) -> ResourceAlertLevel {
    if limit == 0 {
        ResourceAlertLevel::Safe
    } else if 20 * current >= 19 * limit {
        ResourceAlertLevel::Critical
    } else if 5 * current >= 4 * limit {
        ResourceAlertLevel::Warn
    } else {
        ResourceAlertLevel::Safe
    }
}

/// The level of `current` out of `limit`.
pub fn resource_alert_level(current: usize, limit: usize) -> (l: ResourceAlertLevel)
    ensures
        l == alert_level_spec(current as nat, limit as nat),
{
    if limit == 0 {
        return ResourceAlertLevel::Safe;
    }
    let c = current as u128;
    let m = limit as u128;
    if 20 * c >= 19 * m {
        ResourceAlertLevel::Critical
    } else if 5 * c >= 4 * m {
        ResourceAlertLevel::Warn
    } else {
        ResourceAlertLevel::Safe
    }
}

/// The more severe of two levels.
pub fn max_level(a: ResourceAlertLevel, b: ResourceAlertLevel) -> (r: ResourceAlertLevel)
    ensures
        severity(r) == if severity(a) >= severity(b) { severity(a) } else { severity(b) },
        r == a || r == b,
{
    let sa: u8 = match a {
        ResourceAlertLevel::Safe => 0,
        ResourceAlertLevel::Warn => 1,
        ResourceAlertLevel::Critical => 2,
    };
    let sb: u8 = match b {
        ResourceAlertLevel::Safe => 0,
        ResourceAlertLevel::Warn => 1,
        ResourceAlertLevel::Critical => 2,
    };
    if sa >= sb {
        a
    } else {
        b
    }
}

/// The overall level of the present statuses: the most severe, safe when none.
pub fn overall_level(levels: &[Option<ResourceAlertLevel>]) -> (r: ResourceAlertLevel)
    ensures
        forall|i: int| 0 <= i < levels@.len() ==> (#[trigger] levels@[i] matches Some(l) ==> severity(l) <= severity(r)),
        r == ResourceAlertLevel::Safe || exists|i: int| 0 <= i < levels@.len() && levels@[i] == Some(r),
{
    let mut r = ResourceAlertLevel::Safe;
    let mut i: usize = 0;
    while i < levels.len()
        invariant
            i <= levels@.len(),
            forall|k: int| 0 <= k < i ==> (#[trigger] levels@[k] matches Some(l) ==> severity(l) <= severity(r)),
            r == ResourceAlertLevel::Safe || exists|k: int| 0 <= k < i && levels@[k] == Some(r),
        decreases levels@.len() - i,
    {
        if let Some(l) = levels[i] {
            let before = r;
            r = max_level(r, l);
            proof {
                if r == l {
                    assert(levels@[i as int] == Some(r));
                } else {
                    assert(r == before);
                    if r != ResourceAlertLevel::Safe {
                        let k = choose|k: int| 0 <= k < i && levels@[k] == Some(before);
                        assert(levels@[k] == Some(r));
                    }
                }
            }
        }
        i = i + 1;
    }
    r
}

/// Usage never crossing a threshold downwards: more usage of the same limit
/// never lowers the level.
pub proof fn lemma_level_monotone(c1: nat, c2: nat, limit: nat)
    requires
        c1 <= c2,
    ensures
        severity(alert_level_spec(c1, limit)) <= severity(alert_level_spec(c2, limit)),
{
}

} // verus!
