use vstd::prelude::*;

verus! {

/// Topological role of an AS.
#[derive(Clone, Copy, Debug, PartialEq, Eq, Structural)]
pub enum RoleCategory {
    EnterpriseCustomer,
    SmallTransitProvider,
    LargeTransitProvider,
    ContentAccessHostingProvider,
}

/// Role of an AS with `c` customers and `p` peers; the first matching band
/// decides.
pub open spec fn role_spec(c: nat, p: nat) -> RoleCategory {
    if c <= 2 {
        if p <= 1 {
            RoleCategory::EnterpriseCustomer
        } else {
            RoleCategory::ContentAccessHostingProvider
        }
    } else if c <= 47 {
        if p < 4 {
            RoleCategory::SmallTransitProvider
        } else {
            RoleCategory::ContentAccessHostingProvider
        }
    } else if c <= 179 {
        RoleCategory::SmallTransitProvider
    } else {
        RoleCategory::LargeTransitProvider
    }
}

/// Role of an AS from its customer and peer counts.
pub fn role_for(customers: usize, peers: usize) -> (r: RoleCategory)
    ensures
        r == role_spec(customers as nat, peers as nat),
{
    if customers <= 2 {
        if peers <= 1 {
            RoleCategory::EnterpriseCustomer
        } else {
            RoleCategory::ContentAccessHostingProvider
        }
    } else if customers <= 47 {
        if peers < 4 {
            RoleCategory::SmallTransitProvider
        } else {
            RoleCategory::ContentAccessHostingProvider
        }
    } else if customers <= 179 {
        RoleCategory::SmallTransitProvider
    } else {
        RoleCategory::LargeTransitProvider
    }
}

} // verus!
