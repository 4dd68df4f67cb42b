//! Capabilities and the classification of provider keys.

use vstd::prelude::*;
use crate::text::{has_sub, str_contains};

verus! {

/// What an import lets a component do or see.
#[derive(Clone, Copy, Debug, PartialEq, Eq, Structural)]
pub enum Capability {
    UntrustedInput,
    InternalData,
    Exfiltration,
    Destructive,
    Proposal,
}

/// A set of capabilities, one flag per member.
#[derive(Clone, Copy, Debug, PartialEq, Eq, Structural)]
pub struct CapSet {
    pub untrusted_input: bool,
    pub internal_data: bool,
    pub exfiltration: bool,
    pub destructive: bool,
    pub proposal: bool,
}

impl CapSet {
    pub open spec fn has(self, c: Capability) -> bool {
        match c {
            Capability::UntrustedInput => self.untrusted_input,
            Capability::InternalData => self.internal_data,
            Capability::Exfiltration => self.exfiltration,
            Capability::Destructive => self.destructive,
            Capability::Proposal => self.proposal,
        }
    }

    pub open spec fn empty_spec() -> CapSet {
        CapSet {
            untrusted_input: false,
            internal_data: false,
            exfiltration: false,
            destructive: false,
            proposal: false,
        }
    }

    pub open spec fn union_spec(self, o: CapSet) -> CapSet {
        CapSet {
            untrusted_input: self.untrusted_input || o.untrusted_input,
            internal_data: self.internal_data || o.internal_data,
            exfiltration: self.exfiltration || o.exfiltration,
            destructive: self.destructive || o.destructive,
            proposal: self.proposal || o.proposal,
        }
    }

    /// Every member of `self` is a member of `o`.
    pub open spec fn subset_of(self, o: CapSet) -> bool {
        &&& self.untrusted_input ==> o.untrusted_input
        &&& self.internal_data ==> o.internal_data
        &&& self.exfiltration ==> o.exfiltration
        &&& self.destructive ==> o.destructive
        &&& self.proposal ==> o.proposal
    }

    /// How many members are absent: the measure that bounds propagation.
    pub open spec fn missing(self) -> nat {
        (if self.untrusted_input { 0nat } else { 1nat }) + (if self.internal_data { 0nat } else { 1nat })
            + (if self.exfiltration { 0nat } else { 1nat }) + (if self.destructive { 0nat } else { 1nat })
            + (if self.proposal { 0nat } else { 1nat })
    }

    pub fn empty() -> (r: CapSet)
        ensures
            r == CapSet::empty_spec(),
    {
        CapSet {
            untrusted_input: false,
            internal_data: false,
            exfiltration: false,
            destructive: false,
            proposal: false,
        }
    }

    pub fn union(&self, o: &CapSet) -> (r: CapSet)
        ensures
            r == self.union_spec(*o),
    {
        CapSet {
            untrusted_input: self.untrusted_input || o.untrusted_input,
            internal_data: self.internal_data || o.internal_data,
            exfiltration: self.exfiltration || o.exfiltration,
            destructive: self.destructive || o.destructive,
            proposal: self.proposal || o.proposal,
        }
    }

    pub fn contains(&self, c: Capability) -> (r: bool)
        ensures
            r == self.has(c),
    {
        match c {
            Capability::UntrustedInput => self.untrusted_input,
            Capability::InternalData => self.internal_data,
            Capability::Exfiltration => self.exfiltration,
            Capability::Destructive => self.destructive,
            Capability::Proposal => self.proposal,
        }
    }

    /// Whether every member of `self` is in `o`.
    pub fn is_subset(&self, o: &CapSet) -> (r: bool)
        ensures
            r == self.subset_of(*o),
    {
        (!self.untrusted_input || o.untrusted_input) && (!self.internal_data || o.internal_data)
            && (!self.exfiltration || o.exfiltration) && (!self.destructive || o.destructive)
            && (!self.proposal || o.proposal)
    }
}

/// The classification table: what a provider key lets its consumer do or see.
pub open spec fn infer_spec(s: Seq<char>) -> CapSet {
    let outbound = has_sub(s, "http"@) || has_sub(s, "search"@) || has_sub(s, "network"@);
    let propose = has_sub(s, "propose"@);
    CapSet {
        untrusted_input: outbound,
        exfiltration: outbound,
        internal_data: (has_sub(s, "calendar"@) || has_sub(s, "filesystem"@) || has_sub(s, "read"@))
            && !propose,
        destructive: (has_sub(s, "delete"@) || has_sub(s, "write"@) || has_sub(s, "modify"@))
            && !propose,
        proposal: propose,
    }
}

/// The capabilities that a wire to `interface` hands its consumer.
pub fn infer_capabilities(interface: &str) -> (r: CapSet)
    ensures
        r == infer_spec(interface@),
{
    let outbound = str_contains(interface, "http") || str_contains(interface, "search")
        || str_contains(interface, "network");
    let propose = str_contains(interface, "propose");
    let internal = (str_contains(interface, "calendar") || str_contains(interface, "filesystem")
        || str_contains(interface, "read")) && !propose;
    let destructive = (str_contains(interface, "delete") || str_contains(interface, "write")
        || str_contains(interface, "modify")) && !propose;
    CapSet {
        untrusted_input: outbound,
        exfiltration: outbound,
        internal_data: internal,
        destructive: destructive,
        proposal: propose,
    }
}

/// Classification depends on the characters of the key alone.
pub proof fn lemma_infer_pure(a: Seq<char>, b: Seq<char>)
    requires
        a == b,
    ensures
        infer_spec(a) == infer_spec(b),
{
}

/// A key that mentions `propose` never grants destructive power or internal data.
pub proof fn lemma_propose_disjoint(s: Seq<char>)
    requires
        has_sub(s, "propose"@),
    ensures
        !infer_spec(s).has(Capability::Destructive),
        !infer_spec(s).has(Capability::InternalData),
        infer_spec(s).has(Capability::Proposal),
{
}

} // verus!
