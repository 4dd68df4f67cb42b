//! The safety rules and the ordered report of their violations.

use vstd::prelude::*;
use vstd::string::*;
use crate::analyzer::{capability_map, is_capability_map, lemma_capability_map_unique};
use crate::blueprint::{component_names, name_list, names_unique, Blueprint};
use crate::capability::CapSet;
use crate::order::{lemma_name_lt_asymmetric, lemma_name_lt_irreflexive, lemma_name_lt_total, lemma_name_lt_transitive, name_less, name_lt};

verus! {

/// The two named dangerous combinations.
#[derive(Clone, Copy, Debug, PartialEq, Eq, Structural)]
pub enum ViolationType {
    /// Untrusted input, internal data and exfiltration together.
    LethalTrifecta,
    /// Untrusted input and destructive power together.
    DeadlyDuo,
}

/// One rule that one component breaks.
#[derive(Clone, Debug)]
pub struct SafetyViolation {
    pub component: String,
    pub violation: ViolationType,
    pub details: String,
}

pub open spec fn violates(c: CapSet, kind: ViolationType) -> bool {
    match kind {
        ViolationType::LethalTrifecta => c.untrusted_input && c.internal_data && c.exfiltration,
        ViolationType::DeadlyDuo => c.untrusted_input && c.destructive,
    }
}

/// Rules sort by name: `DeadlyDuo` before `LethalTrifecta`.
pub open spec fn rank(kind: ViolationType) -> int {
    match kind {
        ViolationType::DeadlyDuo => 0,
        ViolationType::LethalTrifecta => 1,
    }
}

/// The report order: by component name, then by rule name.
pub open spec fn key_lt(a: (Seq<char>, ViolationType), b: (Seq<char>, ViolationType)) -> bool {
    name_lt(a.0, b.0) || (a.0 == b.0 && rank(a.1) < rank(b.1))
}

pub open spec fn key_of(v: SafetyViolation) -> (Seq<char>, ViolationType) {
    (v.component@, v.violation)
}

/// The message that accompanies a violation.
pub open spec fn detail_text(name: Seq<char>, kind: ViolationType) -> Seq<char> {
    match kind {
        ViolationType::LethalTrifecta => "Component '"@ + name
            + "' has access to Untrusted Input, Internal Data, and Exfiltration."@,
        ViolationType::DeadlyDuo => "Component '"@ + name + "' has access to Untrusted Input and Destructive Capabilities."@,
    }
}

pub open spec fn sorted_strict(r: Seq<SafetyViolation>) -> bool {
    forall|i: int, j: int| 0 <= i < j < r.len() ==> key_lt(key_of(#[trigger] r[i]), key_of(#[trigger] r[j]))
}

/// `e` reports a rule that a component breaks, with its message.
pub open spec fn valid_entry(names: Seq<Seq<char>>, caps: Seq<CapSet>, e: SafetyViolation) -> bool {
    &&& e.details@ == detail_text(e.component@, e.violation)
    &&& exists|i: int| 0 <= i < names.len() && #[trigger] names[i] == e.component@ && violates(caps[i], e.violation)
}

/// `r` lists exactly the violations of `caps`, each once, in report order.
pub open spec fn is_report(names: Seq<Seq<char>>, caps: Seq<CapSet>, r: Seq<SafetyViolation>) -> bool {
    &&& sorted_strict(r)
    &&& forall|k: int| 0 <= k < r.len() ==> #[trigger] valid_entry(names, caps, r[k])
    &&& forall|i: int, kind: ViolationType| 0 <= i < names.len() && #[trigger] violates(caps[i], kind)
        ==> exists|k: int| 0 <= k < r.len() && key_of(#[trigger] r[k]) == (names[i], kind)
}

/// Some component of `caps` breaks a rule.
pub open spec fn any_violation(names: Seq<Seq<char>>, caps: Seq<CapSet>) -> bool {
    exists|i: int, kind: ViolationType| 0 <= i < names.len() && #[trigger] violates(caps[i], kind)
}

proof fn lemma_key_lt_total(a: (Seq<char>, ViolationType), b: (Seq<char>, ViolationType))
    requires
        a != b,
    ensures
        key_lt(a, b) || key_lt(b, a),
{
    if a.0 != b.0 {
        lemma_name_lt_total(a.0, b.0);
    } else {
        assert(a.1 != b.1);
    }
}

proof fn lemma_key_lt_asymmetric(a: (Seq<char>, ViolationType), b: (Seq<char>, ViolationType))
    requires
        key_lt(a, b),
    ensures
        !key_lt(b, a),
{
    if name_lt(a.0, b.0) {
        lemma_name_lt_asymmetric(a.0, b.0);
        if a.0 == b.0 {
            lemma_name_lt_irreflexive(a.0);
        }
    }
}

proof fn lemma_key_lt_transitive(
    a: (Seq<char>, ViolationType),
    b: (Seq<char>, ViolationType),
    c: (Seq<char>, ViolationType),
)
    requires
        key_lt(a, b),
        key_lt(b, c),
    ensures
        key_lt(a, c),
{
    if name_lt(a.0, b.0) && name_lt(b.0, c.0) {
        lemma_name_lt_transitive(a.0, b.0, c.0);
    }
}

/// Whether violation `a` sorts strictly before `b` in the report.
fn key_less(a: &SafetyViolation, b: &SafetyViolation) -> (r: bool)
    ensures
        r == key_lt(key_of(*a), key_of(*b)),
{
    if name_less(a.component.as_str(), b.component.as_str()) {
        true
    } else if name_less(b.component.as_str(), a.component.as_str()) {
        false
    } else {
        proof {
            if a.component@ != b.component@ {
                lemma_name_lt_total(a.component@, b.component@);
            }
        }
        match (a.violation, b.violation) {
            (ViolationType::DeadlyDuo, ViolationType::LethalTrifecta) => true,
            _ => false,
        }
    }
}

/// Inserts `x` into a strictly sorted report at its place.
fn insert_sorted(v: &mut Vec<SafetyViolation>, x: SafetyViolation)
    requires
        sorted_strict(old(v)@),
        forall|k: int| 0 <= k < old(v)@.len() ==> key_of(#[trigger] old(v)@[k]) != key_of(x),
    ensures
        sorted_strict(final(v)@),
        exists|p: int| 0 <= p <= old(v)@.len() && final(v)@ == old(v)@.insert(p, x),
{
    let mut p: usize = 0;
    while p < v.len() && !key_less(&x, &v[p])
        invariant
            p <= v@.len(),
            v@ == old(v)@,
            sorted_strict(v@),
            forall|k: int| 0 <= k < v@.len() ==> key_of(#[trigger] v@[k]) != key_of(x),
            forall|q: int| 0 <= q < p ==> key_lt(key_of(#[trigger] v@[q]), key_of(x)),
        decreases v@.len() - p,
    {
        proof {
            lemma_key_lt_total(key_of(v@[p as int]), key_of(x));
        }
        p = p + 1;
    }
    let ghost before = v@;
    v.insert(p, x);
    proof {
        assert(v@ =~= before.insert(p as int, x));
        assert forall|i: int, j: int| 0 <= i < j < v@.len() implies key_lt(key_of(#[trigger] v@[i]), key_of(#[trigger] v@[j])) by {
            if j == p {
            } else if i == p {
                assert(key_lt(key_of(x), key_of(before[p as int])));
                if j - 1 > p {
                    lemma_key_lt_transitive(key_of(x), key_of(before[p as int]), key_of(before[j - 1]));
                }
            } else if i < p && j > p {
                assert(key_lt(key_of(before[i]), key_of(before[j - 1])));
            } else if i > p {
                assert(key_lt(key_of(before[i - 1]), key_of(before[j - 1])));
            } else {
                assert(key_lt(key_of(before[i]), key_of(before[j])));
            }
        }
    }
}

/// Components before `i` are done, and so are the rules of component `i`
/// that sort before `stage`.
pub open spec fn processed(i: int, stage: int, q: int, kind: ViolationType) -> bool {
    q < i || (q == i && rank(kind) < stage)
}

/// `e` is a well-formed report of a processed violation.
pub open spec fn elem_ok(ns: Seq<Seq<char>>, caps: Seq<CapSet>, e: SafetyViolation, i: int, stage: int) -> bool {
    &&& e.details@ == detail_text(e.component@, e.violation)
    &&& exists|q: int| 0 <= q < ns.len() && processed(i, stage, q, e.violation) && #[trigger] ns[q] == e.component@
        && violates(caps[q], e.violation)
}

/// `out` reports exactly the processed violations, in report order.
pub open spec fn report_state(
    ns: Seq<Seq<char>>,
    caps: Seq<CapSet>,
    out: Seq<SafetyViolation>,
    i: int,
    stage: int,
) -> bool {
    &&& sorted_strict(out)
    &&& forall|k: int| 0 <= k < out.len() ==> #[trigger] elem_ok(ns, caps, out[k], i, stage)
    &&& forall|q: int, kind: ViolationType| 0 <= q < ns.len() && processed(i, stage, q, kind) && #[trigger] violates(caps[q], kind)
        ==> exists|k: int| 0 <= k < out.len() && key_of(#[trigger] out[k]) == (ns[q], kind)
}

proof fn lemma_stage_roll(ns: Seq<Seq<char>>, caps: Seq<CapSet>, out: Seq<SafetyViolation>, i: int)
    requires
        report_state(ns, caps, out, i, 2),
    ensures
        report_state(ns, caps, out, i + 1, 0),
{
    assert forall|k: int| 0 <= k < out.len() implies #[trigger] elem_ok(ns, caps, out[k], i + 1, 0) by {
        assert(elem_ok(ns, caps, out[k], i, 2));
        let q = choose|q: int| 0 <= q < ns.len() && processed(i, 2, q, out[k].violation) && #[trigger] ns[q] == out[k].component@
            && violates(caps[q], out[k].violation);
        assert(processed(i + 1, 0, q, out[k].violation));
    }
    assert forall|q: int, kd: ViolationType| 0 <= q < ns.len() && processed(i + 1, 0, q, kd) && #[trigger] violates(caps[q], kd)
        implies exists|k: int| 0 <= k < out.len() && key_of(#[trigger] out[k]) == (ns[q], kd) by {
        assert(processed(i, 2, q, kd));
    }
}

proof fn lemma_report_done(ns: Seq<Seq<char>>, caps: Seq<CapSet>, out: Seq<SafetyViolation>)
    requires
        caps.len() == ns.len(),
        report_state(ns, caps, out, ns.len() as int, 0),
    ensures
        is_report(ns, caps, out),
{
    assert forall|k: int| 0 <= k < out.len() implies #[trigger] valid_entry(ns, caps, out[k]) by {
        assert(elem_ok(ns, caps, out[k], ns.len() as int, 0));
    }
    assert forall|i: int, kind: ViolationType| 0 <= i < ns.len() && #[trigger] violates(caps[i], kind)
        implies exists|k: int| 0 <= k < out.len() && key_of(#[trigger] out[k]) == (ns[i], kind) by {
        assert(processed(ns.len() as int, 0, i, kind));
    }
}

/// Reports rule `kind` for component `i` when it is broken.
fn check_one(out: &mut Vec<SafetyViolation>, names: &Vec<String>, caps: &Vec<CapSet>, i: usize, kind: ViolationType)
    requires
        i < names@.len(),
        names@.len() == caps@.len(),
        names_unique(names@.map_values(|s: String| s@)),
        report_state(names@.map_values(|s: String| s@), caps@, old(out)@, i as int, rank(kind)),
    ensures
        report_state(names@.map_values(|s: String| s@), caps@, final(out)@, i as int, rank(kind) + 1),
{
    let ghost ns = names@.map_values(|s: String| s@);
    let ghost st = rank(kind);
    let c = caps[i];
    let broken = match kind {
        ViolationType::LethalTrifecta => c.untrusted_input && c.internal_data && c.exfiltration,
        ViolationType::DeadlyDuo => c.untrusted_input && c.destructive,
    };
    let ghost first = out@;
    if broken {
        let v = make_violation(&names[i], kind);
        proof {
            assert(ns[i as int] == names@[i as int]@);
            assert forall|k: int| 0 <= k < first.len() implies key_of(#[trigger] first[k]) != key_of(v) by {
                    assert(elem_ok(ns, caps@, first[k], i as int, st));
                let q = choose|q: int| 0 <= q < ns.len() && processed(i as int, st, q, first[k].violation)
                    && #[trigger] ns[q] == first[k].component@ && violates(caps@[q], first[k].violation);
                if first[k].component@ == ns[i as int] {
                    assert(q == i);
                }
            }
        }
        insert_sorted(out, v);
        proof {
            let p = choose|p: int| 0 <= p <= first.len() && out@ == first.insert(p, v);
            assert forall|k: int| 0 <= k < out@.len() implies #[trigger] elem_ok(ns, caps@, out@[k], i as int, st + 1) by {
                if k < p {
                    assert(out@[k] == first[k]);
                    assert(elem_ok(ns, caps@, first[k], i as int, st));
                    let q = choose|q: int| 0 <= q < ns.len() && processed(i as int, st, q, first[k].violation)
                        && #[trigger] ns[q] == first[k].component@ && violates(caps@[q], first[k].violation);
                    assert(processed(i as int, st + 1, q, out@[k].violation));
                } else if k > p {
                    assert(out@[k] == first[k - 1]);
                    assert(elem_ok(ns, caps@, first[k - 1], i as int, st));
                    let q = choose|q: int| 0 <= q < ns.len() && processed(i as int, st, q, first[k - 1].violation)
                        && #[trigger] ns[q] == first[k - 1].component@ && violates(caps@[q], first[k - 1].violation);
                    assert(processed(i as int, st + 1, q, out@[k].violation));
                } else {
                    assert(out@[k] == v);
                    assert(processed(i as int, st + 1, i as int, v.violation));
                    assert(ns[i as int] == v.component@);
                }
            }
            assert forall|q: int, kd: ViolationType| 0 <= q < ns.len() && processed(i as int, st + 1, q, kd) && #[trigger] violates(caps@[q], kd)
                implies exists|k: int| 0 <= k < out@.len() && key_of(#[trigger] out@[k]) == (ns[q], kd) by {
                if processed(i as int, st, q, kd) {
                    let k0 = choose|k: int| 0 <= k < first.len() && key_of(#[trigger] first[k]) == (ns[q], kd);
                    if k0 < p {
                        assert(out@[k0] == first[k0]);
                    } else {
                        assert(out@[k0 + 1] == first[k0]);
                    }
                } else {
                    assert(q == i && kd == kind);
                    assert(out@[p] == v);
                }
            }
            assert(report_state(ns, caps@, out@, i as int, st + 1));
        }
    } else {
        proof {
            assert forall|k: int| 0 <= k < out@.len() implies #[trigger] elem_ok(ns, caps@, out@[k], i as int, st + 1) by {
                assert(elem_ok(ns, caps@, first[k], i as int, st));
                let q = choose|q: int| 0 <= q < ns.len() && processed(i as int, st, q, first[k].violation)
                    && #[trigger] ns[q] == first[k].component@ && violates(caps@[q], first[k].violation);
                assert(processed(i as int, st + 1, q, out@[k].violation));
            }
            assert forall|q: int, kd: ViolationType| 0 <= q < ns.len() && processed(i as int, st + 1, q, kd) && #[trigger] violates(caps@[q], kd)
                implies exists|k: int| 0 <= k < out@.len() && key_of(#[trigger] out@[k]) == (ns[q], kd) by {
                if !processed(i as int, st, q, kd) {
                    assert(q == i && kd == kind);
                }
            }
            assert(report_state(ns, caps@, out@, i as int, st + 1));
        }
    }
}

/// A violation record with its message.
fn make_violation(name: &String, kind: ViolationType) -> (r: SafetyViolation)
    ensures
        r.component@ == name@,
        r.violation == kind,
        r.details@ == detail_text(name@, kind),
{
    let mut details = String::from_str("Component '");
    details.append(name.as_str());
    match kind {
        ViolationType::LethalTrifecta => details.append("' has access to Untrusted Input, Internal Data, and Exfiltration."),
        ViolationType::DeadlyDuo => details.append("' has access to Untrusted Input and Destructive Capabilities."),
    }
    SafetyViolation { component: name.clone(), violation: kind, details }
}

/// Every violation of the rules by the components of `names` under `caps`,
/// ordered by (component name, rule name).
pub fn check_rules(names: &Vec<String>, caps: &Vec<CapSet>) -> (r: Vec<SafetyViolation>)
    requires
        names@.len() == caps@.len(),
        names_unique(names@.map_values(|s: String| s@)),
    ensures
        is_report(names@.map_values(|s: String| s@), caps@, r@),
{
    let ghost ns = names@.map_values(|s: String| s@);
    let mut out: Vec<SafetyViolation> = Vec::new();
    let mut i: usize = 0;
    while i < names.len()
        invariant
            i <= names@.len(),
            names@.len() == caps@.len(),
            ns == names@.map_values(|s: String| s@),
            names_unique(ns),
            report_state(ns, caps@, out@, i as int, 0),
        decreases names@.len() - i,
    {
        check_one(&mut out, names, caps, i, ViolationType::DeadlyDuo);
        check_one(&mut out, names, caps, i, ViolationType::LethalTrifecta);
        proof {
            lemma_stage_roll(ns, caps@, out@, i as int);
        }
        i = i + 1;
    }
    proof {
        lemma_report_done(ns, caps@, out@);
    }
    out
}

} // verus!

verus! {

/// Checks the blueprint against the safety rules. `Ok` when no component,
/// with its capabilities propagated along the dependency graph, breaks a
/// rule; otherwise every violation, ordered by (component name, rule name).
pub fn verify(blueprint: &Blueprint) -> (r: Result<(), Vec<SafetyViolation>>)
    requires
        names_unique(component_names(*blueprint)),
    ensures
        exists|caps: Seq<CapSet>| #[trigger] is_capability_map(*blueprint, caps) && match r {
            Ok(()) => !any_violation(component_names(*blueprint), caps),
            Err(v) => v@.len() > 0 && is_report(component_names(*blueprint), caps, v@),
        },
{
    let caps = capability_map(blueprint);
    let names = name_list(blueprint);
    assert(names@.map_values(|s: String| s@) =~= component_names(*blueprint));
    let report = check_rules(&names, &caps);
    let ghost ns = component_names(*blueprint);
    if report.len() == 0 {
        proof {
            if any_violation(ns, caps@) {
                let (i, kind) = choose|i: int, kind: ViolationType| 0 <= i < ns.len() && #[trigger] violates(caps@[i], kind);
                assert(exists|k: int| 0 <= k < report@.len() && key_of(#[trigger] report@[k]) == (ns[i], kind));
            }
        }
        Ok(())
    } else {
        Err(report)
    }
}

/// Report keys in order: (component name, rule).
pub open spec fn report_keys(r: Seq<SafetyViolation>) -> Seq<(Seq<char>, ViolationType)> {
    r.map_values(|v: SafetyViolation| key_of(v))
}

proof fn lemma_sorted_unique(s1: Seq<(Seq<char>, ViolationType)>, s2: Seq<(Seq<char>, ViolationType)>)
    requires
        forall|i: int, j: int| 0 <= i < j < s1.len() ==> key_lt(#[trigger] s1[i], #[trigger] s1[j]),
        forall|i: int, j: int| 0 <= i < j < s2.len() ==> key_lt(#[trigger] s2[i], #[trigger] s2[j]),
        forall|x: (Seq<char>, ViolationType)| s1.contains(x) <==> s2.contains(x),
    ensures
        s1 == s2,
    decreases s1.len(),
{
    if s1.len() == 0 {
        if s2.len() > 0 {
            assert(s2.contains(s2[0]));
        }
        assert(s1 =~= s2);
    } else {
        assert(s1.contains(s1[0]));
        let j = s2.index_of(s1[0]);
        if s2.len() == 0 {
            assert(false);
        }
        assert(s2.contains(s2[0]));
        let i = s1.index_of(s2[0]);
        if j > 0 {
            assert(key_lt(s2[0], s2[j]));
            if i == 0 {
                lemma_key_lt_asymmetric(s2[0], s2[j]);
            } else {
                assert(key_lt(s1[0], s1[i]));
                lemma_key_lt_asymmetric(s1[0], s1[i]);
            }
        }
        assert(s1[0] == s2[0]);
        let t1 = s1.drop_first();
        let t2 = s2.drop_first();
        assert forall|x: (Seq<char>, ViolationType)| t1.contains(x) <==> t2.contains(x) by {
            if t1.contains(x) {
                let a = t1.index_of(x);
                assert(s1[a + 1] == x);
                assert(key_lt(s1[0], s1[a + 1]));
                assert(s1.contains(x));
                assert(s2.contains(x));
                let b = s2.index_of(x);
                if b == 0 {
                    lemma_key_lt_asymmetric(s1[0], x);
                }
                assert(b > 0);
                assert(t2[b - 1] == x);
                assert(t2.contains(x));
            }
            if t2.contains(x) {
                let a = t2.index_of(x);
                assert(s2[a + 1] == x);
                assert(key_lt(s2[0], s2[a + 1]));
                assert(s2.contains(x));
                assert(s1.contains(x));
                let b = s1.index_of(x);
                if b == 0 {
                    lemma_key_lt_asymmetric(s2[0], x);
                }
                assert(b > 0);
                assert(t1[b - 1] == x);
                assert(t1.contains(x));
            }
        }
        assert forall|i: int, j: int| 0 <= i < j < t1.len() implies key_lt(#[trigger] t1[i], #[trigger] t1[j]) by {
            assert(key_lt(s1[i + 1], s1[j + 1]));
        }
        assert forall|i: int, j: int| 0 <= i < j < t2.len() implies key_lt(#[trigger] t2[i], #[trigger] t2[j]) by {
            assert(key_lt(s2[i + 1], s2[j + 1]));
        }
        lemma_sorted_unique(t1, t2);
        assert(s1 =~= seq![s1[0]] + t1);
        assert(s2 =~= seq![s2[0]] + t2);
    }
}

/// The analysis is deterministic: two reports for one blueprint list the same
/// violations in the same order, with the same messages.
pub proof fn lemma_verify_deterministic(
    bp: Blueprint,
    c1: Seq<CapSet>,
    r1: Seq<SafetyViolation>,
    c2: Seq<CapSet>,
    r2: Seq<SafetyViolation>,
)
    requires
        is_capability_map(bp, c1),
        is_capability_map(bp, c2),
        is_report(component_names(bp), c1, r1),
        is_report(component_names(bp), c2, r2),
    ensures
        report_keys(r1) == report_keys(r2),
        forall|k: int| 0 <= k < r1.len() ==> (#[trigger] r1[k]).details@ == r2[k].details@,
{
    lemma_capability_map_unique(bp, c1, c2);
    let ns = component_names(bp);
    let s1 = report_keys(r1);
    let s2 = report_keys(r2);
    assert forall|x: (Seq<char>, ViolationType)| s1.contains(x) implies s2.contains(x) by {
        let k = s1.index_of(x);
        assert(valid_entry(ns, c1, r1[k]));
        let i = choose|i: int| 0 <= i < ns.len() && #[trigger] ns[i] == r1[k].component@ && violates(c1[i], r1[k].violation);
        assert(violates(c2[i], x.1));
        let k2 = choose|k2: int| 0 <= k2 < r2.len() && key_of(#[trigger] r2[k2]) == (ns[i], x.1);
        assert(s2[k2] == x);
    }
    assert forall|x: (Seq<char>, ViolationType)| s2.contains(x) implies s1.contains(x) by {
        let k = s2.index_of(x);
        assert(valid_entry(ns, c2, r2[k]));
        let i = choose|i: int| 0 <= i < ns.len() && #[trigger] ns[i] == r2[k].component@ && violates(c2[i], r2[k].violation);
        assert(violates(c1[i], x.1));
        let k1 = choose|k1: int| 0 <= k1 < r1.len() && key_of(#[trigger] r1[k1]) == (ns[i], x.1);
        assert(s1[k1] == x);
    }
    assert forall|i: int, j: int| 0 <= i < j < s1.len() implies key_lt(#[trigger] s1[i], #[trigger] s1[j]) by {
        assert(key_lt(key_of(r1[i]), key_of(r1[j])));
    }
    assert forall|i: int, j: int| 0 <= i < j < s2.len() implies key_lt(#[trigger] s2[i], #[trigger] s2[j]) by {
        assert(key_lt(key_of(r2[i]), key_of(r2[j])));
    }
    lemma_sorted_unique(s1, s2);
    assert forall|k: int| 0 <= k < r1.len() implies (#[trigger] r1[k]).details@ == r2[k].details@ by {
        assert(s1[k] == s2[k]);
        assert(valid_entry(ns, c1, r1[k]));
        assert(valid_entry(ns, c2, r2[k]));
    }
}

/// A blueprint without components breaks no rule.
pub proof fn lemma_no_components_safe(bp: Blueprint, caps: Seq<CapSet>)
    requires
        bp.components@.len() == 0,
        is_capability_map(bp, caps),
    ensures
        !any_violation(component_names(bp), caps),
{
}

} // verus!
