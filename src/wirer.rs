//! Decisions of the dynamic wirer: which wires a freshly instantiated
//! provider serves, in which order consumers lend their import types as
//! surrogates, and what stays pending after an instantiation round.

use vstd::prelude::*;
use vstd::string::*;
use crate::analyzer::wire_provider;
use crate::blueprint::{component_names, component_index, dot_prefix, first_segment, find_name, host_name, is_host, name_list, names_unique, Blueprint, Connection};
use crate::order::{lemma_name_lt_total, lemma_name_lt_transitive, name_less, name_lt};
use crate::text::{cut_index, has_sub, lemma_cut_unique, split_once, str_contains};

verus! {

/// A wire that a provider serves: the export it provides, the consumer's
/// import slot that receives it, and the middleware chain around it.
#[derive(Clone, Debug)]
pub struct Wire {
    pub export: String,
    pub slot: String,
    pub middleware: Vec<String>,
}

/// The middleware names of a connection.
pub open spec fn middleware_of(c: Connection) -> Seq<Seq<char>> {
    match c {
        Connection::Simple(_) => Seq::empty(),
        Connection::Configured { middleware, .. } => middleware@.map_values(|s: String| s@),
    }
}

/// Wiring entry `k` as a wire into a component: provider component, export
/// and consumer slot. Entries whose provider key has no `.`, or whose
/// provider is the host, are served by the runtime itself.
pub open spec fn wire_parts(bp: Blueprint, k: int) -> Option<(Seq<char>, Seq<char>, Seq<char>)> {
    let p = wire_provider(bp, k);
    let pc = cut_index(p, '.');
    if pc >= p.len() || p.subrange(0, pc) == host_name() {
        None
    } else {
        let c = bp.wiring@[k].0@;
        let cc = cut_index(c, '.');
        let slot = if cc < c.len() {
            c.subrange(cc + 1, c.len() as int)
        } else {
            c
        };
        Some((p.subrange(0, pc), p.subrange(pc + 1, p.len() as int), slot))
    }
}

pub open spec fn part_provider(bp: Blueprint, k: int) -> Seq<char> {
    let (p, _, _) = wire_parts(bp, k)->0;
    p
}

pub open spec fn part_export(bp: Blueprint, k: int) -> Seq<char> {
    let (_, e, _) = wire_parts(bp, k)->0;
    e
}

pub open spec fn part_slot(bp: Blueprint, k: int) -> Seq<char> {
    let (_, _, s) = wire_parts(bp, k)->0;
    s
}

fn parts_of(bp: &Blueprint, k: usize) -> (r: Option<(String, String, String)>)
    requires
        k < bp.wiring@.len(),
    ensures
        match r {
            Some((p, e, s)) => wire_parts(*bp, k as int) == Some((p@, e@, s@)),
            None => wire_parts(*bp, k as int) is None,
        },
{
    let (prov, export) = split_once(bp.wiring[k].1.provider().as_str(), '.');
    let ghost p = wire_provider(*bp, k as int);
    proof {
        lemma_cut_unique(p, '.', cut_index(p, '.'), prov@.len() as int);
    }
    let export = match export {
        Some(e) => e,
        None => {
            return None;
        },
    };
    if is_host(prov.as_str()) {
        return None;
    }
    let (head, rest) = split_once(bp.wiring[k].0.as_str(), '.');
    let ghost c = bp.wiring@[k as int].0@;
    proof {
        lemma_cut_unique(c, '.', cut_index(c, '.'), head@.len() as int);
    }
    let slot = match rest {
        Some(s) => s,
        None => bp.wiring[k].0.clone(),
    };
    Some((prov, export, slot))
}

fn seen_pair(out: &Vec<Wire>, export: &String, slot: &String) -> (r: bool)
    ensures
        r == exists|i: int| 0 <= i < out@.len() && (#[trigger] out@[i]).export@ == export@ && out@[i].slot@ == slot@,
{
    let mut i: usize = 0;
    while i < out.len()
        invariant
            i <= out@.len(),
            forall|q: int| 0 <= q < i ==> !((#[trigger] out@[q]).export@ == export@ && out@[q].slot@ == slot@),
        decreases out@.len() - i,
    {
        if out[i].export.eq(export) && out[i].slot.eq(slot) {
            return true;
        }
        i = i + 1;
    }
    false
}

/// `out` lists, in wiring order, the first wire of each (export, slot) pair
/// that `name` provides among the wiring entries `0..upto`, with `ks` the
/// entries they come from.
pub open spec fn wires_from(bp: Blueprint, name: Seq<char>, out: Seq<Wire>, ks: Seq<int>, upto: int) -> bool {
    &&& ks.len() == out.len()
    &&& forall|i: int, j: int| 0 <= i < j < ks.len() ==> ks[i] < ks[j]
    &&& forall|i: int| 0 <= i < ks.len() ==> 0 <= #[trigger] ks[i] < upto && wire_parts(bp, ks[i]) == Some((name, out[i].export@, out[i].slot@))
        && out[i].middleware@.map_values(|s: String| s@) == middleware_of(bp.wiring@[ks[i]].1)
    &&& forall|i: int, j: int| 0 <= i < j < out.len() ==> !((#[trigger] out[i]).export@ == (#[trigger] out[j]).export@
        && out[i].slot@ == out[j].slot@)
    &&& forall|k: int| 0 <= k < upto && (#[trigger] wire_parts(bp, k)) is Some && part_provider(bp, k) == name
        ==> exists|i: int| 0 <= i < out.len() && ks[i] <= k && out[i].export@ == part_export(bp, k) && out[i].slot@ == part_slot(bp, k)
}

/// The wires that component `name` serves once it is instantiated: one per
/// (export, slot) pair, from the first wiring entry that names it, in wiring
/// order.
pub fn wires_for_provider(bp: &Blueprint, name: &str) -> (r: Vec<Wire>)
    ensures
        exists|ks: Seq<int>| wires_from(*bp, name@, r@, ks, bp.wiring@.len() as int),
{
    let target = String::from_str(name);
    let mut out: Vec<Wire> = Vec::new();
    let ghost mut ks: Seq<int> = Seq::empty();
    let mut k: usize = 0;
    while k < bp.wiring.len()
        invariant
            k <= bp.wiring@.len(),
            target@ == name@,
            wires_from(*bp, name@, out@, ks, k as int),
        decreases bp.wiring@.len() - k,
    {
        let ghost before = out@;
        let ghost ks0 = ks;
        match parts_of(bp, k) {
            Some((p, e, s)) => {
                let ghost pv = p@;
                let ghost ev = e@;
                let ghost sv = s@;
                assert(part_provider(*bp, k as int) == pv && part_export(*bp, k as int) == ev && part_slot(*bp, k as int) == sv);
                if p.eq(&target) && !seen_pair(&out, &e, &s) {
                    let mw = bp.wiring[k].1.middleware_names();
                    proof {
                        assert(mw@.map_values(|s: String| s@) =~= middleware_of(bp.wiring@[k as int].1));
                    }
                    out.push(Wire { export: e, slot: s, middleware: mw });
                    proof {
                        ks = ks.push(k as int);
                        assert forall|i: int| 0 <= i < ks.len() implies 0 <= #[trigger] ks[i] < k + 1 && wire_parts(*bp, ks[i]) == Some((name@, out@[i].export@, out@[i].slot@))
                            && out@[i].middleware@.map_values(|s: String| s@) == middleware_of(bp.wiring@[ks[i]].1) by {
                            if i < ks0.len() {
                                assert(ks[i] == ks0[i]);
                                assert(out@[i] == before[i]);
                            }
                        }
                        assert forall|q: int| 0 <= q < k + 1 && (#[trigger] wire_parts(*bp, q)) is Some && part_provider(*bp, q) == name@
                            implies exists|i: int| 0 <= i < out@.len() && ks[i] <= q && out@[i].export@ == part_export(*bp, q) && out@[i].slot@ == part_slot(*bp, q) by {
                            if q < k {
                                let i = choose|i: int| 0 <= i < before.len() && ks0[i] <= q && before[i].export@ == part_export(*bp, q) && before[i].slot@ == part_slot(*bp, q);
                                assert(out@[i] == before[i]);
                                assert(ks[i] == ks0[i]);
                            } else {
                                assert(ks[before.len() as int] == k);
                                assert(out@[before.len() as int].export@ == ev);
                                assert(out@[before.len() as int].slot@ == sv);
                            }
                        }
                        assert forall|i: int, j: int| 0 <= i < j < out@.len() implies !((#[trigger] out@[i]).export@ == (#[trigger] out@[j]).export@
                            && out@[i].slot@ == out@[j].slot@) by {
                            if j == before.len() {
                                assert(out@[i] == before[i]);
                            } else {
                                assert(out@[i] == before[i]);
                                assert(out@[j] == before[j]);
                            }
                        }
                    }
                } else {
                    proof {
                        assert forall|q: int| 0 <= q < k + 1 && (#[trigger] wire_parts(*bp, q)) is Some && part_provider(*bp, q) == name@
                            implies exists|i: int| 0 <= i < out@.len() && ks[i] <= q && out@[i].export@ == part_export(*bp, q) && out@[i].slot@ == part_slot(*bp, q) by {
                            if q == k {
                                assert(pv == name@);
                                let i = choose|i: int| 0 <= i < out@.len() && (#[trigger] out@[i]).export@ == ev && out@[i].slot@ == sv;
                                assert(ks[i] < k);
                            }
                        }
                    }
                }
            },
            None => {},
        }
        k = k + 1;
    }
    out
}

/// Surrogates named `orchestrator...` come first, then the rest.
pub open spec fn surrogate_rank(name: Seq<char>) -> int {
    if has_sub(name, "orchestrator"@) {
        0
    } else {
        1
    }
}

/// The surrogate order: by rank, then by name.
pub open spec fn surrogate_lt(a: Seq<char>, b: Seq<char>) -> bool {
    surrogate_rank(a) < surrogate_rank(b) || (surrogate_rank(a) == surrogate_rank(b) && name_lt(a, b))
}

/// Wiring entry `k` is an import of `slot` by component `c`.
pub open spec fn consumes(bp: Blueprint, k: int, slot: Seq<char>, c: Seq<char>) -> bool {
    &&& 0 <= k < bp.wiring@.len()
    &&& has_sub(bp.wiring@[k].0@, slot)
    &&& dot_prefix(bp.wiring@[k].0@) == c
    &&& component_index(component_names(bp), c) is Some
}

/// Component `c` imports `slot`.
pub open spec fn is_consumer(bp: Blueprint, slot: Seq<char>, c: Seq<char>) -> bool {
    exists|k: int| #[trigger] consumes(bp, k, slot, c)
}

pub open spec fn names_sorted(v: Seq<String>) -> bool {
    forall|i: int, j: int| 0 <= i < j < v.len() ==> surrogate_lt((#[trigger] v[i])@, (#[trigger] v[j])@)
}

proof fn lemma_surrogate_total(a: Seq<char>, b: Seq<char>)
    requires
        a != b,
    ensures
        surrogate_lt(a, b) || surrogate_lt(b, a),
{
    lemma_name_lt_total(a, b);
}

proof fn lemma_surrogate_transitive(a: Seq<char>, b: Seq<char>, c: Seq<char>)
    requires
        surrogate_lt(a, b),
        surrogate_lt(b, c),
    ensures
        surrogate_lt(a, c),
{
    if name_lt(a, b) && name_lt(b, c) {
        lemma_name_lt_transitive(a, b, c);
    }
}

fn surrogate_less(a: &String, b: &String) -> (r: bool)
    ensures
        r == surrogate_lt(a@, b@),
{
    let ra: u8 = if str_contains(a.as_str(), "orchestrator") { 0 } else { 1 };
    let rb: u8 = if str_contains(b.as_str(), "orchestrator") { 0 } else { 1 };
    ra < rb || (ra == rb && name_less(a.as_str(), b.as_str()))
}

fn insert_name(v: &mut Vec<String>, x: String)
    requires
        names_sorted(old(v)@),
        forall|k: int| 0 <= k < old(v)@.len() ==> (#[trigger] old(v)@[k])@ != x@,
    ensures
        names_sorted(final(v)@),
        exists|p: int| 0 <= p <= old(v)@.len() && final(v)@ == old(v)@.insert(p, x),
{
    let mut p: usize = 0;
    while p < v.len() && !surrogate_less(&x, &v[p])
        invariant
            p <= v@.len(),
            v@ == old(v)@,
            names_sorted(v@),
            forall|k: int| 0 <= k < v@.len() ==> (#[trigger] v@[k])@ != x@,
            forall|q: int| 0 <= q < p ==> surrogate_lt((#[trigger] v@[q])@, x@),
        decreases v@.len() - p,
    {
        proof {
            lemma_surrogate_total(v@[p as int]@, x@);
        }
        p = p + 1;
    }
    let ghost before = v@;
    v.insert(p, x);
    proof {
        assert(v@ =~= before.insert(p as int, x));
        assert forall|i: int, j: int| 0 <= i < j < v@.len() implies surrogate_lt((#[trigger] v@[i])@, (#[trigger] v@[j])@) by {
            if j == p {
            } else if i == p {
                assert(surrogate_lt(x@, before[p as int]@));
                if j - 1 > p {
                    lemma_surrogate_transitive(x@, before[p as int]@, before[j - 1]@);
                }
            } else if i < p && j > p {
                assert(surrogate_lt(before[i]@, before[j - 1]@));
            } else if i > p {
                assert(surrogate_lt(before[i - 1]@, before[j - 1]@));
            } else {
                assert(surrogate_lt(before[i]@, before[j]@));
            }
        }
    }
}

fn contains_name(v: &Vec<String>, x: &String) -> (r: bool)
    ensures
        r == exists|k: int| 0 <= k < v@.len() && (#[trigger] v@[k])@ == x@,
{
    let mut i: usize = 0;
    while i < v.len()
        invariant
            i <= v@.len(),
            forall|k: int| 0 <= k < i ==> (#[trigger] v@[k])@ != x@,
        decreases v@.len() - i,
    {
        if v[i].eq(x) {
            return true;
        }
        i = i + 1;
    }
    false
}

/// The components that import `slot` (their wiring key contains it), each
/// once, in the order in which they are tried as type surrogates: names that
/// contain `orchestrator` first, then by name.
pub fn surrogates(bp: &Blueprint, slot: &str) -> (r: Vec<String>)
    requires
        names_unique(component_names(*bp)),
    ensures
        names_sorted(r@),
        forall|i: int| 0 <= i < r@.len() ==> is_consumer(*bp, slot@, (#[trigger] r@[i])@),
        forall|k: int, c: Seq<char>| #[trigger] consumes(*bp, k, slot@, c) ==> exists|i: int| 0 <= i < r@.len() && (#[trigger] r@[i])@ == c,
{
    let names = name_list(bp);
    assert(names@.map_values(|s: String| s@) =~= component_names(*bp));
    let mut out: Vec<String> = Vec::new();
    let mut k: usize = 0;
    while k < bp.wiring.len()
        invariant
            k <= bp.wiring@.len(),
            names_unique(component_names(*bp)),
            names@.map_values(|s: String| s@) == component_names(*bp),
            names_sorted(out@),
            forall|i: int| 0 <= i < out@.len() ==> is_consumer(*bp, slot@, (#[trigger] out@[i])@),
            forall|q: int, c: Seq<char>| q < k && #[trigger] consumes(*bp, q, slot@, c) ==> exists|i: int| 0 <= i < out@.len() && (#[trigger] out@[i])@ == c,
        decreases bp.wiring@.len() - k,
    {
        if str_contains(bp.wiring[k].0.as_str(), slot) {
            let c = first_segment(bp.wiring[k].0.as_str());
            if find_name(&names, c.as_str()).is_some() && !contains_name(&out, &c) {
                let ghost before = out@;
                let ghost cx = c;
                proof {
                    assert(consumes(*bp, k as int, slot@, cx@));
                }
                insert_name(&mut out, c);
                proof {
                    let p = choose|p: int| 0 <= p <= before.len() && out@ == before.insert(p, cx);
                    assert forall|i: int| 0 <= i < out@.len() implies is_consumer(*bp, slot@, (#[trigger] out@[i])@) by {
                        if i < p {
                            assert(out@[i] == before[i]);
                        } else if i > p {
                            assert(out@[i] == before[i - 1]);
                        } else {
                            assert(consumes(*bp, k as int, slot@, out@[i]@));
                        }
                    }
                    assert forall|q: int, c2: Seq<char>| q < k + 1 && #[trigger] consumes(*bp, q, slot@, c2) implies exists|i: int| 0 <= i < out@.len() && (#[trigger] out@[i])@ == c2 by {
                        if q < k {
                            let i = choose|i: int| 0 <= i < before.len() && (#[trigger] before[i])@ == c2;
                            if i < p {
                                assert(out@[i] == before[i]);
                            } else {
                                assert(out@[i + 1] == before[i]);
                            }
                        } else {
                            assert(out@[p]@ == c2);
                        }
                    }
                }
            }
        }
        k = k + 1;
    }
    out
}

/// What an instantiation round leaves: the modules still pending, in order,
/// and whether any module was instantiated.
#[derive(Clone, Debug)]
pub struct Round {
    pub pending: Vec<String>,
    pub progressed: bool,
}

/// The names whose attempt failed, in order.
pub open spec fn failed(pending: Seq<String>, ok: Seq<bool>) -> Seq<Seq<char>>
    decreases pending.len(),
{
    if pending.len() == 0 || ok.len() == 0 {
        Seq::empty()
    } else {
        let rest = failed(pending.drop_last(), ok.drop_last());
        if ok.last() {
            rest
        } else {
            rest.push(pending.last()@)
        }
    }
}

/// Closes one round of the instantiation loop over `pending`, given which
/// attempts succeeded: the failures stay pending for the next round.
pub fn close_round(pending: &Vec<String>, ok: &Vec<bool>) -> (r: Round)
    requires
        pending@.len() == ok@.len(),
    ensures
        r.pending@.map_values(|s: String| s@) == failed(pending@, ok@),
        r.progressed == exists|i: int| 0 <= i < ok@.len() && ok@[i],
{
    let mut next: Vec<String> = Vec::new();
    let mut progressed = false;
    let mut i: usize = 0;
    while i < pending.len()
        invariant
            i <= pending@.len(),
            pending@.len() == ok@.len(),
            next@.map_values(|s: String| s@) == failed(pending@.subrange(0, i as int), ok@.subrange(0, i as int)),
            progressed == exists|q: int| 0 <= q < i && ok@[q],
        decreases pending@.len() - i,
    {
        let ghost pn = pending@.subrange(0, i + 1);
        let ghost on = ok@.subrange(0, i + 1);
        assert(pn.drop_last() =~= pending@.subrange(0, i as int));
        assert(on.drop_last() =~= ok@.subrange(0, i as int));
        if ok[i] {
            progressed = true;
        } else {
            next.push(pending[i].clone());
            assert(next@.map_values(|s: String| s@) =~= failed(pn, on));
        }
        i = i + 1;
    }
    assert(pending@.subrange(0, pending@.len() as int) =~= pending@);
    assert(ok@.subrange(0, ok@.len() as int) =~= ok@);
    Round { pending: next, progressed }
}

/// Whether the loop runs another round: some module was instantiated and
/// some are still pending.
pub fn keep_going(r: &Round) -> (b: bool)
    ensures
        b == (r.progressed && r.pending@.len() > 0),
{
    r.progressed && r.pending.len() > 0
}

proof fn lemma_failed_len(pending: Seq<String>, ok: Seq<bool>)
    requires
        pending.len() == ok.len(),
    ensures
        failed(pending, ok).len() <= pending.len(),
        (exists|i: int| 0 <= i < ok.len() && ok[i]) ==> failed(pending, ok).len() < pending.len(),
    decreases pending.len(),
{
    if pending.len() > 0 {
        lemma_failed_len(pending.drop_last(), ok.drop_last());
        if exists|i: int| 0 <= i < ok.len() && ok[i] {
            let i = choose|i: int| 0 <= i < ok.len() && ok[i];
            if i < ok.len() - 1 {
                assert(ok.drop_last()[i]);
            }
        }
    }
}

/// A round that instantiates a module leaves fewer pending, so the loop ends
/// after at most as many rounds as there are modules; a module that was
/// instantiated is never attempted again.
pub proof fn lemma_round_progress(pending: Seq<String>, ok: Seq<bool>)
    requires
        pending.len() == ok.len(),
    ensures
        failed(pending, ok).len() <= pending.len(),
        (exists|i: int| 0 <= i < ok.len() && ok[i]) ==> failed(pending, ok).len() < pending.len(),
{
    lemma_failed_len(pending, ok);
}

} // verus!
