//! The capability contract shown to a user before a system runs: which
//! privileged imports each module asks for, and whether the answer approves.

use vstd::prelude::*;
use vstd::string::*;
use crate::agent::{lower_of, lowercase};
use crate::text::{chars_of, cut_index, has_prefix, lemma_cut_unique, split_once, str_starts_with, string_from};
use crate::workflow::{is_space, is_ws};

verus! {

/// The review of a system's capability contract.
#[derive(Clone, Copy, Debug)]
pub struct ContractUi;

/// The first position at or after `i` that is not whitespace.
pub open spec fn lead_end(s: Seq<char>, i: int) -> int
    decreases s.len() - i,
{
    if 0 <= i < s.len() && is_ws(s[i]) {
        lead_end(s, i + 1)
    } else {
        i
    }
}

/// The last position at or before `j` after which only whitespace follows.
pub open spec fn trail_start(s: Seq<char>, lo: int, j: int) -> int
    decreases j - lo,
{
    if lo < j && j <= s.len() && is_ws(s[j - 1]) {
        trail_start(s, lo, j - 1)
    } else {
        j
    }
}

/// `s` without leading and trailing whitespace.
pub open spec fn trimmed(s: Seq<char>) -> Seq<char> {
    let a = lead_end(s, 0);
    s.subrange(a, trail_start(s, a, s.len() as int))
}

/// The imported name on a line of a module's text form: the first quoted
/// text of a line that starts with `(import `.
pub open spec fn import_of_line(line: Seq<char>) -> Option<Seq<char>> {
    let t = trimmed(line);
    if !has_prefix(t, "(import "@) {
        None
    } else {
        let q1 = cut_index(t, '"');
        if q1 >= t.len() {
            None
        } else {
            let rest = t.subrange(q1 + 1, t.len() as int);
            let q2 = cut_index(rest, '"');
            if q2 >= rest.len() {
                None
            } else {
                Some(rest.subrange(0, q2))
            }
        }
    }
}

/// A privileged import: one of the calendar-privacy package.
pub open spec fn is_privileged(name: Seq<char>) -> bool {
    has_prefix(name, "local:calendar-privacy"@)
}

/// `name` is a privileged import on one of `lines`.
pub open spec fn imported_by(lines: Vec<String>, name: Seq<char>) -> bool {
    is_privileged(name) && exists|k: int| 0 <= k < lines@.len() && import_of_line(#[trigger] lines@[k]@) == Some(name)
}

/// Line `k` is the first of `lines` that imports `name`.
pub open spec fn first_import_line(lines: Vec<String>, name: Seq<char>, k: int) -> bool {
    &&& 0 <= k < lines@.len()
    &&& import_of_line(lines@[k]@) == Some(name)
    &&& forall|q: int| 0 <= q < k ==> import_of_line(lines@[q]@) != Some(name)
}

proof fn lemma_first_line_unique(lines: Vec<String>, name: Seq<char>, k1: int, k2: int)
    requires
        first_import_line(lines, name, k1),
        first_import_line(lines, name, k2),
    ensures
        k1 == k2,
{
}

fn trim(s: &str) -> (r: String)
    ensures
        r@ == trimmed(s@),
{
    let v = chars_of(s);
    let mut a: usize = 0;
    while a < v.len() && is_space(v[a])
        invariant
            a <= v@.len(),
            v@ == s@,
            lead_end(v@, a as int) == lead_end(v@, 0),
        decreases v@.len() - a,
    {
        a = a + 1;
    }
    let mut b: usize = v.len();
    while b > a && is_space(v[b - 1])
        invariant
            a <= b <= v@.len(),
            v@ == s@,
            a == lead_end(v@, 0),
            trail_start(v@, a as int, b as int) == trail_start(v@, a as int, v@.len() as int),
        decreases b - a,
    {
        b = b - 1;
    }
    string_from(&v, a, b)
}

/// The imported name on one line, if the line is an import.
pub fn line_import(line: &str) -> (r: Option<String>)
    ensures
        match r {
            Some(n) => import_of_line(line@) == Some(n@),
            None => import_of_line(line@) is None,
        },
{
    let t = trim(line);
    if !str_starts_with(t.as_str(), "(import ") {
        return None;
    }
    let (head, rest) = split_once(t.as_str(), '"');
    proof {
        lemma_cut_unique(t@, '"', cut_index(t@, '"'), head@.len() as int);
    }
    let rest = match rest {
        Some(r) => r,
        None => {
            return None;
        },
    };
    let (name, tail) = split_once(rest.as_str(), '"');
    proof {
        lemma_cut_unique(rest@, '"', cut_index(rest@, '"'), name@.len() as int);
    }
    match tail {
        Some(_) => Some(name),
        None => None,
    }
}

fn contains_text(v: &Vec<String>, x: &String) -> (r: bool)
    ensures
        r == exists|k: int| 0 <= k < v@.len() && (#[trigger] v@[k])@ == x@,
{
    let mut i: usize = 0;
    while i < v.len()
        invariant
            i <= v@.len(),
            forall|k: int| 0 <= k < i ==> (#[trigger] v@[k])@ != x@,
        decreases v@.len() - i,
    {
        if v[i].eq(x) {
            return true;
        }
        i = i + 1;
    }
    false
}

impl ContractUi {
    /// The privileged imports named on the lines of a module's text form,
    /// each once, in order of first appearance.
    pub fn capability_imports(lines: &Vec<String>) -> (r: Vec<String>)
        ensures
            forall|i: int, j: int| 0 <= i < j < r@.len() ==> (#[trigger] r@[i])@ != (#[trigger] r@[j])@,
            forall|i: int| 0 <= i < r@.len() ==> imported_by(*lines, (#[trigger] r@[i])@),
            forall|i: int, j: int, ki: int, kj: int|
                0 <= i < j < r@.len() && #[trigger] first_import_line(*lines, r@[i]@, ki) && #[trigger] first_import_line(
                    *lines,
                    r@[j]@,
                    kj,
                ) ==> ki < kj,
            forall|k: int| 0 <= k < lines@.len() && (#[trigger] import_of_line(lines@[k]@)) is Some && is_privileged(
                import_of_line(lines@[k]@)->0,
            ) ==> exists|i: int| 0 <= i < r@.len() && (#[trigger] r@[i])@ == import_of_line(lines@[k]@)->0,
    {
        let mut out: Vec<String> = Vec::new();
        let mut k: usize = 0;
        while k < lines.len()
            invariant
                k <= lines@.len(),
                forall|i: int, j: int| 0 <= i < j < out@.len() ==> (#[trigger] out@[i])@ != (#[trigger] out@[j])@,
                forall|i: int| 0 <= i < out@.len() ==> imported_by(*lines, (#[trigger] out@[i])@),
                forall|i: int, kq: int| 0 <= i < out@.len() && #[trigger] first_import_line(*lines, out@[i]@, kq) ==> kq < k,
                forall|i: int, j: int, ki: int, kj: int|
                    0 <= i < j < out@.len() && #[trigger] first_import_line(*lines, out@[i]@, ki) && #[trigger] first_import_line(
                        *lines,
                        out@[j]@,
                        kj,
                    ) ==> ki < kj,
                forall|q: int| 0 <= q < k && (#[trigger] import_of_line(lines@[q]@)) is Some && is_privileged(
                    import_of_line(lines@[q]@)->0,
                ) ==> exists|i: int| 0 <= i < out@.len() && (#[trigger] out@[i])@ == import_of_line(lines@[q]@)->0,
            decreases lines@.len() - k,
        {
            match line_import(lines[k].as_str()) {
                Some(name) => {
                    if str_starts_with(name.as_str(), "local:calendar-privacy") && !contains_text(&out, &name) {
                        let ghost before = out@;
                        let ghost nv = name@;
                        out.push(name);
                        proof {
                            assert(out@[before.len() as int]@ == nv);
                            assert(first_import_line(*lines, nv, k as int)) by {
                                assert forall|q: int| 0 <= q < k implies import_of_line(lines@[q]@) != Some(nv) by {
                                    if import_of_line(lines@[q]@) == Some(nv) {
                                        let i = choose|i: int| 0 <= i < before.len() && (#[trigger] before[i])@ == import_of_line(lines@[q]@)->0;
                                    }
                                }
                            }
                            assert forall|i: int, kq: int| 0 <= i < out@.len() && #[trigger] first_import_line(*lines, out@[i]@, kq) implies kq < k + 1 by {
                                if i < before.len() {
                                    assert(out@[i] == before[i]);
                                } else {
                                    lemma_first_line_unique(*lines, nv, kq, k as int);
                                }
                            }
                            assert forall|i: int, j: int, ki: int, kj: int|
                                0 <= i < j < out@.len() && #[trigger] first_import_line(*lines, out@[i]@, ki) && #[trigger] first_import_line(
                                    *lines,
                                    out@[j]@,
                                    kj,
                                ) implies ki < kj by {
                                assert(out@[i] == before[i]);
                                if j < before.len() {
                                    assert(out@[j] == before[j]);
                                } else {
                                    lemma_first_line_unique(*lines, nv, kj, k as int);
                                }
                            }
                            assert forall|i: int| 0 <= i < out@.len() implies imported_by(*lines, (#[trigger] out@[i])@) by {
                                if i < before.len() {
                                    assert(out@[i] == before[i]);
                                } else {
                                    assert(import_of_line(lines@[k as int]@) == Some(out@[i]@));
                                }
                            }
                            assert forall|q: int| 0 <= q < k + 1 && (#[trigger] import_of_line(lines@[q]@)) is Some && is_privileged(
                                import_of_line(lines@[q]@)->0,
                            ) implies exists|i: int| 0 <= i < out@.len() && (#[trigger] out@[i])@ == import_of_line(lines@[q]@)->0 by {
                                if q < k {
                                    let i = choose|i: int| 0 <= i < before.len() && (#[trigger] before[i])@ == import_of_line(lines@[q]@)->0;
                                    assert(out@[i] == before[i]);
                                } else {
                                    assert(out@[before.len() as int]@ == nv);
                                }
                            }
                            assert forall|i: int, j: int| 0 <= i < j < out@.len() implies (#[trigger] out@[i])@ != (#[trigger] out@[j])@ by {
                                if j < before.len() {
                                    assert(out@[i] == before[i] && out@[j] == before[j]);
                                } else {
                                    assert(out@[i] == before[i]);
                                }
                            }
                        }
                    }
                },
                None => {},
            }
            k = k + 1;
        }
        out
    }

    /// Whether the user's answer approves the contract: `y` or `yes`, in any
    /// case, around whitespace.
    pub fn approves(response: &str) -> (r: bool)
        ensures
            r == (lower_of(trimmed(response@)) == "y"@ || lower_of(trimmed(response@)) == "yes"@),
    {
        let t = trim(response);
        let l = lowercase(t.as_str());
        l.eq(&String::from_str("y")) || l.eq(&String::from_str("yes"))
    }
}

} // verus!
