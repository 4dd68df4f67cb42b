//! The workflow engine's decisions: which export a step calls, the text of
//! its input template with earlier outputs filled in, the argument list that
//! the call gets, and the table of step outputs.

use vstd::prelude::*;
use vstd::string::*;
use crate::jsontext::{fits_json_numbers, json_parse_of, json_text, json_text_of, numbers_fit, parse_json};
use crate::marshal::{decodable, decoded, find_entry, find_key, from_json, json_of, to_json};
use crate::text::{chars_of, count_char, count_of, cut_index, is_cut, lemma_cut_unique, split_once, string_of};
use crate::value::{Json, Val, ValType};

verus! {

/// Why a workflow step failed.
#[derive(Clone, Copy, Debug, PartialEq, Eq, Structural)]
pub enum WorkflowError {
    /// The component or its export does not exist.
    FunctionNotFound,
    /// The input does not fit the parameter's type.
    ArgTypeMismatch,
    /// The function takes two or more parameters.
    UnsupportedArity,
    /// The function takes a parameter and the step gives no input.
    MissingInput,
    /// The call itself failed.
    CallFailed,
}

/// The export that a step names: `"f"` at the root, or `"iface.f"` inside an
/// exported interface instance.
#[derive(Clone, Debug)]
pub enum FunctionRef {
    Root(String),
    Nested { interface: String, function: String },
}

/// Splits a step's function name at its first `.`.
pub fn function_ref(function: &str) -> (r: FunctionRef)
    ensures
        match r {
            FunctionRef::Root(f) => f@ == function@ && count_char(function@, '.') == 0,
            FunctionRef::Nested { interface, function: f } => {
                let k = cut_index(function@, '.');
                &&& k < function@.len()
                &&& interface@ == function@.subrange(0, k)
                &&& f@ == function@.subrange(k + 1, function@.len() as int)
            },
        },
{
    let (head, tail) = split_once(function, '.');
    proof {
        let k = cut_index(function@, '.');
        lemma_cut_unique(function@, '.', k, head@.len() as int);
    }
    match tail {
        Some(f) => FunctionRef::Nested { interface: head, function: f },
        None => {
            proof {
                lemma_no_dot(function@);
            }
            FunctionRef::Root(head)
        },
    }
}

proof fn lemma_no_dot(s: Seq<char>)
    requires
        is_cut(s, '.', s.len() as int),
    ensures
        count_char(s, '.') == 0,
    decreases s.len(),
{
    if s.len() > 0 {
        assert(is_cut(s.drop_last(), '.', s.len() - 1));
        lemma_no_dot(s.drop_last());
    }
}

/// Whitespace: the Unicode `White_Space` characters, the set that
/// `char::is_whitespace` and `str::trim` use.
pub open spec fn is_ws(c: char) -> bool {
    ('\t' <= c && c <= '\r') || c == ' ' || c == '\u{85}' || c == '\u{A0}' || c == '\u{1680}'
        || ('\u{2000}' <= c && c <= '\u{200A}') || c == '\u{2028}' || c == '\u{2029}' || c == '\u{202F}'
        || c == '\u{205F}' || c == '\u{3000}'
}

/// Whether `c` is whitespace.
pub fn is_space(c: char) -> (r: bool)
    ensures
        r == is_ws(c),
{
    ('\t' <= c && c <= '\r') || c == ' ' || c == '\u{85}' || c == '\u{A0}' || c == '\u{1680}'
        || ('\u{2000}' <= c && c <= '\u{200A}') || c == '\u{2028}' || c == '\u{2029}' || c == '\u{202F}'
        || c == '\u{205F}' || c == '\u{3000}'
}

/// A character of a token's path: ASCII letters and digits, `_` and `.`.
pub open spec fn is_path_char(c: char) -> bool {
    ('a' <= c && c <= 'z') || ('A' <= c && c <= 'Z') || ('0' <= c && c <= '9') || c == '_' || c == '.'
}

/// The first position at or after `i` that is not whitespace.
pub open spec fn skip_ws(t: Seq<char>, i: int) -> int
    decreases t.len() - i,
{
    if 0 <= i < t.len() && is_ws(t[i]) {
        skip_ws(t, i + 1)
    } else {
        i
    }
}

/// The first position at or after `i` that is not a path character.
pub open spec fn skip_path(t: Seq<char>, i: int) -> int
    decreases t.len() - i,
{
    if 0 <= i < t.len() && is_path_char(t[i]) {
        skip_path(t, i + 1)
    } else {
        i
    }
}

/// A token `{{ path }}` starts at `i`: its path and where it ends.
pub open spec fn token_at(t: Seq<char>, i: int) -> Option<(Seq<char>, int)> {
    if 0 <= i && i + 2 <= t.len() && t[i] == '{' && t[i + 1] == '{' {
        let ps = skip_ws(t, i + 2);
        let pe = skip_path(t, ps);
        let q = skip_ws(t, pe);
        if pe > ps && t.len() >= 2 && q <= t.len() - 2 && t[q] == '}' && t[q + 1] == '}' {
            Some((t.subrange(ps, pe), q + 2))
        } else {
            None
        }
    } else {
        None
    }
}

/// The output recorded for step `id`, if any.
pub open spec fn output_of(outputs: Vec<(String, Json)>, id: Seq<char>) -> Option<Json> {
    match find_key(outputs, id) {
        Some(k) => Some(outputs[k].1),
        None => None,
    }
}

/// What replaces the token with `path`: `step.output` of a finished step
/// becomes that step's output, a string literally and anything else as JSON
/// text; any other path becomes `UNRESOLVED(path)`.
pub open spec fn substitution(outputs: Vec<(String, Json)>, path: Seq<char>) -> Seq<char> {
    let k = cut_index(path, '.');
    let id = path.subrange(0, k);
    if count_char(path, '.') == 1 && path.subrange(k + 1, path.len() as int) == "output"@ && output_of(outputs, id) is Some {
        output_text(output_of(outputs, id)->0)
    } else {
        "UNRESOLVED("@ + path + ")"@
    }
}

/// The template from position `i` on, with every token replaced.
pub open spec fn render_from(t: Seq<char>, i: int, outputs: Vec<(String, Json)>) -> Seq<char>
    decreases t.len() - i,
{
    if i < 0 || i >= t.len() {
        Seq::empty()
    } else {
        match token_at(t, i) {
            Some((path, end)) => if end > i {
                substitution(outputs, path) + render_from(t, end, outputs)
            } else {
                Seq::empty()
            },
            None => seq![t[i]] + render_from(t, i + 1, outputs),
        }
    }
}

/// The output of step `id`.
pub fn lookup_output<'a>(outputs: &'a Vec<(String, Json)>, id: &str) -> (r: Option<&'a Json>)
    ensures
        match r {
            Some(j) => output_of(*outputs, id@) == Some(*j),
            None => output_of(*outputs, id@) is None,
        },
{
    match find_entry(outputs, id) {
        Some(k) => Some(&outputs[k].1),
        None => None,
    }
}

/// What a step output substitutes as: a string's characters, anything else
/// its JSON text. A tree holding a number beyond the 64-bit range, which no
/// call result produces, has no JSON text and substitutes as `null`.
pub open spec fn output_text(j: Json) -> Seq<char> {
    if j is Str {
        j->Str_0@
    } else if numbers_fit(j) {
        json_text_of(j)
    } else {
        "null"@
    }
}

/// The text that a step output substitutes as.
pub fn render_output(j: &Json) -> (r: String)
    ensures
        r@ == output_text(*j),
{
    match j {
        Json::Str(s) => s.clone(),
        _ => {
            if fits_json_numbers(j) {
                json_text(j)
            } else {
                String::from_str("null")
            }
        },
    }
}

/// The text that replaces the token with `path`.
pub fn substitute(outputs: &Vec<(String, Json)>, path: &str) -> (r: String)
    ensures
        r@ == substitution(*outputs, path@),
{
    let (id, rest) = split_once(path, '.');
    proof {
        lemma_cut_unique(path@, '.', cut_index(path@, '.'), id@.len() as int);
    }
    let dots = count_of(path, '.');
    let unresolved = {
        let mut s = String::from_str("UNRESOLVED(");
        s.append(path);
        s.append(")");
        s
    };
    match rest {
        Some(rest) => {
            let want = String::from_str("output");
            if dots == 1 && rest.eq(&want) {
                match lookup_output(outputs, id.as_str()) {
                    Some(j) => render_output(j),
                    None => unresolved,
                }
            } else {
                unresolved
            }
        },
        None => {
            proof {
                lemma_no_dot(path@);
            }
            unresolved
        },
    }
}

fn skip_while_ws(t: &Vec<char>, i: usize) -> (r: usize)
    requires
        i <= t@.len(),
    ensures
        r as int == skip_ws(t@, i as int),
        i <= r <= t@.len(),
{
    let mut k: usize = i;
    while k < t.len() && is_space(t[k])
        invariant
            i <= k <= t@.len(),
            skip_ws(t@, k as int) == skip_ws(t@, i as int),
        decreases t@.len() - k,
    {
        k = k + 1;
    }
    k
}

fn skip_while_path(t: &Vec<char>, i: usize) -> (r: usize)
    requires
        i <= t@.len(),
    ensures
        r as int == skip_path(t@, i as int),
        i <= r <= t@.len(),
{
    let mut k: usize = i;
    while k < t.len() && (('a' <= t[k] && t[k] <= 'z') || ('A' <= t[k] && t[k] <= 'Z') || ('0' <= t[k] && t[k] <= '9')
        || t[k] == '_' || t[k] == '.')
        invariant
            i <= k <= t@.len(),
            skip_path(t@, k as int) == skip_path(t@, i as int),
        decreases t@.len() - k,
    {
        k = k + 1;
    }
    k
}

/// The path and end of the token at `i`, if one starts there.
fn token_here(t: &Vec<char>, i: usize) -> (r: Option<(String, usize)>)
    requires
        i <= t@.len(),
    ensures
        match r {
            Some((p, e)) => token_at(t@, i as int) == Some((p@, e as int)) && i < e <= t@.len(),
            None => token_at(t@, i as int) is None,
        },
{
    if t.len() >= 2 && i <= t.len() - 2 && t[i] == '{' && t[i + 1] == '{' {
        let ps = skip_while_ws(t, i + 2);
        let pe = skip_while_path(t, ps);
        let q = skip_while_ws(t, pe);
        if pe > ps && t.len() >= 2 && q <= t.len() - 2 && t[q] == '}' && t[q + 1] == '}' {
            let p = crate::text::string_from(t, ps, pe);
            Some((p, q + 2))
        } else {
            None
        }
    } else {
        None
    }
}

/// The template with each `{{ step.output }}` token replaced (see
/// `substitution`); text outside tokens is kept as it is.
pub fn interpolate(template: &str, outputs: &Vec<(String, Json)>) -> (r: String)
    ensures
        r@ == render_from(template@, 0, *outputs),
{
    let t = chars_of(template);
    let mut out = String::new();
    let mut i: usize = 0;
    while i < t.len()
        invariant
            i <= t@.len(),
            t@ == template@,
            out@ + render_from(t@, i as int, *outputs) == render_from(t@, 0, *outputs),
        decreases t@.len() - i,
    {
        let ghost before = out@;
        match token_here(&t, i) {
            Some((path, end)) => {
                let s = substitute(outputs, path.as_str());
                out.append(s.as_str());
                proof {
                    assert(render_from(t@, i as int, *outputs) == s@ + render_from(t@, end as int, *outputs));
                    assert(before + (s@ + render_from(t@, end as int, *outputs)) =~= (before + s@) + render_from(t@, end as int, *outputs));
                }
                i = end;
            },
            None => {
                let one: Vec<char> = vec![t[i]];
                let s = string_of(one.as_slice());
                out.append(s.as_str());
                proof {
                    assert(render_from(t@, i as int, *outputs) == seq![t@[i as int]] + render_from(t@, i + 1, *outputs));
                    assert(s@ =~= seq![t@[i as int]]);
                    assert(before + (s@ + render_from(t@, i + 1, *outputs)) =~= (before + s@) + render_from(t@, i + 1, *outputs));
                }
                i = i + 1;
            },
        }
    }
    assert(out@ + render_from(t@, i as int, *outputs) =~= out@);
    out
}

/// The argument of a one-parameter call whose type is not a string, from the
/// parsed input text (`None` when the text is not JSON).
pub fn arg_from_json(parsed: Option<Json>, t: &ValType) -> (r: Result<Val, WorkflowError>)
    ensures
        match parsed {
            None => r == Err::<Val, WorkflowError>(WorkflowError::ArgTypeMismatch),
            Some(j) => if decodable(j, *t) {
                r matches Ok(v) && decoded(j, *t, v)
            } else {
                r == Err::<Val, WorkflowError>(WorkflowError::ArgTypeMismatch)
            },
        },
{
    match parsed {
        None => Err(WorkflowError::ArgTypeMismatch),
        Some(j) => match from_json(&j, t) {
            Ok(v) => Ok(v),
            Err(_) => Err(WorkflowError::ArgTypeMismatch),
        },
    }
}

/// The argument list of a step's call, from the types of the function's
/// parameters, the step's input template and the outputs so far. No
/// parameter: no argument, whatever the input. One parameter: the rendered
/// input, as a string for a string parameter and read as JSON otherwise.
/// More: refused.
pub fn build_args(params: &Vec<ValType>, input: &Option<String>, outputs: &Vec<(String, Json)>) -> (r: Result<
    Vec<Val>,
    WorkflowError,
>)
    ensures
        params@.len() == 0 ==> (r matches Ok(a) && a@.len() == 0),
        params@.len() >= 2 ==> r == Err::<Vec<Val>, WorkflowError>(WorkflowError::UnsupportedArity),
        params@.len() == 1 ==> match input {
            None => r == Err::<Vec<Val>, WorkflowError>(WorkflowError::MissingInput),
            Some(tpl) => {
                let text = render_from(tpl@, 0, *outputs);
                if params[0] is Str {
                    r matches Ok(a) && a@.len() == 1 && a[0] is Str && a[0]->Str_0@ == text
                } else {
                    match json_parse_of(text) {
                        None => r == Err::<Vec<Val>, WorkflowError>(WorkflowError::ArgTypeMismatch),
                        Some(j) => if decodable(j, params[0]) {
                            r matches Ok(a) && a@.len() == 1 && decoded(j, params[0], a[0])
                        } else {
                            r == Err::<Vec<Val>, WorkflowError>(WorkflowError::ArgTypeMismatch)
                        },
                    }
                }
            },
        },
{
    if params.len() == 0 {
        return Ok(Vec::new());
    }
    if params.len() >= 2 {
        return Err(WorkflowError::UnsupportedArity);
    }
    let tpl = match input {
        Some(t) => t,
        None => {
            return Err(WorkflowError::MissingInput);
        },
    };
    let text = interpolate(tpl.as_str(), outputs);
    let mut args: Vec<Val> = Vec::new();
    match &params[0] {
        ValType::Str => {
            args.push(Val::Str(text));
        },
        t => {
            let parsed = parse_json(text.as_str());
            match arg_from_json(parsed, t) {
                Ok(v) => args.push(v),
                Err(e) => {
                    return Err(e);
                },
            }
        },
    }
    Ok(args)
}

/// The output of a call: its first result, as JSON.
pub fn capture_output(results: &Vec<Val>) -> (r: Option<Json>)
    ensures
        results@.len() == 0 ==> r is None,
        results@.len() > 0 ==> (r matches Some(j) && json_of(results[0], j)),
{
    if results.len() == 0 {
        None
    } else {
        Some(to_json(&results[0]))
    }
}

/// Records the output of step `id`, replacing an earlier one of that id.
pub fn record_output(outputs: &mut Vec<(String, Json)>, id: &str, value: Json)
    ensures
        output_of(*final(outputs), id@) == Some(value),
        forall|other: Seq<char>| other != id@ ==> output_of(*final(outputs), other) == output_of(*old(outputs), other),
{
    let ghost before = *outputs;
    match find_entry(outputs, id) {
        Some(k) => {
            outputs.set(k, (String::from_str(id), value));
            proof {
                let after = *outputs;
                assert(crate::marshal::key_at(after, id@, k as int));
                lemma_find_key_after_set(before, after, k as int, id@);
            }
        },
        None => {
            outputs.push((String::from_str(id), value));
            proof {
                let after = *outputs;
                let k = before.len() as int;
                assert(crate::marshal::key_at(after, id@, k));
                lemma_find_key_after_push(before, after, id@);
            }
        },
    }
}

proof fn lemma_find_key_after_set(before: Vec<(String, Json)>, after: Vec<(String, Json)>, k: int, id: Seq<char>)
    requires
        0 <= k < before.len(),
        after@ == before@.update(k, after[k]),
        before[k].0@ == id,
        after[k].0@ == id,
        crate::marshal::key_at(before, id, k),
    ensures
        output_of(after, id) == Some(after[k].1),
        forall|other: Seq<char>| other != id ==> output_of(after, other) == output_of(before, other),
{
    crate::marshal::lemma_key_first_pub(after, id, k);
    assert forall|other: Seq<char>| other != id implies output_of(after, other) == output_of(before, other) by {
        if exists|i: int| crate::marshal::key_at(before, other, i) {
            let i = choose|i: int| crate::marshal::key_at(before, other, i);
            assert(i != k);
            assert(crate::marshal::key_at(after, other, i));
            crate::marshal::lemma_key_first_pub(before, other, i);
            crate::marshal::lemma_key_first_pub(after, other, i);
        } else if exists|i: int| crate::marshal::key_at(after, other, i) {
            let i = choose|i: int| crate::marshal::key_at(after, other, i);
            assert(i != k);
            assert(after[i] == before[i]);
            assert forall|q: int| 0 <= q < i implies before[q].0@ != other by {
                if q != k {
                    assert(after[q] == before[q]);
                }
            }
            assert(crate::marshal::key_at(before, other, i));
        }
    }
}

proof fn lemma_find_key_after_push(before: Vec<(String, Json)>, after: Vec<(String, Json)>, id: Seq<char>)
    requires
        after@.len() == before@.len() + 1,
        after@ == before@.push(after[before.len() as int]),
        after[before.len() as int].0@ == id,
        forall|i: int| 0 <= i < before.len() ==> before[i].0@ != id,
    ensures
        output_of(after, id) == Some(after[before.len() as int].1),
        forall|other: Seq<char>| other != id ==> output_of(after, other) == output_of(before, other),
{
    crate::marshal::lemma_key_first_pub(after, id, before.len() as int);
    assert forall|other: Seq<char>| other != id implies output_of(after, other) == output_of(before, other) by {
        if exists|i: int| crate::marshal::key_at(before, other, i) {
            let i = choose|i: int| crate::marshal::key_at(before, other, i);
            assert(crate::marshal::key_at(after, other, i));
            crate::marshal::lemma_key_first_pub(before, other, i);
            crate::marshal::lemma_key_first_pub(after, other, i);
        } else if exists|i: int| crate::marshal::key_at(after, other, i) {
            let i = choose|i: int| crate::marshal::key_at(after, other, i);
            assert(i != before.len());
            assert(after[i] == before[i]);
            assert forall|q: int| 0 <= q < i implies before[q].0@ != other by {
                assert(after[q] == before[q]);
            }
            assert(crate::marshal::key_at(before, other, i));
        }
    }
}

} // verus!

verus! {

proof fn lemma_render_plain(t: Seq<char>, n: int, i: int, outputs: Vec<(String, Json)>)
    requires
        0 <= i <= n <= t.len(),
        forall|k: int| 0 <= k < n ==> t[k] != '{',
    ensures
        render_from(t, i, outputs) == t.subrange(i, n) + render_from(t, n, outputs),
    decreases n - i,
{
    if i < n {
        assert(token_at(t, i) is None);
        lemma_render_plain(t, n, i + 1, outputs);
        assert(t.subrange(i, n) =~= seq![t[i]] + t.subrange(i + 1, n));
    } else {
        assert(t.subrange(i, n) =~= Seq::<char>::empty());
    }
}

proof fn lemma_skip_path(t: Seq<char>, i: int, k: int)
    requires
        0 <= i <= k < t.len(),
        forall|j: int| i <= j < k ==> is_path_char(t[j]),
        !is_path_char(t[k]),
    ensures
        skip_path(t, i) == k,
    decreases k - i,
{
    if i < k {
        lemma_skip_path(t, i + 1, k);
    }
}

proof fn lemma_count_concat(a: Seq<char>, b: Seq<char>, c: char)
    ensures
        count_char(a + b, c) == count_char(a, c) + count_char(b, c),
    decreases b.len(),
{
    if b.len() == 0 {
        assert(a + b =~= a);
    } else {
        assert((a + b).drop_last() =~= a + b.drop_last());
        lemma_count_concat(a, b.drop_last(), c);
    }
}

proof fn lemma_count_none(a: Seq<char>, c: char)
    requires
        forall|j: int| 0 <= j < a.len() ==> a[j] != c,
    ensures
        count_char(a, c) == 0,
    decreases a.len(),
{
    if a.len() > 0 {
        lemma_count_none(a.drop_last(), c);
    }
}

/// Workflow piping: a template of plain text `p` (without `{`) followed by
/// the token `{{id.output}}` renders as `p` followed by the output that step
/// `id` recorded: a string literally, anything else as its JSON text.
pub proof fn lemma_piping(p: Seq<char>, id: Seq<char>, outputs: Vec<(String, Json)>, j: Json)
    requires
        forall|k: int| 0 <= k < p.len() ==> p[k] != '{',
        id.len() > 0,
        forall|k: int| 0 <= k < id.len() ==> is_path_char(#[trigger] id[k]) && id[k] != '.',
        output_of(outputs, id) == Some(j),
    ensures
        render_from(p + "{{"@ + id + ".output"@ + "}}"@, 0, outputs) == p + output_text(j),
{
    reveal_strlit("{{");
    reveal_strlit("}}");
    reveal_strlit(".output");
    reveal_strlit("output");
    let open = "{{"@;
    let tail = ".output"@;
    let close = "}}"@;
    let t = p + open + id + tail + close;
    let n = p.len() as int;
    let path = id + tail;
    let pe = n + 2 + path.len();
    assert(open =~= seq!['{', '{']);
    assert(close =~= seq!['}', '}']);
    assert(tail =~= seq!['.', 'o', 'u', 't', 'p', 'u', 't']);
    assert(t.len() == pe + 2);
    assert forall|k: int| 0 <= k < n implies t[k] != '{' by {
        assert(t[k] == p[k]);
    }
    lemma_render_plain(t, n, 0, outputs);
    assert(t.subrange(0, n) =~= p);
    // The token at `n`.
    assert(t[n] == '{' && t[n + 1] == '{');
    assert(t[n + 2] == id[0]);
    assert(skip_ws(t, n + 2) == n + 2);
    assert forall|k: int| n + 2 <= k < pe implies is_path_char(t[k]) by {
        if k < n + 2 + id.len() {
            assert(t[k] == id[k - n - 2]);
        } else {
            assert(t[k] == tail[k - n - 2 - id.len()]);
        }
    }
    assert(t[pe] == '}' && t[pe + 1] == '}');
    lemma_skip_path(t, n + 2, pe);
    assert(skip_ws(t, pe) == pe);
    assert(t.subrange(n + 2, pe) =~= path);
    assert(token_at(t, n) == Some((path, pe + 2)));
    assert(render_from(t, pe + 2, outputs) =~= Seq::<char>::empty());
    assert(render_from(t, n, outputs) == substitution(outputs, path) + render_from(t, pe + 2, outputs));
    // The substitution.
    let k = id.len() as int;
    assert(is_cut(path, '.', k)) by {
        assert forall|q: int| 0 <= q < k implies path[q] != '.' by {
            assert(path[q] == id[q]);
        }
        assert(path[k] == '.');
    }
    lemma_cut_unique(path, '.', cut_index(path, '.'), k);
    assert(path.subrange(0, k) =~= id);
    assert(path.subrange(k + 1, path.len() as int) =~= "output"@);
    lemma_count_concat(id, tail, '.');
    assert forall|q: int| 0 <= q < id.len() implies id[q] != '.' by {}
    lemma_count_none(id, '.');
    assert(tail.drop_last() =~= seq!['.', 'o', 'u', 't', 'p', 'u']);
    lemma_count_none(tail.subrange(1, 7), '.');
    lemma_count_concat(seq!['.'], tail.subrange(1, 7), '.');
    assert(seq!['.'] + tail.subrange(1, 7) =~= tail);
    assert(count_char(seq!['.'], '.') == 1) by {
        let one = seq!['.'];
        assert(one.drop_last() =~= Seq::<char>::empty());
        assert(count_char(Seq::<char>::empty(), '.') == 0);
        assert(one.last() == '.');
        assert(count_char(one, '.') == count_char(one.drop_last(), '.') + 1);
    }
    assert(count_char(path, '.') == 1);
    assert(substitution(outputs, path) == output_text(j));
    assert(render_from(t, n, outputs) =~= output_text(j));
}

} // verus!
