//! Blueprints: the components of a workload, who imports whose export, and an
//! optional workflow of calls.

use vstd::prelude::*;
use vstd::string::*;
use crate::text::chars_of;

verus! {

/// How a consumer's import is satisfied: a bare provider key, or a provider
/// key with a middleware chain.
#[derive(Clone, Debug)]
pub enum Connection {
    Simple(String),
    Configured { provider: String, middleware: Vec<String> },
}

impl Connection {
    pub open spec fn provider_spec(&self) -> Seq<char> {
        match self {
            Connection::Simple(p) => p@,
            Connection::Configured { provider, .. } => provider@,
        }
    }

    /// The provider key, `"<component-or-host>.<export>"`.
    pub fn provider(&self) -> (r: &String)
        ensures
            r@ == self.provider_spec(),
    {
        match self {
            Connection::Simple(p) => p,
            Connection::Configured { provider, .. } => provider,
        }
    }

    /// The names of the middlewares to wrap around the wire, outermost first.
    pub fn middleware_names(&self) -> (r: Vec<String>)
        ensures
            match self {
                Connection::Simple(_) => r@.len() == 0,
                Connection::Configured { middleware, .. } => r@.len() == middleware@.len() && forall|i: int|
                    0 <= i < r@.len() ==> #[trigger] r@[i]@ == middleware@[i]@,
            },
    {
        match self {
            Connection::Simple(_) => Vec::new(),
            Connection::Configured { middleware, .. } => {
                let mut out: Vec<String> = Vec::new();
                let mut i: usize = 0;
                while i < middleware.len()
                    invariant
                        i <= middleware@.len(),
                        out@.len() == i,
                        forall|j: int| 0 <= j < i ==> #[trigger] out@[j]@ == middleware@[j]@,
                    decreases middleware@.len() - i,
                {
                    out.push(middleware[i].clone());
                    i = i + 1;
                }
                out
            },
        }
    }
}

/// One call of a workflow.
#[derive(Clone, Debug)]
pub struct WorkflowStep {
    pub id: String,
    pub component: String,
    pub function: String,
    pub input: Option<String>,
}

/// An ordered list of calls, run after wiring in place of an entry point.
#[derive(Clone, Debug)]
pub struct Workflow {
    pub steps: Vec<WorkflowStep>,
}

/// A workload: components by name with their module locators, the wiring
/// from consumer keys to connections, and an optional workflow.
#[derive(Clone, Debug)]
pub struct Blueprint {
    pub components: Vec<(String, String)>,
    pub wiring: Vec<(String, Connection)>,
    pub workflow: Option<Workflow>,
}

/// The name of the implicit node that stands for the runtime's own imports.
pub open spec fn host_name() -> Seq<char> {
    "host"@
}

/// The component names of a blueprint, in order.
pub open spec fn component_names(bp: Blueprint) -> Seq<Seq<char>> {
    bp.components@.map_values(|c: (String, String)| c.0@)
}

/// No two components share a name.
pub open spec fn names_unique(names: Seq<Seq<char>>) -> bool {
    forall|i: int, j: int| 0 <= i < names.len() && 0 <= j < names.len() && i != j ==> names[i] != names[j]
}

/// `k` is where the first dotted segment of `s` ends.
pub open spec fn is_dot_cut(s: Seq<char>, k: int) -> bool {
    &&& 0 <= k <= s.len()
    &&& forall|j: int| 0 <= j < k ==> s[j] != '.'
    &&& (k == s.len() || s[k] == '.')
}

/// The first dotted segment of `s`: everything before the first `.`.
pub open spec fn dot_prefix(s: Seq<char>) -> Seq<char> {
    s.subrange(0, choose|k: int| is_dot_cut(s, k))
}

proof fn lemma_dot_cut_unique(s: Seq<char>, k1: int, k2: int)
    requires
        is_dot_cut(s, k1),
        is_dot_cut(s, k2),
    ensures
        k1 == k2,
{
    if k1 < k2 {
        assert(s[k1] != '.');
    } else if k2 < k1 {
        assert(s[k2] != '.');
    }
}

/// The index of the component called `name`, if there is one.
pub open spec fn component_index(names: Seq<Seq<char>>, name: Seq<char>) -> Option<int> {
    if exists|i: int| 0 <= i < names.len() && names[i] == name {
        Some(choose|i: int| 0 <= i < names.len() && names[i] == name)
    } else {
        None
    }
}

/// The graph node that `name` denotes: a component's index, or, for `host`
/// when no component takes that name, the node after all components.
pub open spec fn node_of(names: Seq<Seq<char>>, name: Seq<char>) -> Option<int> {
    match component_index(names, name) {
        Some(i) => Some(i),
        None => if name == host_name() {
            Some(names.len() as int)
        } else {
            None
        },
    }
}

/// The first dotted segment of `s`.
pub fn first_segment(s: &str) -> (r: String)
    ensures
        r@ == dot_prefix(s@),
{
    let v = chars_of(s);
    let mut out: Vec<char> = Vec::new();
    let mut k: usize = 0;
    while k < v.len() && v[k] != '.'
        invariant
            k <= v@.len(),
            v@ == s@,
            out@ == v@.subrange(0, k as int),
            forall|j: int| 0 <= j < k ==> v@[j] != '.',
        decreases v@.len() - k,
    {
        out.push(v[k]);
        k = k + 1;
        assert(out@ =~= v@.subrange(0, k as int));
    }
    proof {
        assert(is_dot_cut(s@, k as int));
        let c = choose|c: int| is_dot_cut(s@, c);
        lemma_dot_cut_unique(s@, c, k as int);
    }
    crate::text::string_of(out.as_slice())
}

/// The names of the components, in order.
pub fn name_list(bp: &Blueprint) -> (r: Vec<String>)
    ensures
        r@.len() == bp.components@.len(),
        forall|i: int| 0 <= i < r@.len() ==> #[trigger] r@[i]@ == component_names(*bp)[i],
{
    let mut out: Vec<String> = Vec::new();
    let mut i: usize = 0;
    while i < bp.components.len()
        invariant
            i <= bp.components@.len(),
            out@.len() == i,
            forall|j: int| 0 <= j < i ==> #[trigger] out@[j]@ == component_names(*bp)[j],
        decreases bp.components@.len() - i,
    {
        out.push(bp.components[i].0.clone());
        i = i + 1;
    }
    out
}

/// The index of the entry of `names` equal to `name`, where names are unique.
pub fn find_name(names: &Vec<String>, name: &str) -> (r: Option<usize>)
    ensures
        names_unique(names@.map_values(|s: String| s@)) ==> match r {
            Some(i) => component_index(names@.map_values(|s: String| s@), name@) == Some(i as int),
            None => component_index(names@.map_values(|s: String| s@), name@) is None,
        },
        r is None <==> forall|j: int| 0 <= j < names@.len() ==> names@[j]@ != name@,
        r matches Some(i) ==> i < names@.len() && names@[i as int]@ == name@,
{
    let ghost ns = names@.map_values(|s: String| s@);
    let target = String::from_str(name);
    let mut i: usize = 0;
    while i < names.len()
        invariant
            i <= names@.len(),
            target@ == name@,
            ns == names@.map_values(|s: String| s@),
            forall|j: int| 0 <= j < i ==> names@[j]@ != name@,
        decreases names@.len() - i,
    {
        if names[i].eq(&target) {
            proof {
                assert(ns[i as int] == name@);
                if names_unique(ns) {
                    let c = choose|c: int| 0 <= c < ns.len() && ns[c] == name@;
                    assert(c == i);
                }
            }
            return Some(i);
        }
        i = i + 1;
    }
    proof {
        assert(!(exists|c: int| 0 <= c < ns.len() && ns[c] == name@));
    }
    None
}

/// Whether `s` names the host node.
pub fn is_host(s: &str) -> (r: bool)
    ensures
        r == (s@ == host_name()),
{
    let a = String::from_str(s);
    let h = String::from_str("host");
    a.eq(&h)
}

/// Whether no two components of the blueprint share a name.
pub fn has_unique_names(bp: &Blueprint) -> (r: bool)
    ensures
        r == names_unique(component_names(*bp)),
{
    let names = name_list(bp);
    let ghost ns = component_names(*bp);
    let mut i: usize = 0;
    while i < names.len()
        invariant
            ns == component_names(*bp),
            names@.len() == ns.len(),
            forall|k: int| 0 <= k < ns.len() ==> #[trigger] names@[k]@ == ns[k],
            i <= ns.len(),
            forall|a: int, b: int| 0 <= a < i && 0 <= b < ns.len() && a != b ==> ns[a] != ns[b],
        decreases ns.len() - i,
    {
        let mut j: usize = 0;
        while j < names.len()
            invariant
                ns == component_names(*bp),
                names@.len() == ns.len(),
                forall|k: int| 0 <= k < ns.len() ==> #[trigger] names@[k]@ == ns[k],
                i < ns.len(),
                j <= ns.len(),
                forall|a: int, b: int| 0 <= a < i && 0 <= b < ns.len() && a != b ==> ns[a] != ns[b],
                forall|b: int| 0 <= b < j && b != i ==> ns[i as int] != ns[b],
            decreases ns.len() - j,
        {
            if j != i && names[i].eq(&names[j]) {
                assert(ns[i as int] == ns[j as int]);
                assert(!names_unique(ns)) by {
                    assert(0 <= i < ns.len() && 0 <= j < ns.len() && i != j && ns[i as int] == ns[j as int]);
                }
                return false;
            }
            j = j + 1;
        }
        i = i + 1;
    }
    true
}

} // verus!

verus! {

/// Why a blueprint could not be loaded.
#[derive(Clone, Copy, Debug, PartialEq, Eq, Structural)]
pub enum ConfigError {
    /// The file could not be read.
    ConfigIo,
    /// The text is not valid blueprint syntax.
    ConfigSyntax,
    /// A required field is missing, a connection has an unknown form, or the
    /// names do not fit together.
    ConfigSchema,
}

/// Component names are unique and non-empty, and every component that a
/// wiring key or provider key names exists, or is the host.
pub open spec fn well_formed(bp: Blueprint) -> bool {
    let names = component_names(bp);
    &&& names_unique(names)
    &&& forall|i: int| 0 <= i < names.len() ==> (#[trigger] names[i]).len() > 0
    &&& forall|k: int| 0 <= k < bp.wiring@.len() ==> node_of(names, dot_prefix((#[trigger] bp.wiring@[k]).0@)) is Some
        && node_of(names, dot_prefix(bp.wiring@[k].1.provider_spec())) is Some
}

/// Checks the schema rules that tie a blueprint's names together.
pub fn validate_blueprint(bp: &Blueprint) -> (r: Result<(), ConfigError>)
    ensures
        r is Ok <==> well_formed(*bp),
        r is Err ==> r == Err::<(), ConfigError>(ConfigError::ConfigSchema),
{
    if !has_unique_names(bp) {
        return Err(ConfigError::ConfigSchema);
    }
    let names = name_list(bp);
    let ghost ns = component_names(*bp);
    assert(names@.map_values(|s: String| s@) =~= ns);
    let mut i: usize = 0;
    while i < names.len()
        invariant
            i <= names@.len(),
            ns == component_names(*bp),
            names@.len() == ns.len(),
            forall|q: int| 0 <= q < ns.len() ==> #[trigger] names@[q]@ == ns[q],
            forall|q: int| 0 <= q < i ==> (#[trigger] ns[q]).len() > 0,
        decreases names@.len() - i,
    {
        if names[i].as_str().is_empty() {
            assert(ns[i as int].len() == 0);
            return Err(ConfigError::ConfigSchema);
        }
        i = i + 1;
    }
    let mut k: usize = 0;
    while k < bp.wiring.len()
        invariant
            k <= bp.wiring@.len(),
            ns == component_names(*bp),
            names_unique(ns),
            names@.map_values(|s: String| s@) == ns,
            forall|q: int| 0 <= q < k ==> node_of(ns, dot_prefix((#[trigger] bp.wiring@[q]).0@)) is Some
                && node_of(ns, dot_prefix(bp.wiring@[q].1.provider_spec())) is Some,
        decreases bp.wiring@.len() - k,
    {
        let c = first_segment(bp.wiring[k].0.as_str());
        let p = first_segment(bp.wiring[k].1.provider().as_str());
        if crate::analyzer::resolve_node(&names, c.as_str()).is_none()
            || crate::analyzer::resolve_node(&names, p.as_str()).is_none() {
            return Err(ConfigError::ConfigSchema);
        }
        k = k + 1;
    }
    Ok(())
}

} // verus!
