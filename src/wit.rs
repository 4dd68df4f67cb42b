//! Interface descriptors: the functions that each named interface of a
//! module's interface file exports.

use vstd::prelude::*;
use vstd::string::*;
use crate::text::{cut_index, lemma_cut_unique, split_once};

verus! {

/// Interfaces by name, each with its function names, in declaration order.
pub open spec fn table_view(t: Seq<(String, Vec<String>)>) -> Seq<(Seq<char>, Seq<Seq<char>>)> {
    t.map_values(|e: (String, Vec<String>)| (e.0@, e.1@.map_values(|s: String| s@)))
}

/// No name occurs twice.
pub open spec fn names_distinct(s: Seq<Seq<char>>) -> bool {
    forall|i: int, j: int| 0 <= i < s.len() && 0 <= j < s.len() && i != j ==> s[i] != s[j]
}

/// The interface names of a table, in order.
pub open spec fn interface_names(t: Seq<(Seq<char>, Seq<Seq<char>>)>) -> Seq<Seq<char>> {
    t.map_values(|e: (Seq<char>, Seq<Seq<char>>)| e.0)
}

/// Interface names are distinct, and so are the function names of each
/// interface (both are map keys in the parsed package).
pub open spec fn table_wf(t: Seq<(Seq<char>, Seq<Seq<char>>)>) -> bool {
    &&& names_distinct(interface_names(t))
    &&& forall|i: int| 0 <= i < t.len() ==> names_distinct(#[trigger] t[i].1)
}

/// The interfaces of the main package of an interface file, parsed with
/// semicolons required and the old float names accepted, or `None` when the
/// text does not parse or resolve.
pub uninterp spec fn wit_interfaces_of(label: Seq<char>, text: Seq<char>) -> Option<Seq<(Seq<char>, Seq<Seq<char>>)>>;

/// Relies on `wit_parser::SourceMap` (`new`, `set_require_semicolons`,
/// `set_require_f32_f64`, `push`, `parse`) and `Resolve::push`: the pushed
/// package's interfaces (by name) and each one's functions (by name), in
/// declaration order; `None` on a parse or resolve error. Both tokenizer
/// settings are fixed here (to wit-parser's defaults), so the environment is
/// not consulted and the result depends on the label and text alone. Both
/// lists come from `IndexMap` keys (`Package::interfaces`,
/// `Interface::functions`), so the names of each list are distinct.
#[verifier::external_body]
fn parse_wit(label: &str, text: &str) -> (r: Option<Vec<(String, Vec<String>)>>)
    ensures
        match r {
            None => wit_interfaces_of(label@, text@) is None,
            Some(t) => wit_interfaces_of(label@, text@) == Some(table_view(t@)) && table_wf(table_view(t@)),
        },
{
    let mut map = wit_parser::SourceMap::new();
    map.set_require_semicolons(true);
    map.set_require_f32_f64(false);
    map.push(std::path::Path::new(label), text);
    let mut resolve = wit_parser::Resolve::new();
    let id = resolve.push(map.parse().ok()?).ok()?;
    Some(resolve.packages[id].interfaces.iter()
        .map(|(name, iid)| (name.clone(), resolve.interfaces[*iid].functions.keys().cloned().collect()))
        .collect())
}

/// Why an interface file or an interface could not be used.
#[derive(Clone, Debug, PartialEq, Eq)]
pub enum WitError {
    /// The interface file does not parse.
    Invalid,
    /// No interface of that name; the interfaces that the file does have.
    NotFound(Vec<String>),
}

/// The interfaces of one module's interface file.
#[derive(Clone, Debug)]
pub struct WitLoader {
    pub interfaces: Vec<(String, Vec<String>)>,
}

/// Entry `i` is the first interface called `name`.
pub open spec fn first_named(t: Seq<(Seq<char>, Seq<Seq<char>>)>, name: Seq<char>, i: int) -> bool {
    &&& 0 <= i < t.len()
    &&& t[i].0 == name
    &&& forall|k: int| 0 <= k < i ==> t[k].0 != name
}

/// The functions of the first interface called `name`.
pub open spec fn functions_named(t: Seq<(Seq<char>, Seq<Seq<char>>)>, name: Seq<char>) -> Option<Seq<Seq<char>>> {
    if exists|i: int| first_named(t, name, i) {
        Some(t[choose|i: int| first_named(t, name, i)].1)
    } else {
        None
    }
}

/// The functions of interface `name`: looked up as given, then, when `name`
/// holds a `/`, by the part after the first `/`.
pub open spec fn exports_of(t: Seq<(Seq<char>, Seq<Seq<char>>)>, name: Seq<char>) -> Option<Seq<Seq<char>>> {
    match functions_named(t, name) {
        Some(f) => Some(f),
        None => {
            let k = cut_index(name, '/');
            if k < name.len() {
                functions_named(t, name.subrange(k + 1, name.len() as int))
            } else {
                None
            }
        },
    }
}

fn find_interface(t: &Vec<(String, Vec<String>)>, name: &str) -> (r: Option<usize>)
    ensures
        match r {
            Some(i) => i < t@.len() && functions_named(table_view(t@), name@) == Some(table_view(t@)[i as int].1),
            None => functions_named(table_view(t@), name@) is None,
        },
{
    let ghost tv = table_view(t@);
    let target = String::from_str(name);
    let mut i: usize = 0;
    while i < t.len()
        invariant
            i <= t@.len(),
            target@ == name@,
            tv == table_view(t@),
            forall|k: int| 0 <= k < i ==> tv[k].0 != name@,
        decreases t@.len() - i,
    {
        if t[i].0.eq(&target) {
            proof {
                assert(first_named(tv, name@, i as int));
                let c = choose|c: int| first_named(tv, name@, c);
                assert(c == i as int) by {
                    if c > i {
                        assert(tv[i as int].0 != name@);
                    }
                }
            }
            return Some(i);
        }
        i = i + 1;
    }
    None
}

fn copy_names(v: &Vec<String>) -> (r: Vec<String>)
    ensures
        r@.map_values(|s: String| s@) == v@.map_values(|s: String| s@),
{
    let mut out: Vec<String> = Vec::new();
    let mut i: usize = 0;
    while i < v.len()
        invariant
            i <= v@.len(),
            out@.len() == i,
            forall|k: int| 0 <= k < i ==> #[trigger] out@[k]@ == v@[k]@,
        decreases v@.len() - i,
    {
        out.push(v[i].clone());
        i = i + 1;
    }
    assert(out@.map_values(|s: String| s@) =~= v@.map_values(|s: String| s@));
    out
}

impl WitLoader {
    /// Interface names are distinct, and so are each interface's functions.
    pub open spec fn wf(&self) -> bool {
        table_wf(table_view(self.interfaces@))
    }

    /// The names of the interfaces, in declaration order.
    pub fn interface_names(&self) -> (r: Vec<String>)
        ensures
            r@.map_values(|s: String| s@) == interface_names(table_view(self.interfaces@)),
    {
        let mut out: Vec<String> = Vec::new();
        let mut i: usize = 0;
        while i < self.interfaces.len()
            invariant
                i <= self.interfaces@.len(),
                out@.len() == i,
                forall|k: int| 0 <= k < i ==> #[trigger] out@[k]@ == self.interfaces@[k].0@,
            decreases self.interfaces@.len() - i,
        {
            out.push(self.interfaces[i].0.clone());
            i = i + 1;
        }
        assert(out@.map_values(|s: String| s@) =~= interface_names(table_view(self.interfaces@)));
        out
    }

    /// Reads an interface file's text; `label` names the file in messages.
    pub fn load(label: &str, text: &str) -> (r: Result<WitLoader, WitError>)
        ensures
            match r {
                Ok(l) => wit_interfaces_of(label@, text@) == Some(table_view(l.interfaces@)) && l.wf(),
                Err(e) => e == WitError::Invalid && wit_interfaces_of(label@, text@) is None,
            },
    {
        match parse_wit(label, text) {
            Some(t) => Ok(WitLoader { interfaces: t }),
            None => Err(WitError::Invalid),
        }
    }

    /// The functions that interface `interface_name` exports, by name, each
    /// once; when there is no such interface, the names of those there are.
    pub fn get_interface_exports(&self, interface_name: &str) -> (r: Result<Vec<String>, WitError>)
        requires
            self.wf(),
        ensures
            match r {
                Ok(v) => exports_of(table_view(self.interfaces@), interface_name@) == Some(v@.map_values(|s: String| s@))
                    && names_distinct(v@.map_values(|s: String| s@)),
                Err(WitError::NotFound(names)) => exports_of(table_view(self.interfaces@), interface_name@) is None
                    && names@.map_values(|s: String| s@) == interface_names(table_view(self.interfaces@)),
                Err(WitError::Invalid) => false,
            },
    {
        proof {
            assert forall|i: int| 0 <= i < self.interfaces@.len() implies names_distinct(#[trigger] table_view(self.interfaces@)[i].1) by {}
        }
        match find_interface(&self.interfaces, interface_name) {
            Some(i) => Ok(copy_names(&self.interfaces[i].1)),
            None => {
                let (head, rest) = split_once(interface_name, '/');
                proof {
                    lemma_cut_unique(interface_name@, '/', cut_index(interface_name@, '/'), head@.len() as int);
                }
                match rest {
                    Some(short) => match find_interface(&self.interfaces, short.as_str()) {
                        Some(i) => Ok(copy_names(&self.interfaces[i].1)),
                        None => Err(WitError::NotFound(self.interface_names())),
                    },
                    None => Err(WitError::NotFound(self.interface_names())),
                }
            },
        }
    }
}

} // verus!
