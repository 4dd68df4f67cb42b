//! Marshalling between typed values and JSON-shaped trees.
//!
//! Numbers become JSON numbers, booleans booleans, characters and strings
//! strings; lists and tuples arrays; records objects keyed by field name;
//! options `null` or the inner value; results `{"ok": ..}` or `{"err": ..}`;
//! variants `{"tag": name, "val": payload}`; enums strings; flags arrays of
//! strings. The same shapes are read back against a type.

use vstd::prelude::*;
use vstd::string::*;
use crate::value::{Json, Val, ValType};

verus! {

broadcast use vstd::std_specs::vec::group_vec_axioms;

/// `j` is a string with the characters `s`.
pub open spec fn is_str(j: Json, s: Seq<char>) -> bool {
    j is Str && j->Str_0@ == s
}

/// `e` is the object entry `key: value` where `value` satisfies nothing more.
pub open spec fn key_is(e: (String, Json), key: Seq<char>) -> bool {
    e.0@ == key
}

/// `j` is the JSON encoding of `v`.
pub open spec fn json_of(v: Val, j: Json) -> bool
    decreases v,
{
    match v {
        Val::Bool(b) => j == Json::Bool(b),
        Val::S8(n) => j == Json::Number(n as i128),
        Val::U8(n) => j == Json::Number(n as i128),
        Val::S16(n) => j == Json::Number(n as i128),
        Val::U16(n) => j == Json::Number(n as i128),
        Val::S32(n) => j == Json::Number(n as i128),
        Val::U32(n) => j == Json::Number(n as i128),
        Val::S64(n) => j == Json::Number(n as i128),
        Val::U64(n) => j == Json::Number(n as i128),
        Val::Char(c) => is_str(j, seq![c]),
        Val::Str(s) => is_str(j, s@),
        Val::Enum(s) => is_str(j, s@),
        Val::List(items) => j is Array && j->Array_0.len() == items.len() && forall|i: int|
            0 <= i < items.len() ==> json_of(items[i], #[trigger] j->Array_0[i]),
        Val::Tuple(items) => j is Array && j->Array_0.len() == items.len() && forall|i: int|
            0 <= i < items.len() ==> json_of(items[i], #[trigger] j->Array_0[i]),
        Val::Record(fields) => j is Object && j->Object_0.len() == fields.len() && forall|i: int|
            0 <= i < fields.len() ==> key_is(#[trigger] j->Object_0[i], fields[i].0@) && json_of(
                fields[i].1,
                j->Object_0[i].1,
            ),
        Val::Variant(name, payload) => j is Object && j->Object_0.len() >= 1 && key_is(j->Object_0[0], "tag"@)
            && is_str(j->Object_0[0].1, name@) && match payload {
            None => j->Object_0.len() == 1,
            Some(p) => j->Object_0.len() == 2 && key_is(j->Object_0[1], "val"@) && json_of(*p, j->Object_0[1].1),
        },
        Val::Option(o) => match o {
            None => j is Null,
            Some(p) => json_of(*p, j),
        },
        Val::ResultOk(o) => j is Object && j->Object_0.len() == 1 && key_is(j->Object_0[0], "ok"@) && match o {
            None => j->Object_0[0].1 is Null,
            Some(p) => json_of(*p, j->Object_0[0].1),
        },
        Val::ResultErr(o) => j is Object && j->Object_0.len() == 1 && key_is(j->Object_0[0], "err"@) && match o {
            None => j->Object_0[0].1 is Null,
            Some(p) => json_of(*p, j->Object_0[0].1),
        },
        Val::Flags(names) => j is Array && j->Array_0.len() == names.len() && forall|i: int|
            0 <= i < names.len() ==> is_str(#[trigger] j->Array_0[i], names[i]@),
    }
}

fn str_json(s: &String) -> (r: Json)
    ensures
        is_str(r, s@),
{
    Json::Str(s.clone())
}

fn entry(key: &str, value: Json) -> (r: (String, Json))
    ensures
        r.0@ == key@,
        r.1 == value,
{
    (String::from_str(key), value)
}

fn list_to_json(items: &Vec<Val>) -> (r: Vec<Json>)
    ensures
        r@.len() == items@.len(),
        forall|i: int| 0 <= i < items@.len() ==> json_of(items[i], #[trigger] r[i]),
    decreases items,
{
    let mut out: Vec<Json> = Vec::new();
    let mut i: usize = 0;
    while i < items.len()
        invariant
            i <= items@.len(),
            out@.len() == i,
            forall|k: int| 0 <= k < i ==> json_of(items[k], #[trigger] out[k]),
        decreases items@.len() - i,
    {
        assert(decreases_to!(*items => items[i as int]));
        out.push(to_json(&items[i]));
        i = i + 1;
    }
    out
}

fn payload_to_json(p: &Option<Box<Val>>) -> (r: Json)
    ensures
        match p {
            None => r is Null,
            Some(b) => json_of(**b, r),
        },
    decreases p,
{
    match p {
        None => Json::Null,
        Some(b) => {
            assert(decreases_to!(*p => (*p)->Some_0));
            to_json(b)
        },
    }
}

/// The JSON encoding of a value.
pub fn to_json(v: &Val) -> (r: Json)
    ensures
        json_of(*v, r),
    decreases v,
{
    match v {
        Val::Bool(b) => Json::Bool(*b),
        Val::S8(n) => Json::Number(*n as i128),
        Val::U8(n) => Json::Number(*n as i128),
        Val::S16(n) => Json::Number(*n as i128),
        Val::U16(n) => Json::Number(*n as i128),
        Val::S32(n) => Json::Number(*n as i128),
        Val::U32(n) => Json::Number(*n as i128),
        Val::S64(n) => Json::Number(*n as i128),
        Val::U64(n) => Json::Number(*n as i128),
        Val::Char(c) => {
            let v: Vec<char> = vec![*c];
            let s = crate::text::string_of(v.as_slice());
            assert(v@ =~= seq![*c]);
            Json::Str(s)
        },
        Val::Str(s) => str_json(s),
        Val::Enum(s) => str_json(s),
        Val::List(items) => {
            assert(decreases_to!(*v => (*v)->List_0));
            Json::Array(list_to_json(items))
        },
        Val::Tuple(items) => {
            assert(decreases_to!(*v => (*v)->Tuple_0));
            Json::Array(list_to_json(items))
        },
        Val::Record(fields) => {
            let mut out: Vec<(String, Json)> = Vec::new();
            let mut i: usize = 0;
            while i < fields.len()
                invariant
                    *v == Val::Record(*fields),
                    i <= fields@.len(),
                    out@.len() == i,
                    forall|k: int| 0 <= k < i ==> key_is(#[trigger] out[k], fields[k].0@) && json_of(fields[k].1, out[k].1),
                decreases fields@.len() - i,
            {
                assert(decreases_to!(*v => (*v)->Record_0));
                assert(decreases_to!(*fields => fields[i as int]));
                assert(decreases_to!(fields[i as int] => fields[i as int].1));
                let value = to_json(&fields[i].1);
                out.push((fields[i].0.clone(), value));
                i = i + 1;
            }
            Json::Object(out)
        },
        Val::Variant(name, payload) => {
            let mut out: Vec<(String, Json)> = Vec::new();
            out.push(entry("tag", str_json(name)));
            match payload {
                None => {},
                Some(b) => {
                    assert(decreases_to!(*v => (*v)->Variant_1));
                    assert(decreases_to!(*payload => (*payload)->Some_0));
                    out.push(entry("val", to_json(b)));
                },
            }
            Json::Object(out)
        },
        Val::Option(o) => {
            match o {
                None => Json::Null,
                Some(b) => {
                    assert(decreases_to!(*v => (*v)->Option_0));
                    assert(decreases_to!(*o => (*o)->Some_0));
                    to_json(b)
                },
            }
        },
        Val::ResultOk(o) => {
            assert(decreases_to!(*v => (*v)->ResultOk_0));
            let mut out: Vec<(String, Json)> = Vec::new();
            out.push(entry("ok", payload_to_json(o)));
            Json::Object(out)
        },
        Val::ResultErr(o) => {
            assert(decreases_to!(*v => (*v)->ResultErr_0));
            let mut out: Vec<(String, Json)> = Vec::new();
            out.push(entry("err", payload_to_json(o)));
            Json::Object(out)
        },
        Val::Flags(names) => {
            let mut out: Vec<Json> = Vec::new();
            let mut i: usize = 0;
            while i < names.len()
                invariant
                    i <= names@.len(),
                    out@.len() == i,
                    forall|k: int| 0 <= k < i ==> is_str(#[trigger] out[k], names[k]@),
                decreases names@.len() - i,
            {
                out.push(str_json(&names[i]));
                i = i + 1;
            }
            Json::Array(out)
        },
    }
}

} // verus!

verus! {

/// Entry `i` is the first entry of `o` under `key`.
pub open spec fn key_at(o: Vec<(String, Json)>, key: Seq<char>, i: int) -> bool {
    &&& 0 <= i < o.len()
    &&& o[i].0@ == key
    &&& forall|k: int| 0 <= k < i ==> o[k].0@ != key
}

/// The index of the first entry of `o` under `key`.
pub open spec fn find_key(o: Vec<(String, Json)>, key: Seq<char>) -> Option<int> {
    if exists|i: int| key_at(o, key, i) {
        Some(choose|i: int| key_at(o, key, i))
    } else {
        None
    }
}

/// The value of the first entry of the object `j` under `key`.
pub open spec fn member(j: Json, key: Seq<char>) -> Option<Json> {
    match find_key(j->Object_0, key) {
        Some(i) => Some(j->Object_0[i].1),
        None => None,
    }
}

/// Case `c` is the first case of a variant type called `name`.
pub open spec fn case_at(cases: Vec<(String, Option<Box<ValType>>)>, name: Seq<char>, c: int) -> bool {
    &&& 0 <= c < cases.len()
    &&& cases[c].0@ == name
    &&& forall|k: int| 0 <= k < c ==> cases[k].0@ != name
}

pub open spec fn find_case(cases: Vec<(String, Option<Box<ValType>>)>, name: Seq<char>) -> Option<int> {
    if exists|c: int| case_at(cases, name, c) {
        Some(choose|c: int| case_at(cases, name, c))
    } else {
        None
    }
}

/// `s` is one of `names`.
pub open spec fn one_of(names: Vec<String>, s: Seq<char>) -> bool {
    exists|k: int| 0 <= k < names.len() && #[trigger] names[k]@ == s
}

/// Whether `j` has a shape that reads back as a value of type `t`.
pub open spec fn decodable(j: Json, t: ValType) -> bool
    decreases t,
{
    match t {
        ValType::Bool => j is Bool,
        ValType::S8 => j is Number && -0x80 <= j->Number_0 <= 0x7f,
        ValType::U8 => j is Number && 0 <= j->Number_0 <= 0xff,
        ValType::S16 => j is Number && -0x8000 <= j->Number_0 <= 0x7fff,
        ValType::U16 => j is Number && 0 <= j->Number_0 <= 0xffff,
        ValType::S32 => j is Number && -0x8000_0000 <= j->Number_0 <= 0x7fff_ffff,
        ValType::U32 => j is Number && 0 <= j->Number_0 <= 0xffff_ffff,
        ValType::S64 => j is Number && -0x8000_0000_0000_0000 <= j->Number_0 <= 0x7fff_ffff_ffff_ffff,
        ValType::U64 => j is Number && 0 <= j->Number_0 <= 0xffff_ffff_ffff_ffff,
        ValType::Char => j is Str && j->Str_0@.len() == 1,
        ValType::Str => j is Str,
        ValType::Enum(names) => j is Str && one_of(names, j->Str_0@),
        ValType::Flags(names) => j is Array && forall|i: int|
            0 <= i < j->Array_0.len() ==> (#[trigger] j->Array_0[i]) is Str && one_of(names, j->Array_0[i]->Str_0@),
        ValType::List(et) => j is Array && forall|i: int|
            0 <= i < j->Array_0.len() ==> decodable(#[trigger] j->Array_0[i], *et),
        ValType::Tuple(ts) => j is Array && j->Array_0.len() == ts.len() && forall|i: int|
            0 <= i < ts.len() ==> decodable(#[trigger] j->Array_0[i], ts[i]),
        ValType::Record(fs) => j is Object && forall|k: int|
            0 <= k < fs.len() ==> (#[trigger] member(j, fs[k].0@)) is Some && decodable(member(j, fs[k].0@)->0, fs[k].1),
        ValType::Variant(cases) => j is Object && member(j, "tag"@) is Some && member(j, "tag"@)->0 is Str
            && find_case(cases, member(j, "tag"@)->0->Str_0@) is Some && match cases[find_case(
            cases,
            member(j, "tag"@)->0->Str_0@,
        )->0].1 {
            None => true,
            Some(pt) => member(j, "val"@) is Some && decodable(member(j, "val"@)->0, *pt),
        },
        ValType::Option(et) => j is Null || decodable(j, *et),
        ValType::Result(ok, err) => j is Object && if member(j, "ok"@) is Some {
            match ok {
                None => member(j, "ok"@)->0 is Null,
                Some(pt) => decodable(member(j, "ok"@)->0, *pt),
            }
        } else {
            member(j, "err"@) is Some && match err {
                None => member(j, "err"@)->0 is Null,
                Some(pt) => decodable(member(j, "err"@)->0, *pt),
            }
        },
    }
}

/// `w` is the value that `j` reads back as under type `t`.
pub open spec fn decoded(j: Json, t: ValType, w: Val) -> bool
    decreases t,
{
    match t {
        ValType::Bool => w is Bool && j == Json::Bool(w->Bool_0),
        ValType::S8 => w is S8 && j == Json::Number(w->S8_0 as i128),
        ValType::U8 => w is U8 && j == Json::Number(w->U8_0 as i128),
        ValType::S16 => w is S16 && j == Json::Number(w->S16_0 as i128),
        ValType::U16 => w is U16 && j == Json::Number(w->U16_0 as i128),
        ValType::S32 => w is S32 && j == Json::Number(w->S32_0 as i128),
        ValType::U32 => w is U32 && j == Json::Number(w->U32_0 as i128),
        ValType::S64 => w is S64 && j == Json::Number(w->S64_0 as i128),
        ValType::U64 => w is U64 && j == Json::Number(w->U64_0 as i128),
        ValType::Char => match w {
            Val::Char(c) => is_str(j, seq![c]),
            _ => false,
        },
        ValType::Str => w is Str && is_str(j, w->Str_0@),
        ValType::Enum(_) => w is Enum && is_str(j, w->Enum_0@),
        ValType::Flags(_) => w is Flags && j is Array && w->Flags_0.len() == j->Array_0.len() && forall|i: int|
            0 <= i < j->Array_0.len() ==> is_str(#[trigger] j->Array_0[i], w->Flags_0[i]@),
        ValType::List(et) => w is List && j is Array && w->List_0.len() == j->Array_0.len() && forall|i: int|
            0 <= i < j->Array_0.len() ==> decoded(#[trigger] j->Array_0[i], *et, w->List_0[i]),
        ValType::Tuple(ts) => w is Tuple && j is Array && w->Tuple_0.len() == ts.len() && j->Array_0.len() == ts.len()
            && forall|i: int| 0 <= i < ts.len() ==> decoded(#[trigger] j->Array_0[i], ts[i], w->Tuple_0[i]),
        ValType::Record(fs) => w is Record && j is Object && w->Record_0.len() == fs.len() && forall|k: int|
            0 <= k < fs.len() ==> (#[trigger] w->Record_0[k]).0@ == fs[k].0@ && member(j, fs[k].0@) is Some
                && decoded(member(j, fs[k].0@)->0, fs[k].1, w->Record_0[k].1),
        ValType::Variant(cases) => w is Variant && j is Object && member(j, "tag"@) is Some && is_str(
            member(j, "tag"@)->0,
            w->Variant_0@,
        ) && find_case(cases, w->Variant_0@) is Some && match cases[find_case(cases, w->Variant_0@)->0].1 {
            None => w->Variant_1 is None,
            Some(pt) => w->Variant_1 is Some && member(j, "val"@) is Some && decoded(
                member(j, "val"@)->0,
                *pt,
                *w->Variant_1->0,
            ),
        },
        ValType::Option(et) => w is Option && if j is Null {
            w->Option_0 is None
        } else {
            w->Option_0 is Some && decoded(j, *et, *w->Option_0->0)
        },
        ValType::Result(ok, err) => j is Object && if member(j, "ok"@) is Some {
            w is ResultOk && match ok {
                None => w->ResultOk_0 is None,
                Some(pt) => w->ResultOk_0 is Some && decoded(member(j, "ok"@)->0, *pt, *w->ResultOk_0->0),
            }
        } else {
            w is ResultErr && member(j, "err"@) is Some && match err {
                None => w->ResultErr_0 is None,
                Some(pt) => w->ResultErr_0 is Some && decoded(member(j, "err"@)->0, *pt, *w->ResultErr_0->0),
            }
        },
    }
}

/// Why a JSON value could not be read back as a typed value.
#[derive(Clone, Copy, Debug, PartialEq, Eq, Structural)]
pub enum MarshalError {
    /// The JSON shape does not fit the target type.
    TypeMismatch,
}

/// The first entry of `o` under `key`.
pub fn find_entry(o: &Vec<(String, Json)>, key: &str) -> (r: Option<usize>)
    ensures
        match r {
            Some(i) => key_at(*o, key@, i as int) && find_key(*o, key@) == Some(i as int),
            None => find_key(*o, key@) is None && forall|i: int| 0 <= i < o.len() ==> o[i].0@ != key@,
        },
{
    let k = String::from_str(key);
    let mut i: usize = 0;
    while i < o.len()
        invariant
            i <= o@.len(),
            k@ == key@,
            forall|q: int| 0 <= q < i ==> o[q].0@ != key@,
        decreases o@.len() - i,
    {
        if o[i].0.eq(&k) {
            proof {
                assert(key_at(*o, key@, i as int));
                let c = choose|c: int| key_at(*o, key@, c);
                assert(c == i as int) by {
                    if c < i {
                    } else if c > i {
                        assert(o[i as int].0@ != key@);
                    }
                }
            }
            return Some(i);
        }
        i = i + 1;
    }
    None
}

fn find_case_index(cases: &Vec<(String, Option<Box<ValType>>)>, name: &String) -> (r: Option<usize>)
    ensures
        match r {
            Some(c) => find_case(*cases, name@) == Some(c as int),
            None => find_case(*cases, name@) is None,
        },
{
    let mut i: usize = 0;
    while i < cases.len()
        invariant
            i <= cases@.len(),
            forall|q: int| 0 <= q < i ==> cases[q].0@ != name@,
        decreases cases@.len() - i,
    {
        if cases[i].0.eq(name) {
            proof {
                assert(case_at(*cases, name@, i as int));
                let c = choose|c: int| case_at(*cases, name@, c);
                assert(c == i as int) by {
                    if c > i {
                        assert(cases[i as int].0@ != name@);
                    }
                }
            }
            return Some(i);
        }
        i = i + 1;
    }
    None
}

fn is_one_of(names: &Vec<String>, s: &String) -> (r: bool)
    ensures
        r == one_of(*names, s@),
{
    let mut i: usize = 0;
    while i < names.len()
        invariant
            i <= names@.len(),
            forall|q: int| 0 <= q < i ==> names[q]@ != s@,
        decreases names@.len() - i,
    {
        if names[i].eq(s) {
            return true;
        }
        i = i + 1;
    }
    false
}

proof fn lemma_decoded_char(j: Json, c: char)
    requires
        is_str(j, seq![c]),
    ensures
        decoded(j, ValType::Char, Val::Char(c)),
{
}

fn number_in(j: &Json, lo: i128, hi: i128) -> (r: Option<i128>)
    ensures
        match r {
            Some(n) => j == Json::Number(n) && lo <= n <= hi,
            None => !(j is Number && lo <= j->Number_0 <= hi),
        },
{
    match j {
        Json::Number(n) => {
            if lo <= *n && *n <= hi {
                Some(*n)
            } else {
                None
            }
        },
        _ => None,
    }
}

fn payload_from_json(j: &Json, pt: &Option<Box<ValType>>) -> (r: Result<Option<Box<Val>>, MarshalError>)
    ensures
        match pt {
            None => (r is Ok <==> j is Null) && (r matches Ok(p) ==> p is None),
            Some(b) => (r is Ok <==> decodable(*j, **b)) && (r matches Ok(p) ==> p is Some && decoded(
                *j,
                **b,
                *p->0,
            )),
        },
    decreases pt,
{
    match pt {
        None => match j {
            Json::Null => Ok(None),
            _ => Err(MarshalError::TypeMismatch),
        },
        Some(b) => {
            assert(decreases_to!(*pt => (*pt)->Some_0));
            match from_json(j, b) {
                Ok(v) => Ok(Some(Box::new(v))),
                Err(e) => Err(e),
            }
        },
    }
}

/// Reads `j` back as a value of type `t`: `Ok` exactly when the shape of `j`
/// fits `t`, with the value that it encodes.
pub fn from_json(j: &Json, t: &ValType) -> (r: Result<Val, MarshalError>)
    ensures
        r is Ok <==> decodable(*j, *t),
        r matches Ok(w) ==> decoded(*j, *t, w),
    decreases t,
{
    match t {
        ValType::Bool => match j {
            Json::Bool(b) => Ok(Val::Bool(*b)),
            _ => Err(MarshalError::TypeMismatch),
        },
        ValType::S8 => match number_in(j, -0x80, 0x7f) {
            Some(n) => Ok(Val::S8(n as i8)),
            None => Err(MarshalError::TypeMismatch),
        },
        ValType::U8 => match number_in(j, 0, 0xff) {
            Some(n) => Ok(Val::U8(n as u8)),
            None => Err(MarshalError::TypeMismatch),
        },
        ValType::S16 => match number_in(j, -0x8000, 0x7fff) {
            Some(n) => Ok(Val::S16(n as i16)),
            None => Err(MarshalError::TypeMismatch),
        },
        ValType::U16 => match number_in(j, 0, 0xffff) {
            Some(n) => Ok(Val::U16(n as u16)),
            None => Err(MarshalError::TypeMismatch),
        },
        ValType::S32 => match number_in(j, -0x8000_0000, 0x7fff_ffff) {
            Some(n) => Ok(Val::S32(n as i32)),
            None => Err(MarshalError::TypeMismatch),
        },
        ValType::U32 => match number_in(j, 0, 0xffff_ffff) {
            Some(n) => Ok(Val::U32(n as u32)),
            None => Err(MarshalError::TypeMismatch),
        },
        ValType::S64 => match number_in(j, -0x8000_0000_0000_0000, 0x7fff_ffff_ffff_ffff) {
            Some(n) => Ok(Val::S64(n as i64)),
            None => Err(MarshalError::TypeMismatch),
        },
        ValType::U64 => match number_in(j, 0, 0xffff_ffff_ffff_ffff) {
            Some(n) => Ok(Val::U64(n as u64)),
            None => Err(MarshalError::TypeMismatch),
        },
        ValType::Char => match j {
            Json::Str(s) => {
                let cs = crate::text::chars_of(s.as_str());
                if cs.len() == 1 {
                    let c = cs[0];
                    proof {
                        assert(seq![c] =~= cs@);
                        lemma_decoded_char(*j, c);
                    }
                    Ok(Val::Char(c))
                } else {
                    Err(MarshalError::TypeMismatch)
                }
            },
            _ => Err(MarshalError::TypeMismatch),
        },
        ValType::Str => match j {
            Json::Str(s) => {
                let w = Val::Str(s.clone());
                assert(decoded(*j, *t, w));
                Ok(w)
            },
            _ => Err(MarshalError::TypeMismatch),
        },
        ValType::Enum(names) => match j {
            Json::Str(s) => {
                if is_one_of(names, s) {
                    let w = Val::Enum(s.clone());
                    assert(decoded(*j, *t, w));
                    Ok(w)
                } else {
                    Err(MarshalError::TypeMismatch)
                }
            },
            _ => Err(MarshalError::TypeMismatch),
        },
        ValType::Flags(names) => match j {
            Json::Array(items) => {
                let mut out: Vec<String> = Vec::new();
                let mut i: usize = 0;
                while i < items.len()
                    invariant
                        *j == Json::Array(*items),
                        *t == ValType::Flags(*names),
                        i <= items@.len(),
                        out@.len() == i,
                        forall|k: int| 0 <= k < i ==> is_str(#[trigger] items[k], out[k]@) && one_of(*names, out[k]@),
                    decreases items@.len() - i,
                {
                    match &items[i] {
                        Json::Str(s) => {
                            if !is_one_of(names, s) {
                                return Err(MarshalError::TypeMismatch);
                            }
                            out.push(s.clone());
                        },
                        _ => {
                            return Err(MarshalError::TypeMismatch);
                        },
                    }
                    i = i + 1;
                }
                let w = Val::Flags(out);
                assert(decoded(*j, *t, w));
                Ok(w)
            },
            _ => Err(MarshalError::TypeMismatch),
        },
        ValType::List(et) => match j {
            Json::Array(items) => {
                let mut out: Vec<Val> = Vec::new();
                let mut i: usize = 0;
                while i < items.len()
                    invariant
                        *j == Json::Array(*items),
                        *t == ValType::List(*et),
                        i <= items@.len(),
                        out@.len() == i,
                        forall|k: int| 0 <= k < i ==> decodable(#[trigger] items[k], **et) && decoded(items[k], **et, out[k]),
                    decreases items@.len() - i,
                {
                    assert(decreases_to!(*t => (*t)->List_0));
                    match from_json(&items[i], et) {
                        Ok(v) => out.push(v),
                        Err(e) => {
                            return Err(e);
                        },
                    }
                    i = i + 1;
                }
                let w = Val::List(out);
                assert(decoded(*j, *t, w));
                Ok(w)
            },
            _ => Err(MarshalError::TypeMismatch),
        },
        ValType::Tuple(ts) => match j {
            Json::Array(items) => {
                if items.len() != ts.len() {
                    return Err(MarshalError::TypeMismatch);
                }
                let mut out: Vec<Val> = Vec::new();
                let mut i: usize = 0;
                while i < ts.len()
                    invariant
                        *j == Json::Array(*items),
                        *t == ValType::Tuple(*ts),
                        items@.len() == ts@.len(),
                        i <= ts@.len(),
                        out@.len() == i,
                        forall|k: int| 0 <= k < i ==> decodable(#[trigger] items[k], ts[k]) && decoded(items[k], ts[k], out[k]),
                    decreases ts@.len() - i,
                {
                    assert(decreases_to!(*t => (*t)->Tuple_0));
                    assert(decreases_to!(*ts => ts[i as int]));
                    match from_json(&items[i], &ts[i]) {
                        Ok(v) => out.push(v),
                        Err(e) => {
                            return Err(e);
                        },
                    }
                    i = i + 1;
                }
                let w = Val::Tuple(out);
                assert(decoded(*j, *t, w));
                Ok(w)
            },
            _ => Err(MarshalError::TypeMismatch),
        },
        ValType::Record(fs) => match j {
            Json::Object(entries) => {
                let mut out: Vec<(String, Val)> = Vec::new();
                let mut k: usize = 0;
                while k < fs.len()
                    invariant
                        *j == Json::Object(*entries),
                        *t == ValType::Record(*fs),
                        k <= fs@.len(),
                        out@.len() == k,
                        forall|q: int| 0 <= q < k ==> (#[trigger] member(*j, fs[q].0@)) is Some && decodable(member(*j, fs[q].0@)->0, fs[q].1)
                            && out[q].0@ == fs[q].0@ && decoded(member(*j, fs[q].0@)->0, fs[q].1, out[q].1),
                    decreases fs@.len() - k,
                {
                    assert(decreases_to!(*t => (*t)->Record_0));
                    assert(decreases_to!(*fs => fs[k as int]));
                    assert(decreases_to!(fs[k as int] => fs[k as int].1));
                    match find_entry(entries, fs[k].0.as_str()) {
                        Some(e) => {
                            assert(member(*j, fs[k as int].0@) == Some(entries[e as int].1));
                            match from_json(&entries[e].1, &fs[k].1) {
                                Ok(v) => out.push((fs[k].0.clone(), v)),
                                Err(err) => {
                                    assert(!(member(*j, fs[k as int].0@) is Some && decodable(member(*j, fs[k as int].0@)->0, fs[k as int].1)));
                                    return Err(err);
                                },
                            }
                        },
                        None => {
                            assert(member(*j, fs[k as int].0@) is None);
                            return Err(MarshalError::TypeMismatch);
                        },
                    }
                    k = k + 1;
                }
                let w = Val::Record(out);
                assert(decodable(*j, *t));
                assert(decoded(*j, *t, w));
                Ok(w)
            },
            _ => Err(MarshalError::TypeMismatch),
        },
        ValType::Variant(cases) => match j {
            Json::Object(entries) => {
                let tag = match find_entry(entries, "tag") {
                    Some(e) => match &entries[e].1 {
                        Json::Str(s) => s,
                        _ => {
                            return Err(MarshalError::TypeMismatch);
                        },
                    },
                    None => {
                        return Err(MarshalError::TypeMismatch);
                    },
                };
                let c = match find_case_index(cases, tag) {
                    Some(c) => c,
                    None => {
                        return Err(MarshalError::TypeMismatch);
                    },
                };
                match &cases[c].1 {
                    None => {
                        let w = Val::Variant(tag.clone(), None);
                        assert(decoded(*j, *t, w));
                        Ok(w)
                    },
                    Some(pt) => {
                        assert(decreases_to!(*t => (*t)->Variant_0));
                        assert(decreases_to!(*cases => cases[c as int]));
                        assert(decreases_to!(cases[c as int] => cases[c as int].1));
                        assert(decreases_to!(cases[c as int].1 => cases[c as int].1->Some_0));
                        match find_entry(entries, "val") {
                            Some(e) => match from_json(&entries[e].1, pt) {
                                Ok(v) => {
                                    let w = Val::Variant(tag.clone(), Some(Box::new(v)));
                                    assert(decoded(*j, *t, w));
                                    Ok(w)
                                },
                                Err(err) => Err(err),
                            },
                            None => Err(MarshalError::TypeMismatch),
                        }
                    },
                }
            },
            _ => Err(MarshalError::TypeMismatch),
        },
        ValType::Option(et) => match j {
            Json::Null => Ok(Val::Option(None)),
            _ => {
                assert(decreases_to!(*t => (*t)->Option_0));
                match from_json(j, et) {
                    Ok(v) => {
                        let w = Val::Option(Some(Box::new(v)));
                        assert(decoded(*j, *t, w));
                        Ok(w)
                    },
                    Err(e) => Err(e),
                }
            },
        },
        ValType::Result(ok, err) => match j {
            Json::Object(entries) => {
                match find_entry(entries, "ok") {
                    Some(e) => {
                        assert(decreases_to!(*t => (*t)->Result_0));
                        match payload_from_json(&entries[e].1, ok) {
                            Ok(p) => {
                                let w = Val::ResultOk(p);
                                assert(decoded(*j, *t, w));
                                Ok(w)
                            },
                            Err(x) => Err(x),
                        }
                    },
                    None => match find_entry(entries, "err") {
                        Some(e) => {
                            assert(decreases_to!(*t => (*t)->Result_1));
                            match payload_from_json(&entries[e].1, err) {
                                Ok(p) => {
                                    let w = Val::ResultErr(p);
                                    assert(decoded(*j, *t, w));
                                    Ok(w)
                                },
                                Err(x) => Err(x),
                            }
                        },
                        None => Err(MarshalError::TypeMismatch),
                    },
                }
            },
            _ => Err(MarshalError::TypeMismatch),
        },
    }
}

} // verus!
verus! {

/// The field names of a record type are distinct.
pub open spec fn fields_distinct(fs: Vec<(String, ValType)>) -> bool {
    forall|a: int, b: int| 0 <= a < fs.len() && 0 <= b < fs.len() && a != b ==> fs[a].0@ != fs[b].0@
}

/// The case names of a variant type are distinct.
pub open spec fn cases_distinct(cases: Vec<(String, Option<Box<ValType>>)>) -> bool {
    forall|a: int, b: int| 0 <= a < cases.len() && 0 <= b < cases.len() && a != b ==> cases[a].0@ != cases[b].0@
}

/// `v` is a value of type `t`.
pub open spec fn has_type(v: Val, t: ValType) -> bool
    decreases t,
{
    match t {
        ValType::Bool => v is Bool,
        ValType::S8 => v is S8,
        ValType::U8 => v is U8,
        ValType::S16 => v is S16,
        ValType::U16 => v is U16,
        ValType::S32 => v is S32,
        ValType::U32 => v is U32,
        ValType::S64 => v is S64,
        ValType::U64 => v is U64,
        ValType::Char => v is Char,
        ValType::Str => v is Str,
        ValType::Enum(names) => v is Enum && one_of(names, v->Enum_0@),
        ValType::Flags(names) => v is Flags && forall|i: int|
            0 <= i < v->Flags_0.len() ==> one_of(names, (#[trigger] v->Flags_0[i])@),
        ValType::List(et) => v is List && forall|i: int|
            0 <= i < v->List_0.len() ==> has_type(#[trigger] v->List_0[i], *et),
        ValType::Tuple(ts) => v is Tuple && v->Tuple_0.len() == ts.len() && forall|i: int|
            0 <= i < ts.len() ==> has_type(#[trigger] v->Tuple_0[i], ts[i]),
        ValType::Record(fs) => v is Record && fields_distinct(fs) && v->Record_0.len() == fs.len() && forall|i: int|
            0 <= i < fs.len() ==> (#[trigger] v->Record_0[i]).0@ == fs[i].0@ && has_type(v->Record_0[i].1, fs[i].1),
        ValType::Variant(cases) => v is Variant && cases_distinct(cases) && find_case(cases, v->Variant_0@) is Some
            && match cases[find_case(cases, v->Variant_0@)->0].1 {
            None => v->Variant_1 is None,
            Some(pt) => v->Variant_1 is Some && has_type(*v->Variant_1->0, *pt),
        },
        ValType::Option(et) => v is Option && match v->Option_0 {
            None => true,
            Some(p) => has_type(*p, *et),
        },
        ValType::Result(ok, err) => match v {
            Val::ResultOk(p) => match ok {
                None => p is None,
                Some(pt) => p is Some && has_type(*p->0, *pt),
            },
            Val::ResultErr(p) => match err {
                None => p is None,
                Some(pt) => p is Some && has_type(*p->0, *pt),
            },
            _ => false,
        },
    }
}

/// No option type directly holds another option type. (`null` cannot tell
/// `none` from `some(none)`.)
pub open spec fn no_nested_option(t: ValType) -> bool
    decreases t,
{
    match t {
        ValType::Option(et) => !(*et is Option) && no_nested_option(*et),
        ValType::List(et) => no_nested_option(*et),
        ValType::Tuple(ts) => forall|i: int| 0 <= i < ts.len() ==> no_nested_option(#[trigger] ts[i]),
        ValType::Record(fs) => forall|i: int| 0 <= i < fs.len() ==> no_nested_option((#[trigger] fs[i]).1),
        ValType::Variant(cases) => forall|i: int|
            0 <= i < cases.len() ==> match (#[trigger] cases[i]).1 {
                None => true,
                Some(pt) => no_nested_option(*pt),
            },
        ValType::Result(ok, err) => (match ok {
            None => true,
            Some(pt) => no_nested_option(*pt),
        }) && (match err {
            None => true,
            Some(pt) => no_nested_option(*pt),
        }),
        _ => true,
    }
}

/// Structural equality: strings by their characters, sequences element-wise.
pub open spec fn same_val(a: Val, b: Val) -> bool
    decreases a,
{
    match a {
        Val::Str(s) => b is Str && b->Str_0@ == s@,
        Val::Enum(s) => b is Enum && b->Enum_0@ == s@,
        Val::Flags(fs) => b is Flags && b->Flags_0.len() == fs.len() && forall|i: int|
            0 <= i < fs.len() ==> (#[trigger] b->Flags_0[i])@ == fs[i]@,
        Val::List(items) => b is List && b->List_0.len() == items.len() && forall|i: int|
            0 <= i < items.len() ==> same_val(items[i], #[trigger] b->List_0[i]),
        Val::Tuple(items) => b is Tuple && b->Tuple_0.len() == items.len() && forall|i: int|
            0 <= i < items.len() ==> same_val(items[i], #[trigger] b->Tuple_0[i]),
        Val::Record(fs) => b is Record && b->Record_0.len() == fs.len() && forall|i: int|
            0 <= i < fs.len() ==> (#[trigger] b->Record_0[i]).0@ == fs[i].0@ && same_val(fs[i].1, b->Record_0[i].1),
        Val::Variant(name, p) => b is Variant && b->Variant_0@ == name@ && match p {
            None => b->Variant_1 is None,
            Some(x) => b->Variant_1 is Some && same_val(*x, *b->Variant_1->0),
        },
        Val::Option(p) => b is Option && match p {
            None => b->Option_0 is None,
            Some(x) => b->Option_0 is Some && same_val(*x, *b->Option_0->0),
        },
        Val::ResultOk(p) => b is ResultOk && match p {
            None => b->ResultOk_0 is None,
            Some(x) => b->ResultOk_0 is Some && same_val(*x, *b->ResultOk_0->0),
        },
        Val::ResultErr(p) => b is ResultErr && match p {
            None => b->ResultErr_0 is None,
            Some(x) => b->ResultErr_0 is Some && same_val(*x, *b->ResultErr_0->0),
        },
        _ => a == b,
    }
}

pub proof fn lemma_key_first_pub(o: Vec<(String, Json)>, key: Seq<char>, k: int)
    requires
        key_at(o, key, k),
    ensures
        find_key(o, key) == Some(k),
{
    lemma_key_first(o, key, k);
}

proof fn lemma_key_first(o: Vec<(String, Json)>, key: Seq<char>, k: int)
    requires
        key_at(o, key, k),
    ensures
        find_key(o, key) == Some(k),
{
    let c = choose|c: int| key_at(o, key, c);
    if c < k {
        assert(o[c].0@ != key);
    } else if c > k {
        assert(o[k].0@ != key);
    }
}

proof fn lemma_not_option_not_null(v: Val, j: Json)
    requires
        json_of(v, j),
        !(v is Option),
    ensures
        !(j is Null),
{
}

proof fn lemma_typed_not_option(v: Val, t: ValType)
    requires
        has_type(v, t),
        !(t is Option),
    ensures
        !(v is Option),
{
}

proof fn lemma_member_record(v: Val, t: ValType, j: Json, k: int)
    requires
        t is Record,
        has_type(v, t),
        json_of(v, j),
        0 <= k < t->Record_0.len(),
    ensures
        member(j, t->Record_0[k].0@) == Some(j->Object_0[k].1),
{
    let fs = t->Record_0;
    let o = j->Object_0;
    assert forall|q: int| 0 <= q < k implies o[q].0@ != fs[k].0@ by {
        assert(key_is(o[q], v->Record_0[q].0@));
        assert(v->Record_0[q].0@ == fs[q].0@);
    }
    assert(key_is(o[k], v->Record_0[k].0@));
    lemma_key_first(o, fs[k].0@, k);
}

proof fn lemma_literal_keys()
    ensures
        "tag"@ != "val"@,
        "ok"@ != "err"@,
{
    reveal_strlit("tag");
    reveal_strlit("val");
    reveal_strlit("ok");
    reveal_strlit("err");
    assert("tag"@[0] != "val"@[0]);
    assert("ok"@.len() != "err"@.len());
}

proof fn lemma_round_trip_decodable(v: Val, t: ValType, j: Json)
    requires
        has_type(v, t),
        no_nested_option(t),
        json_of(v, j),
    ensures
        decodable(j, t),
    decreases t,
{
    lemma_literal_keys();
    match t {
        ValType::Flags(names) => {
            assert forall|i: int| 0 <= i < j->Array_0.len() implies (#[trigger] j->Array_0[i]) is Str && one_of(names, j->Array_0[i]->Str_0@) by {
                assert(one_of(names, v->Flags_0[i]@));
            }
        },
        ValType::List(et) => {
            assert forall|i: int| 0 <= i < j->Array_0.len() implies decodable(#[trigger] j->Array_0[i], *et) by {
                lemma_round_trip_decodable(v->List_0[i], *et, j->Array_0[i]);
            }
        },
        ValType::Tuple(ts) => {
            assert forall|i: int| 0 <= i < ts.len() implies decodable(#[trigger] j->Array_0[i], ts[i]) by {
                lemma_round_trip_decodable(v->Tuple_0[i], ts[i], j->Array_0[i]);
            }
        },
        ValType::Record(fs) => {
            assert forall|k: int| 0 <= k < fs.len() implies (#[trigger] member(j, fs[k].0@)) is Some && decodable(member(j, fs[k].0@)->0, fs[k].1) by {
                lemma_member_record(v, t, j, k);
                lemma_round_trip_decodable(v->Record_0[k].1, fs[k].1, j->Object_0[k].1);
            }
        },
        ValType::Variant(cases) => {
            let o = j->Object_0;
            lemma_key_first(o, "tag"@, 0);
            let c = find_case(cases, v->Variant_0@)->0;
            match cases[c].1 {
                None => {},
                Some(pt) => {
                    lemma_key_first(o, "val"@, 1);
                    lemma_round_trip_decodable(*v->Variant_1->0, *pt, o[1].1);
                },
            }
        },
        ValType::Option(et) => {
            match v->Option_0 {
                None => {},
                Some(p) => {
                    lemma_round_trip_decodable(*p, *et, j);
                },
            }
        },
        ValType::Result(ok, err) => {
            let o = j->Object_0;
            match v {
                Val::ResultOk(p) => {
                    lemma_key_first(o, "ok"@, 0);
                    match ok {
                        None => {},
                        Some(pt) => {
                            lemma_round_trip_decodable(*p->0, *pt, o[0].1);
                        },
                    }
                },
                Val::ResultErr(p) => {
                    assert(find_key(o, "ok"@) is None) by {
                        if exists|i: int| key_at(o, "ok"@, i) {
                            let i = choose|i: int| key_at(o, "ok"@, i);
                        }
                    }
                    lemma_key_first(o, "err"@, 0);
                    match err {
                        None => {},
                        Some(pt) => {
                            lemma_round_trip_decodable(*p->0, *pt, o[0].1);
                        },
                    }
                },
                _ => {},
            }
        },
        _ => {},
    }
}

proof fn lemma_round_trip_same(v: Val, t: ValType, j: Json, w: Val)
    requires
        has_type(v, t),
        no_nested_option(t),
        json_of(v, j),
        decoded(j, t, w),
    ensures
        same_val(v, w),
    decreases t,
{
    lemma_literal_keys();
    match t {
        ValType::Char => {
            assert(seq![v->Char_0][0] == seq![w->Char_0][0]);
        },
        ValType::Flags(names) => {
            assert forall|i: int| 0 <= i < v->Flags_0.len() implies (#[trigger] w->Flags_0[i])@ == v->Flags_0[i]@ by {
                assert(is_str(j->Array_0[i], w->Flags_0[i]@));
            }
        },
        ValType::List(et) => {
            assert forall|i: int| 0 <= i < v->List_0.len() implies same_val(v->List_0[i], #[trigger] w->List_0[i]) by {
                lemma_round_trip_same(v->List_0[i], *et, j->Array_0[i], w->List_0[i]);
            }
        },
        ValType::Tuple(ts) => {
            assert forall|i: int| 0 <= i < v->Tuple_0.len() implies same_val(v->Tuple_0[i], #[trigger] w->Tuple_0[i]) by {
                lemma_round_trip_same(v->Tuple_0[i], ts[i], j->Array_0[i], w->Tuple_0[i]);
            }
        },
        ValType::Record(fs) => {
            assert forall|k: int| 0 <= k < fs.len() implies (#[trigger] w->Record_0[k]).0@ == v->Record_0[k].0@ && same_val(v->Record_0[k].1, w->Record_0[k].1) by {
                lemma_member_record(v, t, j, k);
                lemma_round_trip_same(v->Record_0[k].1, fs[k].1, j->Object_0[k].1, w->Record_0[k].1);
            }
        },
        ValType::Variant(cases) => {
            let o = j->Object_0;
            lemma_key_first(o, "tag"@, 0);
            let c = find_case(cases, v->Variant_0@)->0;
            match cases[c].1 {
                None => {},
                Some(pt) => {
                    lemma_key_first(o, "val"@, 1);
                    lemma_round_trip_same(*v->Variant_1->0, *pt, o[1].1, *w->Variant_1->0);
                },
            }
        },
        ValType::Option(et) => {
            match v->Option_0 {
                None => {},
                Some(p) => {
                    lemma_typed_not_option(*p, *et);
                    lemma_not_option_not_null(*p, j);
                    lemma_round_trip_same(*p, *et, j, *w->Option_0->0);
                },
            }
        },
        ValType::Result(ok, err) => {
            let o = j->Object_0;
            match v {
                Val::ResultOk(p) => {
                    lemma_key_first(o, "ok"@, 0);
                    match ok {
                        None => {},
                        Some(pt) => {
                            lemma_round_trip_same(*p->0, *pt, o[0].1, *w->ResultOk_0->0);
                        },
                    }
                },
                Val::ResultErr(p) => {
                    assert(find_key(o, "ok"@) is None) by {
                        if exists|i: int| key_at(o, "ok"@, i) {
                            let i = choose|i: int| key_at(o, "ok"@, i);
                        }
                    }
                    lemma_key_first(o, "err"@, 0);
                    match err {
                        None => {},
                        Some(pt) => {
                            lemma_round_trip_same(*p->0, *pt, o[0].1, *w->ResultErr_0->0);
                        },
                    }
                },
                _ => {},
            }
        },
        _ => {},
    }
}

/// Round trip: the JSON encoding of a value of type `t` reads back under `t`,
/// as a value structurally equal to the original. Types in which an option
/// directly holds an option are left out: `null` cannot tell `none` from
/// `some(none)`.
pub proof fn lemma_json_round_trip(v: Val, t: ValType, j: Json, w: Val)
    requires
        has_type(v, t),
        no_nested_option(t),
        json_of(v, j),
    ensures
        decodable(j, t),
        decoded(j, t, w) ==> same_val(v, w),
{
    lemma_round_trip_decodable(v, t, j);
    if decoded(j, t, w) {
        lemma_round_trip_same(v, t, j, w);
    }
}

} // verus!
