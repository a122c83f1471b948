//! The registry of native functions.
use vstd::prelude::*;
use crate::ir::ast::{ty_eq, Type};
use crate::text::chars_of;

verus! {

/// Which native function an entry runs.
#[derive(Debug, PartialEq, Eq, Structural, Clone, Copy)]
pub enum NativeFn {
    Print,
    ReadInt,
    ReadFloat,
    ReadString,
    Pow,
    Sqrt,
    Substr,
    ToUpper,
    ToLower,
    StrToInt,
    StrToFloat,
}

/// A registry entry: the MiniC signature and the function that implements it.
#[derive(Debug)]
pub struct NativeEntry {
    pub params: Vec<Type>,
    pub return_type: Type,
    pub func: NativeFn,
}

/// Maps names to native entries. A name occurs at most once.
pub struct NativeRegistry {
    entries: Vec<(String, NativeEntry)>,
}

impl NativeRegistry {
    /// The names in the registry, in registration order.
    pub open spec fn names(&self) -> Seq<Seq<char>> {
        self.entries().map_values(|e: (String, NativeEntry)| e.0@)
    }

    /// The entries, in registration order.
    pub closed spec fn entries(&self) -> Seq<(String, NativeEntry)> {
        self.entries@
    }

    /// No name occurs twice.
    pub closed spec fn wf(&self) -> bool {
        forall|i: int, j: int| 0 <= i < j < self.entries@.len() ==> self.entries@[i].0@ != self.entries@[j].0@
    }

    /// An empty registry.
    pub fn new() -> (r: Self)
        ensures
            r.wf(),
            r.entries().len() == 0,
    {
        NativeRegistry { entries: Vec::new() }
    }

    /// Registers `entry` under `name`, replacing an entry of the same name.
    pub fn register(&mut self, name: &str, entry: NativeEntry)
        requires
            old(self).wf(),
        ensures
            final(self).wf(),
            registered(old(self).entries(), final(self).entries(), name@, entry),
    {
        let key = String::from_str(name);
        let mut i: usize = 0;
        while i < self.entries.len()
            invariant
                i <= self.entries.len(),
                key@ == name@,
                self.wf(),
                self.entries@ == old(self).entries@,
                forall|k: int| 0 <= k < i ==> self.entries@[k].0@ != name@,
            decreases self.entries.len() - i,
        {
            if self.entries[i].0.eq(&key) {
                let ghost old_entries = self.entries@;
                let k2 = self.entries[i].0.clone();
                self.entries.set(i, (k2, entry));
                proof {
                    assert forall|a: int, b: int| 0 <= a < b < self.entries@.len() implies self.entries@[a].0@ != self.entries@[b].0@ by {
                        assert(old_entries[a].0@ != old_entries[b].0@);
                    }
                    assert(exists|j: int| 0 <= j < old(self).entries@.len() && old(self).entries@[j].0@ == name@) by {
                        assert(old(self).entries@[i as int].0@ == name@);
                    }
                    assert forall|j: int| 0 <= j < self.entries@.len() && (self.entries@[j].0@ != name@) implies
                        exists|k: int| 0 <= k < old(self).entries@.len() && old(self).entries@[k] == #[trigger] self.entries@[j] by {
                        assert(old(self).entries@[j] == self.entries@[j]);
                    }
                    assert(self.entries@[i as int].0@ == name@);
                }
                return;
            }
            i = i + 1;
        }
        self.entries.push((key, entry));
        proof {
            let n = self.entries@.len();
            assert forall|a: int, b: int| 0 <= a < b < n implies self.entries@[a].0@ != self.entries@[b].0@ by {
                if b == n - 1 {
                    assert(self.entries@[a] == old(self).entries@[a]);
                } else {
                    assert(old(self).entries@[a].0@ != old(self).entries@[b].0@);
                }
            }
            assert forall|j: int| 0 <= j < self.entries@.len() && (self.entries@[j].0@ != name@) implies
                exists|k: int| 0 <= k < old(self).entries@.len() && old(self).entries@[k] == #[trigger] self.entries@[j] by {
                assert(j < old(self).entries@.len());
                assert(old(self).entries@[j] == self.entries@[j]);
            }
            assert(self.entries@[n - 1].0@ == name@);
        }
    }

    /// The entry registered under `name`, if any.
    pub fn lookup(&self, name: &str) -> (r: Option<&NativeEntry>)
        ensures
            r matches Some(e) ==> exists|i: int| 0 <= i < self.entries().len() && self.entries()[i].0@ == name@ && self.entries()[i].1 == *e,
            r is None ==> forall|i: int| 0 <= i < self.entries().len() ==> self.entries()[i].0@ != name@,
    {
        let key = String::from_str(name);
        let mut i: usize = 0;
        while i < self.entries.len()
            invariant
                i <= self.entries.len(),
                key@ == name@,
                forall|k: int| 0 <= k < i ==> self.entries@[k].0@ != name@,
            decreases self.entries.len() - i,
        {
            if self.entries[i].0.eq(&key) {
                assert(self.entries()[i as int].0@ == name@ && self.entries()[i as int].1 == self.entries@[i as int].1);
                return Some(&self.entries[i].1);
            }
            i = i + 1;
        }
        None
    }

    /// All entries, in registration order.
    pub fn iter(&self) -> (r: &Vec<(String, NativeEntry)>)
        ensures
            r@ == self.entries(),
    {
        &self.entries
    }

    /// The registry of the standard library, with the functions listed in
    /// the module documentation.
    pub fn default() -> (r: Self)
        ensures
            r.wf(),
            r.entries().len() == 11,
            forall|k: int| 0 <= k < 11 ==> native_entry_spec(k, #[trigger] r.entries()[k]),
            r.names() == standard_names(),
    {
        let mut entries: Vec<(String, NativeEntry)> = Vec::new();
        entries.push((String::from_str("print"), NativeEntry { params: vec![Type::Any], return_type: Type::Unit, func: NativeFn::Print }));
        entries.push((String::from_str("readInt"), NativeEntry { params: Vec::new(), return_type: Type::Int, func: NativeFn::ReadInt }));
        entries.push((String::from_str("readFloat"), NativeEntry { params: Vec::new(), return_type: Type::Float, func: NativeFn::ReadFloat }));
        entries.push((String::from_str("readString"), NativeEntry { params: Vec::new(), return_type: Type::Str, func: NativeFn::ReadString }));
        entries.push((String::from_str("pow"), NativeEntry { params: vec![Type::Float, Type::Float], return_type: Type::Float, func: NativeFn::Pow }));
        entries.push((String::from_str("sqrt"), NativeEntry { params: vec![Type::Float], return_type: Type::Float, func: NativeFn::Sqrt }));
        entries.push((String::from_str("substr"), NativeEntry { params: vec![Type::Str, Type::Int, Type::Int], return_type: Type::Str, func: NativeFn::Substr }));
        entries.push((String::from_str("toUpper"), NativeEntry { params: vec![Type::Str], return_type: Type::Str, func: NativeFn::ToUpper }));
        entries.push((String::from_str("toLower"), NativeEntry { params: vec![Type::Str], return_type: Type::Str, func: NativeFn::ToLower }));
        entries.push((String::from_str("strToInt"), NativeEntry { params: vec![Type::Str], return_type: Type::Int, func: NativeFn::StrToInt }));
        entries.push((String::from_str("strToFloat"), NativeEntry { params: vec![Type::Str], return_type: Type::Float, func: NativeFn::StrToFloat }));
        proof {
            reveal_strlit("print");
            reveal_strlit("readInt");
            reveal_strlit("readFloat");
            reveal_strlit("readString");
            reveal_strlit("pow");
            reveal_strlit("sqrt");
            reveal_strlit("substr");
            reveal_strlit("toUpper");
            reveal_strlit("toLower");
            reveal_strlit("strToInt");
            reveal_strlit("strToFloat");
        }
        let r = NativeRegistry { entries };
        proof {
            assert forall|a: int, b: int| 0 <= a < b < r.entries@.len() implies r.entries@[a].0@ != r.entries@[b].0@ by {
                let x = r.entries@[a].0@;
                let y = r.entries@[b].0@;
                assert(x.len() != y.len() || x[0] != y[0] || x[2] != y[2]);
            }
            assert(r.names() =~= standard_names());
        }
        r
    }
}

/// What `register(name, entry)` does to the entries: an entry of that name
/// is replaced in place, otherwise one is added at the end; other entries
/// stay.
pub open spec fn registered(before: Seq<(String, NativeEntry)>, after: Seq<(String, NativeEntry)>, name: Seq<char>, entry: NativeEntry) -> bool {
    &&& (exists|i: int| 0 <= i < before.len() && before[i].0@ == name) ==> after.len() == before.len()
        && forall|i: int| 0 <= i < before.len() ==> (#[trigger] after[i]) == (if before[i].0@ == name {
            (after[i].0, entry)
        } else {
            before[i]
        })
    &&& !(exists|i: int| 0 <= i < before.len() && before[i].0@ == name) ==> after == before.push((after.last().0, entry))
    &&& forall|i: int| 0 <= i < after.len() && (after[i].0@ != name) ==> exists|j: int| 0 <= j < before.len() && before[j] == #[trigger] after[i]
    &&& exists|i: int| 0 <= i < after.len() && after[i].0@ == name
}

/// A read gives back the write: after `register(name, entry)` the registry
/// holds `entry` under `name` (once), and every other entry it holds was
/// there before.
pub proof fn lemma_register_then_lookup(before: NativeRegistry, after: NativeRegistry, name: Seq<char>, entry: NativeEntry)
    requires
        before.wf(),
        after.wf(),
        registered(before.entries(), after.entries(), name, entry),
    ensures
        exists|i: int| 0 <= i < after.entries().len() && after.entries()[i].0@ == name,
        forall|i: int| 0 <= i < after.entries().len() && after.entries()[i].0@ == name ==> (#[trigger] after.entries()[i]).1 == entry,
        forall|i: int| 0 <= i < after.entries().len() && after.entries()[i].0@ != name ==> exists|j: int|
            0 <= j < before.entries().len() && before.entries()[j] == #[trigger] after.entries()[i],
{
    let b = before.entries();
    let a = after.entries();
    assert forall|i: int| 0 <= i < a.len() && a[i].0@ == name implies (#[trigger] a[i]).1 == entry by {
        if exists|k: int| 0 <= k < b.len() && b[k].0@ == name {
            if i < b.len() {
                if b[i].0@ != name {
                    assert(a[i] == b[i]);
                }
            }
        } else {
            if i < b.len() {
                assert(a[i] == b.push((a.last().0, entry))[i]);
                assert(a[i] == b[i]);
            } else {
                assert(a[i] == b.push((a.last().0, entry))[i]);
            }
        }
    }
}

/// A well-formed registry holds each name at most once.
pub proof fn lemma_names_distinct(r: NativeRegistry)
    requires
        r.wf(),
    ensures
        forall|i: int, j: int| 0 <= i < j < r.entries().len() ==> r.entries()[i].0@ != r.entries()[j].0@,
{
}

/// Registering under one name leaves every other name as it was: `other`
/// is held with entry `e` after `register(name, entry)` exactly when it was
/// held with `e` before.
pub proof fn lemma_register_keeps_others(
    before: NativeRegistry,
    after: NativeRegistry,
    name: Seq<char>,
    entry: NativeEntry,
    other: Seq<char>,
    e: NativeEntry,
)
    requires
        before.wf(),
        after.wf(),
        registered(before.entries(), after.entries(), name, entry),
        other != name,
    ensures
        (exists|i: int| 0 <= i < after.entries().len() && after.entries()[i].0@ == other && after.entries()[i].1 == e)
            <==> (exists|j: int| 0 <= j < before.entries().len() && before.entries()[j].0@ == other && before.entries()[j].1 == e),
{
    let b = before.entries();
    let a = after.entries();
    if exists|i: int| 0 <= i < a.len() && a[i].0@ == other && a[i].1 == e {
        let i = choose|i: int| 0 <= i < a.len() && a[i].0@ == other && a[i].1 == e;
        let j = choose|j: int| 0 <= j < b.len() && b[j] == #[trigger] a[i];
        assert(0 <= j < b.len() && b[j].0@ == other && b[j].1 == e);
    }
    if exists|j: int| 0 <= j < b.len() && b[j].0@ == other && b[j].1 == e {
        let j = choose|j: int| 0 <= j < b.len() && b[j].0@ == other && b[j].1 == e;
        if exists|k: int| 0 <= k < b.len() && b[k].0@ == name {
            assert(a[j] == b[j]);
        } else {
            assert(a[j] == b.push((a.last().0, entry))[j]);
        }
        assert(0 <= j < a.len() && a[j].0@ == other && a[j].1 == e);
    }
}

/// The names of the standard registry, in registration order.
pub open spec fn standard_names() -> Seq<Seq<char>> {
    seq![
        "print"@, "readInt"@, "readFloat"@, "readString"@, "pow"@, "sqrt"@, "substr"@, "toUpper"@, "toLower"@, "strToInt"@,
        "strToFloat"@,
    ]
}

/// The `k`-th entry of the standard registry.
pub open spec fn native_entry_spec(k: int, e: (String, NativeEntry)) -> bool {
    let (name, entry) = e;
    &&& name@ == standard_names()[k]
    &&& entry.params@.len() == native_params(k).len()
    &&& forall|i: int| 0 <= i < native_params(k).len() ==> #[trigger] entry.params@[i] == native_params(k)[i]
    &&& entry.return_type == native_return(k)
    &&& entry.func == native_func(k)
}

/// The parameter types of the `k`-th native function.
pub open spec fn native_params(k: int) -> Seq<Type> {
    if k == 0 {
        seq![Type::Any]
    } else if k == 4 {
        seq![Type::Float, Type::Float]
    } else if k == 5 {
        seq![Type::Float]
    } else if k == 6 {
        seq![Type::Str, Type::Int, Type::Int]
    } else if 7 <= k <= 10 {
        seq![Type::Str]
    } else {
        Seq::empty()
    }
}

/// The return type of the `k`-th native function.
pub open spec fn native_return(k: int) -> Type {
    if k == 0 {
        Type::Unit
    } else if k == 1 || k == 9 {
        Type::Int
    } else if k == 2 || k == 4 || k == 5 || k == 10 {
        Type::Float
    } else {
        Type::Str
    }
}

/// The implementation of the `k`-th native function.
pub open spec fn native_func(k: int) -> NativeFn {
    if k == 0 {
        NativeFn::Print
    } else if k == 1 {
        NativeFn::ReadInt
    } else if k == 2 {
        NativeFn::ReadFloat
    } else if k == 3 {
        NativeFn::ReadString
    } else if k == 4 {
        NativeFn::Pow
    } else if k == 5 {
        NativeFn::Sqrt
    } else if k == 6 {
        NativeFn::Substr
    } else if k == 7 {
        NativeFn::ToUpper
    } else if k == 8 {
        NativeFn::ToLower
    } else if k == 9 {
        NativeFn::StrToInt
    } else {
        NativeFn::StrToFloat
    }
}

} // verus!
