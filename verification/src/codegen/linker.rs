//! The linker's view of the standard library: the names of the functions
//! that are implemented natively, so that calls to them are told apart from
//! calls to functions of the program.
use vstd::prelude::*;
use crate::stdlib::registry::{standard_names, NativeRegistry};

verus! {

/// The set of names that are implemented natively, built from the standard
/// registry. Each name is held once.
pub struct Linker {
    extern_names: Vec<String>,
}

impl Linker {
    /// The native names, in registry order.
    pub closed spec fn names(&self) -> Seq<Seq<char>> {
        self.extern_names@.map_values(|s: String| s@)
    }

    /// A linker whose names are those of the standard registry.
    pub fn new() -> (r: Self)
        ensures
            r.names() == standard_names(),
    {
        let registry = NativeRegistry::default();
        let entries = registry.iter();
        let mut names: Vec<String> = Vec::new();
        let mut i: usize = 0;
        while i < entries.len()
            invariant
                i <= entries.len(),
                entries@ == registry.entries(),
                registry.names() == standard_names(),
                names@.map_values(|s: String| s@) == registry.names().subrange(0, i as int),
            decreases entries.len() - i,
        {
            let ghost before = names@;
            let n = entries[i].0.clone();
            assert(n@ == registry.names()[i as int]);
            names.push(n);
            proof {
                assert(names@ == before.push(n));
                assert(before.map_values(|s: String| s@).len() == i);
                assert(names@.map_values(|s: String| s@) =~= registry.names().subrange(0, i + 1));
            }
            i = i + 1;
        }
        proof {
            assert(registry.names().subrange(0, i as int) =~= registry.names());
        }
        Linker { extern_names: names }
    }

    /// Whether `name` is implemented natively.
    pub fn is_extern(&self, name: &str) -> (r: bool)
        ensures
            r == self.names().contains(name@),
    {
        let key = String::from_str(name);
        let mut i: usize = 0;
        while i < self.extern_names.len()
            invariant
                i <= self.extern_names.len(),
                key@ == name@,
                forall|k: int| 0 <= k < i ==> self.extern_names@[k]@ != name@,
            decreases self.extern_names.len() - i,
        {
            if self.extern_names[i].eq(&key) {
                assert(self.names()[i as int] == name@);
                return true;
            }
            i = i + 1;
        }
        proof {
            if self.names().contains(name@) {
                let k = choose|k: int| 0 <= k < self.names().len() && self.names()[k] == name@;
                assert(self.extern_names@[k]@ == name@);
            }
        }
        false
    }

    /// All native names, in registry order.
    pub fn extern_names(&self) -> (r: &Vec<String>)
        ensures
            r@.map_values(|s: String| s@) == self.names(),
    {
        &self.extern_names
    }
}

/// The linker and the standard registry agree: a name is external exactly
/// when the registry holds an entry of that name.
pub proof fn lemma_extern_iff_registered(linker: Linker, registry: NativeRegistry, name: Seq<char>)
    requires
        linker.names() == standard_names(),
        registry.names() == standard_names(),
    ensures
        linker.names().contains(name) <==> exists|i: int| 0 <= i < registry.entries().len() && registry.entries()[i].0@ == name,
{
    if linker.names().contains(name) {
        let k = choose|k: int| 0 <= k < linker.names().len() && linker.names()[k] == name;
        assert(registry.names()[k] == registry.entries()[k].0@);
    }
    if exists|i: int| 0 <= i < registry.entries().len() && registry.entries()[i].0@ == name {
        let i = choose|i: int| 0 <= i < registry.entries().len() && registry.entries()[i].0@ == name;
        assert(registry.names()[i] == name);
        assert(linker.names()[i] == name);
    }
}

} // verus!
