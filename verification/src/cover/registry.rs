use vstd::prelude::*;
use crate::utf8_text::str_eq;
use crate::cover::chance::random_in;

verus! {

/// A registered activity module: its name and how to create one.
pub struct RegisteredModule<F> {
    pub name: &'static str,
    pub factory: F,
}

/// The activity modules cover mode can pick from, in registration order.
pub struct CoverRegistry<F> {
    modules: Vec<RegisteredModule<F>>,
}

impl<F> CoverRegistry<F> {
    /// Names of the registered modules, in registration order.
    pub closed spec fn names_spec(&self) -> Seq<Seq<char>> {
        self.modules@.map_values(|m: RegisteredModule<F>| m.name@)
    }

    /// Factory of the `i`-th registered module.
    pub closed spec fn factory_spec(&self, i: int) -> F {
        self.modules@[i].factory
    }

    /// An empty registry.
    pub fn new() -> (r: CoverRegistry<F>)
        ensures
            r.names_spec() == Seq::<Seq<char>>::empty(),
    {
        let r = CoverRegistry { modules: Vec::new() };
        assert(r.names_spec() =~= Seq::<Seq<char>>::empty());
        r
    }

    /// Registers a module under a name not registered yet.
    pub fn register(&mut self, name: &'static str, factory: F)
        requires
            !old(self).names_spec().contains(name@),
        ensures
            final(self).names_spec() == old(self).names_spec().push(name@),
            final(self).factory_spec(old(self).names_spec().len() as int) == factory,
            forall|i: int| 0 <= i < old(self).names_spec().len() ==> #[trigger] final(self).factory_spec(i)
                == old(self).factory_spec(i),
    {
        let ghost before = self.names_spec();
        self.modules.push(RegisteredModule { name, factory });
        assert(self.names_spec() =~= before.push(name@));
    }

    /// Whether `name` is registered.
    pub fn contains(&self, name: &str) -> (b: bool)
        ensures
            b == self.names_spec().contains(name@),
    {
        let mut i: usize = 0;
        while i < self.modules.len()
            invariant
                i <= self.modules@.len(),
                forall|k: int| 0 <= k < i ==> #[trigger] self.names_spec()[k] != name@,
            decreases self.modules@.len() - i,
        {
            if str_eq(self.modules[i].name, name) {
                assert(self.names_spec()[i as int] == name@);
                return true;
            }
            i = i + 1;
        }
        false
    }

    /// Names of the registered modules, in registration order.
    pub fn names(&self) -> (names: Vec<&'static str>)
        ensures
            names@.len() == self.names_spec().len(),
            forall|k: int| 0 <= k < names@.len() ==> #[trigger] names@[k]@ == self.names_spec()[k],
    {
        let mut names: Vec<&'static str> = Vec::new();
        for i in 0..self.modules.len()
            invariant
                names@.len() == i,
                forall|k: int| 0 <= k < i ==> #[trigger] names@[k]@ == self.names_spec()[k],
        {
            names.push(self.modules[i].name);
        }
        names
    }

    /// A registered module picked at random, by index; `None` when none is
    /// registered.
    pub fn pick_random(&self) -> (i: Option<usize>)
        ensures
            match i {
                Some(k) => k < self.names_spec().len(),
                None => self.names_spec().len() == 0,
            },
    {
        let n = self.modules.len();
        if n == 0 {
            return None;
        }
        let k = random_in(0, n as u64);
        Some(k as usize)
    }

    /// Whether no module is registered.
    pub fn is_empty(&self) -> (b: bool)
        ensures
            b == (self.names_spec().len() == 0),
    {
        self.modules.len() == 0
    }

    /// Number of registered modules.
    pub fn len(&self) -> (n: usize)
        ensures
            n == self.names_spec().len(),
    {
        self.modules.len()
    }

    /// Factory of the `i`-th registered module.
    pub fn factory_at(&self, i: usize) -> (f: &F)
        requires
            i < self.names_spec().len(),
        ensures
            *f == self.factory_spec(i as int),
    {
        &self.modules[i].factory
    }
}

} // verus!
