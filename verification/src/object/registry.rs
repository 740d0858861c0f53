//! Class registry: instantiate factories by class name.

use vstd::prelude::*;
use crate::text::str_eq;

verus! {

/// A provider of "object safe" factory values for one object type.
pub trait NewFactory<F> {
    /// A factory for this type.
    fn new_factory() -> F;
}

/// Maps class names to the factories that build them.
pub struct ClassMap<F> {
    entries: Vec<(&'static str, F)>,
}

impl<F> ClassMap<F> {
    /// The name/factory pairs, in registration order.
    pub closed spec fn pairs(&self) -> Seq<(Seq<char>, F)> {
        self.entries@.map_values(|p: (&'static str, F)| (p.0@, p.1))
    }

    /// A class map over the given name/factory pairs.
    pub fn new(map: Vec<(&'static str, F)>) -> (r: ClassMap<F>)
        ensures
            r.pairs().len() == map@.len(),
            forall|i: int|
                0 <= i < map@.len() ==> #[trigger] r.pairs()[i] == (map@[i].0@, map@[i].1),
    {
        ClassMap { entries: map }
    }

    /// The factory registered first under the class name, if any.
    pub fn get(&self, class: &str) -> (res: Option<&F>)
        ensures
            match res {
                Some(f) => exists|i: int|
                    0 <= i < self.pairs().len() && (#[trigger] self.pairs()[i]).0 == class@ && *f
                        == self.pairs()[i].1 && forall|j: int|
                        0 <= j < i ==> self.pairs()[j].0 != class@,
                None => forall|i: int|
                    0 <= i < self.pairs().len() ==> (#[trigger] self.pairs()[i]).0 != class@,
            },
    {
        let mut i: usize = 0;
        while i < self.entries.len()
            invariant
                i <= self.entries@.len(),
                forall|j: int| 0 <= j < i ==> (#[trigger] self.pairs()[j]).0 != class@,
            decreases self.entries@.len() - i,
        {
            if str_eq(self.entries[i].0, class) {
                proof {
                    assert(self.pairs()[i as int].0 == class@);
                }
                return Some(&self.entries[i].1);
            }
            i += 1;
        }
        None
    }

    /// Read the registered pairs.
    pub fn iter(&self) -> (r: &Vec<(&'static str, F)>)
        ensures
            r@.len() == self.pairs().len(),
            forall|i: int|
                0 <= i < r@.len() ==> #[trigger] self.pairs()[i] == (r@[i].0@, r@[i].1),
    {
        &self.entries
    }
}

/// Construction of an object type from nothing but its handle.
pub trait ClassInitializer: Sized {
    /// A fresh instance under the given handle.
    fn new_instance(this: crate::object::ObjectRef) -> Self;
}

/// An object type that knows its own class name.
pub trait ClassConnector: ClassInitializer {
    /// The class name instances are registered under.
    fn class_name() -> &'static str;
}

/// A registry names the full class map of one application.
pub trait Registry {
    /// The factory type the map holds.
    type Factory;

    /// Every registered class with its factory.
    fn get_class_map() -> ClassMap<Self::Factory>;
}

} // verus!
