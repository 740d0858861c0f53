//! Properties: values with change tracking and editor-facing configuration.
//!
//! A property remembers whether it was written since it was last polled, so a
//! consumer can react only to changes.

use vstd::prelude::*;

verus! {

/// A value with its configuration and a changed flag.
pub struct Property<T, C> {
    value: T,
    changed: bool,
    config: C,
}

impl<T, C> Property<T, C> {
    /// The current value.
    pub closed spec fn value_spec(&self) -> T {
        self.value
    }

    /// Whether the value was written since the last poll.
    pub closed spec fn changed_spec(&self) -> bool {
        self.changed
    }

    /// The configuration.
    pub closed spec fn config_spec(&self) -> C {
        self.config
    }

    /// A property holding the given value, not marked changed.
    pub fn new(value: T, config: C) -> (r: Property<T, C>)
        ensures
            r.value_spec() == value,
            !r.changed_spec(),
            r.config_spec() == config,
    {
        Property { value, changed: false, config }
    }

    /// Read the current value.
    pub fn get(&self) -> (r: &T)
        ensures
            *r == self.value_spec(),
    {
        &self.value
    }

    /// Read the configuration.
    pub fn config(&self) -> (r: &C)
        ensures
            *r == self.config_spec(),
    {
        &self.config
    }

    /// Overwrite the value and mark the property changed.
    pub fn set(&mut self, new_value: T)
        ensures
            final(self).value_spec() == new_value,
            final(self).changed_spec(),
            final(self).config_spec() == old(self).config_spec(),
    {
        self.value = new_value;
        self.changed = true;
    }

    /// The value if it changed since the last poll, clearing the flag;
    /// `None` when nothing changed.
    pub fn poll(&mut self) -> (r: Option<&T>)
        ensures
            final(self).value_spec() == old(self).value_spec(),
            final(self).config_spec() == old(self).config_spec(),
            !final(self).changed_spec(),
            match r {
                Some(v) => old(self).changed_spec() && *v == old(self).value_spec(),
                None => !old(self).changed_spec(),
            },
    {
        if !self.changed {
            None
        } else {
            self.changed = false;
            Some(&self.value)
        }
    }
}

/// Configuration for a numeric property: its range and step.
pub struct NumericProperty<T> {
    pub min: T,
    pub max: T,
    pub step: T,
}

/// Configuration for a string property: the longest accepted text.
pub struct StringProperty {
    pub max_chars: u32,
}

} // verus!
