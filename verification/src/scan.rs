//! A single scan, known only by its name.

use vstd::prelude::*;

verus! {

/// A single scan.
#[derive(Clone, Debug)]
pub struct Scan {
    name: String,
}

impl View for Scan {
    type V = Seq<char>;

    /// A scan is known by its name alone.
    closed spec fn view(&self) -> Seq<char> {
        self.name@
    }
}

impl Scan {
    /// Creates a new scan with an empty name.
    pub fn new() -> (scan: Scan)
        ensures
            scan@ == Seq::<char>::empty(),
    {
        Scan { name: String::new() }
    }

    /// Returns a reference to this scan's name.
    pub fn name(&self) -> (name: &str)
        ensures
            name@ == self@,
    {
        self.name.as_str()
    }

    /// Sets this scan's name.
    pub fn set_name(&mut self, name: &str)
        ensures
            final(self)@ == name@,
    {
        self.name = name.to_owned();
    }
}

} // verus!
