use std::collections::HashMap;

use vstd::prelude::*;

verus! {

broadcast use vstd::std_specs::hash::group_hash_axioms;

/// The abstract column sizes: measured widths, automatic widths and user
/// overrides by size key, and the shared row height once known.
pub struct SizesView {
    pub indices: Map<u64, usize>,
    pub auto: Map<u64, usize>,
    pub overrides: Map<u64, usize>,
    pub row_height: Option<usize>,
}

/// Column widths shared by the header, the body and the autosizing pass.
pub struct ColumnSizes {
    indices: HashMap<u64, usize>,
    auto: HashMap<u64, usize>,
    overrides: HashMap<u64, usize>,
    row_height: Option<usize>,
}

/// The entry of `m` at `k`, if any.
pub open spec fn lookup(m: Map<u64, usize>, k: u64) -> Option<usize> {
    if m.contains_key(k) {
        Some(m[k])
    } else {
        None
    }
}

fn get_width(m: &HashMap<u64, usize>, k: u64) -> (r: Option<usize>)
    ensures
        r == lookup(m@, k),
{
    match m.get(&k) {
        Some(w) => Some(*w),
        None => None,
    }
}

impl View for ColumnSizes {
    type V = SizesView;

    closed spec fn view(&self) -> SizesView {
        SizesView {
            indices: self.indices@,
            auto: self.auto@,
            overrides: self.overrides@,
            row_height: self.row_height,
        }
    }
}

impl ColumnSizes {
    pub fn new() -> (r: ColumnSizes)
        ensures
            r@.indices.is_empty(),
            r@.auto.is_empty(),
            r@.overrides.is_empty(),
            r@.row_height is None,
    {
        ColumnSizes {
            indices: HashMap::new(),
            auto: HashMap::new(),
            overrides: HashMap::new(),
            row_height: None,
        }
    }

    pub fn get_override(&self, k: u64) -> (r: Option<usize>)
        ensures
            r == lookup(self@.overrides, k),
    {
        get_width(&self.overrides, k)
    }

    pub fn get_auto(&self, k: u64) -> (r: Option<usize>)
        ensures
            r == lookup(self@.auto, k),
    {
        get_width(&self.auto, k)
    }

    pub fn get_index(&self, k: u64) -> (r: Option<usize>)
        ensures
            r == lookup(self@.indices, k),
    {
        get_width(&self.indices, k)
    }

    pub fn row_height(&self) -> (r: Option<usize>)
        ensures
            r == self@.row_height,
    {
        self.row_height
    }

    pub fn has_override(&self, k: u64) -> (r: bool)
        ensures
            r == self@.overrides.contains_key(k),
    {
        self.overrides.contains_key(&k)
    }

    /// Fixes the width of the columns of size key `k`, as a user resize does.
    pub fn set_override(&mut self, k: u64, w: usize)
        ensures
            final(self)@ == (SizesView { overrides: old(self)@.overrides.insert(k, w), ..old(self)@ }),
    {
        self.overrides.insert(k, w);
    }

    pub fn set_auto(&mut self, k: u64, w: usize)
        ensures
            final(self)@ == (SizesView { auto: old(self)@.auto.insert(k, w), ..old(self)@ }),
    {
        self.auto.insert(k, w);
    }

    pub fn set_index(&mut self, k: u64, w: usize)
        ensures
            final(self)@ == (SizesView { indices: old(self)@.indices.insert(k, w), ..old(self)@ }),
    {
        self.indices.insert(k, w);
    }

    pub fn set_row_height(&mut self, h: Option<usize>)
        ensures
            final(self)@ == (SizesView { row_height: h, ..old(self)@ }),
    {
        self.row_height = h;
    }
}

} // verus!
