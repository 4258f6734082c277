//! The indirect draw command record the renderer consumes: a plain
//! five-field GPU command describing one mesh instance's index range.
//! The physics core never reads it; it lives here as the single piece of
//! shared plain data between the simulation and its rendering consumer.

use vstd::prelude::*;

verus! {

/// One multi-draw-indirect command: index count, instance count, first
/// index, base vertex, base instance.
#[derive(PartialEq, Eq, Structural, Debug)]
pub struct IndirectDrawCommand {
    pub indice_count: u32,
    pub instance_count: u32,
    pub start: u32,
    pub base_vertex: i32,
    pub base_instance: u32,
}

impl IndirectDrawCommand {
    /// An empty command: draws nothing, one instance.
    pub fn new() -> (r: IndirectDrawCommand)
        ensures
            r.indice_count == 0,
            r.instance_count == 1,
            r.start == 0,
            r.base_vertex == 0,
            r.base_instance == 0,
    {
        IndirectDrawCommand {
            indice_count: 0,
            instance_count: 1,
            start: 0,
            base_vertex: 0,
            base_instance: 0,
        }
    }

    /// A field-for-field copy.
    pub fn clone(&self) -> (r: IndirectDrawCommand)
        ensures
            r == *self,
    {
        IndirectDrawCommand {
            indice_count: self.indice_count,
            instance_count: self.instance_count,
            start: self.start,
            base_vertex: self.base_vertex,
            base_instance: self.base_instance,
        }
    }
}

} // verus!
