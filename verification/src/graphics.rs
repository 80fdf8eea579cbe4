//! The records the rendering core consumes: positioned glyphs and textual
//! labels bound to glyphs by identifier.

use vstd::prelude::*;

verus! {

/// One cell to paint: a content code, a column and row, and, when the record
/// may be annotated, the entity identifier a label can bind to.
#[derive(Clone)]
pub struct Visual {
    pub content: u32,
    pub x: u32,
    pub y: u32,
    pub id: Option<u32>,
}

/// A textual record: either a freestanding title, which the layout ignores,
/// or an item annotation binding free text to a [`Visual`] identifier.
#[derive(Clone)]
pub enum Text {
    Title(String),
    ItemAnnotation(u32, String),
}

} // verus!
