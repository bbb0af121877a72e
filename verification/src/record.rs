//! The items a drawing collects: classes, table records, blocks, entities
//! and objects.
//!
//! Field-level decoding of these items belongs to external collaborators;
//! this codec frames them and carries each item as its raw tagged values.
//! A body never holds a code-0 pair: code 0 marks item and section
//! boundaries, which the codec itself owns.

use vstd::prelude::*;
use crate::code_pair::{pairs_view, CodePair, SpecPair};

verus! {

/// True of a body of pairs that can stand inside one item: no pair of it
/// carries the marker code 0.
pub open spec fn body_wf(pairs: Seq<SpecPair>) -> bool {
    forall|i: int| 0 <= i < pairs.len() ==> (#[trigger] pairs[i]).code != 0
}

/// A class entry of the `CLASSES` section, as its raw tagged values.
#[derive(Debug, PartialEq)]
pub struct Class {
    pub pairs: Vec<CodePair>,
}

impl View for Class {
    type V = Seq<SpecPair>;

    open spec fn view(&self) -> Seq<SpecPair> {
        pairs_view(self.pairs@)
    }
}

/// A record of a named-object table, as its raw tagged values.
#[derive(Debug, PartialEq)]
pub struct TableRecord {
    pub pairs: Vec<CodePair>,
}

impl View for TableRecord {
    type V = Seq<SpecPair>;

    open spec fn view(&self) -> Seq<SpecPair> {
        pairs_view(self.pairs@)
    }
}

/// A block of the `BLOCKS` section, as its raw tagged values.
#[derive(Debug, PartialEq)]
pub struct Block {
    pub pairs: Vec<CodePair>,
}

impl View for Block {
    type V = Seq<SpecPair>;

    open spec fn view(&self) -> Seq<SpecPair> {
        pairs_view(self.pairs@)
    }
}

/// Mathematical model of an entity or object: its type name and its body.
#[verifier::ext_equal]
pub struct SpecRecord {
    pub name: Seq<char>,
    pub pairs: Seq<SpecPair>,
}

/// An entity of the `ENTITIES` section: its type name and its raw body.
#[derive(Debug, PartialEq)]
pub struct Entity {
    pub name: String,
    pub pairs: Vec<CodePair>,
}

impl View for Entity {
    type V = SpecRecord;

    open spec fn view(&self) -> SpecRecord {
        SpecRecord { name: self.name@, pairs: pairs_view(self.pairs@) }
    }
}

/// An object of the `OBJECTS` section: its type name and its raw body.
#[derive(Debug, PartialEq)]
pub struct Object {
    pub name: String,
    pub pairs: Vec<CodePair>,
}

impl View for Object {
    type V = SpecRecord;

    open spec fn view(&self) -> SpecRecord {
        SpecRecord { name: self.name@, pairs: pairs_view(self.pairs@) }
    }
}

/// True of a type name that can stand as an item marker: the names that
/// frame sections and blocks are reserved by the codec.
pub open spec fn name_wf(name: Seq<char>) -> bool {
    &&& name != "SECTION"@
    &&& name != "ENDSEC"@
    &&& name != "ENDBLK"@
    &&& name != "EOF"@
}

/// True of an entity or object model that the codec can write and read back.
pub open spec fn record_wf(r: SpecRecord) -> bool {
    name_wf(r.name) && body_wf(r.pairs)
}

} // verus!
