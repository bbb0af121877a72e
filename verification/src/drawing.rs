//! The drawing document: the root aggregate the codec fills and walks.

use vstd::prelude::*;
use crate::code_pair::SpecPair;
use crate::header::Header;
use crate::record::{body_wf, record_wf, Block, Class, Entity, Object, SpecRecord, TableRecord};

verus! {

/// The named-object tables a drawing distinguishes.
#[derive(Clone, Copy, Debug, PartialEq, Eq, Structural)]
pub enum TableKind {
    AppIds,
    BlockRecords,
    DimStyles,
    Layers,
    LineTypes,
    Styles,
    Ucs,
    Views,
    ViewPorts,
}

impl TableKind {
    /// The name under which a table and its records appear in the stream.
    pub open spec fn spec_name(self) -> Seq<char> {
        match self {
            TableKind::AppIds => "APPID"@,
            TableKind::BlockRecords => "BLOCK_RECORD"@,
            TableKind::DimStyles => "DIMSTYLE"@,
            TableKind::Layers => "LAYER"@,
            TableKind::LineTypes => "LTYPE"@,
            TableKind::Styles => "STYLE"@,
            TableKind::Ucs => "UCS"@,
            TableKind::Views => "VIEW"@,
            TableKind::ViewPorts => "VPORT"@,
        }
    }

    /// Writes the stream name of a table.
    pub fn name_text(self) -> (r: &'static str)
        ensures
            r@ == self.spec_name(),
    {
        match self {
            TableKind::AppIds => "APPID",
            TableKind::BlockRecords => "BLOCK_RECORD",
            TableKind::DimStyles => "DIMSTYLE",
            TableKind::Layers => "LAYER",
            TableKind::LineTypes => "LTYPE",
            TableKind::Styles => "STYLE",
            TableKind::Ucs => "UCS",
            TableKind::Views => "VIEW",
            TableKind::ViewPorts => "VPORT",
        }
    }

    /// The table a stream name denotes, if it denotes one.
    pub open spec fn spec_from_name(s: Seq<char>) -> Option<TableKind> {
        if s == "APPID"@ {
            Some(TableKind::AppIds)
        } else if s == "BLOCK_RECORD"@ {
            Some(TableKind::BlockRecords)
        } else if s == "DIMSTYLE"@ {
            Some(TableKind::DimStyles)
        } else if s == "LAYER"@ {
            Some(TableKind::Layers)
        } else if s == "LTYPE"@ {
            Some(TableKind::LineTypes)
        } else if s == "STYLE"@ {
            Some(TableKind::Styles)
        } else if s == "UCS"@ {
            Some(TableKind::Ucs)
        } else if s == "VIEW"@ {
            Some(TableKind::Views)
        } else if s == "VPORT"@ {
            Some(TableKind::ViewPorts)
        } else {
            None
        }
    }

    /// Reads a stream name back into a table kind.
    pub fn from_name(s: &str) -> (r: Option<TableKind>)
        ensures
            r == TableKind::spec_from_name(s@),
    {
        if crate::code_pair::str_eq(s, "APPID") {
            Some(TableKind::AppIds)
        } else if crate::code_pair::str_eq(s, "BLOCK_RECORD") {
            Some(TableKind::BlockRecords)
        } else if crate::code_pair::str_eq(s, "DIMSTYLE") {
            Some(TableKind::DimStyles)
        } else if crate::code_pair::str_eq(s, "LAYER") {
            Some(TableKind::Layers)
        } else if crate::code_pair::str_eq(s, "LTYPE") {
            Some(TableKind::LineTypes)
        } else if crate::code_pair::str_eq(s, "STYLE") {
            Some(TableKind::Styles)
        } else if crate::code_pair::str_eq(s, "UCS") {
            Some(TableKind::Ucs)
        } else if crate::code_pair::str_eq(s, "VIEW") {
            Some(TableKind::Views)
        } else if crate::code_pair::str_eq(s, "VPORT") {
            Some(TableKind::ViewPorts)
        } else {
            None
        }
    }
}

/// Mathematical model of a drawing.
#[verifier::ext_equal]
pub struct SpecDrawing {
    pub header: Header,
    pub classes: Seq<Seq<SpecPair>>,
    pub app_ids: Seq<Seq<SpecPair>>,
    pub block_records: Seq<Seq<SpecPair>>,
    pub dim_styles: Seq<Seq<SpecPair>>,
    pub layers: Seq<Seq<SpecPair>>,
    pub line_types: Seq<Seq<SpecPair>>,
    pub styles: Seq<Seq<SpecPair>>,
    pub ucs: Seq<Seq<SpecPair>>,
    pub views: Seq<Seq<SpecPair>>,
    pub view_ports: Seq<Seq<SpecPair>>,
    pub blocks: Seq<Seq<SpecPair>>,
    pub entities: Seq<SpecRecord>,
    pub objects: Seq<SpecRecord>,
    pub thumbnail: Option<Seq<u8>>,
}

impl SpecDrawing {
    /// The model of a freshly constructed drawing.
    pub open spec fn spec_default() -> SpecDrawing {
        SpecDrawing {
            header: Header::spec_default(),
            classes: Seq::empty(),
            app_ids: Seq::empty(),
            block_records: Seq::empty(),
            dim_styles: Seq::empty(),
            layers: Seq::empty(),
            line_types: Seq::empty(),
            styles: Seq::empty(),
            ucs: Seq::empty(),
            views: Seq::empty(),
            view_ports: Seq::empty(),
            blocks: Seq::empty(),
            entities: Seq::empty(),
            objects: Seq::empty(),
            thumbnail: None,
        }
    }

    /// The records of the given table.
    pub open spec fn table(self, kind: TableKind) -> Seq<Seq<SpecPair>> {
        match kind {
            TableKind::AppIds => self.app_ids,
            TableKind::BlockRecords => self.block_records,
            TableKind::DimStyles => self.dim_styles,
            TableKind::Layers => self.layers,
            TableKind::LineTypes => self.line_types,
            TableKind::Styles => self.styles,
            TableKind::Ucs => self.ucs,
            TableKind::Views => self.views,
            TableKind::ViewPorts => self.view_ports,
        }
    }

    /// The drawing with one record appended to the given table.
    pub open spec fn push_table_record(self, kind: TableKind, body: Seq<SpecPair>) -> SpecDrawing {
        match kind {
            TableKind::AppIds => SpecDrawing { app_ids: self.app_ids.push(body), ..self },
            TableKind::BlockRecords => SpecDrawing {
                block_records: self.block_records.push(body),
                ..self
            },
            TableKind::DimStyles => SpecDrawing { dim_styles: self.dim_styles.push(body), ..self },
            TableKind::Layers => SpecDrawing { layers: self.layers.push(body), ..self },
            TableKind::LineTypes => SpecDrawing { line_types: self.line_types.push(body), ..self },
            TableKind::Styles => SpecDrawing { styles: self.styles.push(body), ..self },
            TableKind::Ucs => SpecDrawing { ucs: self.ucs.push(body), ..self },
            TableKind::Views => SpecDrawing { views: self.views.push(body), ..self },
            TableKind::ViewPorts => SpecDrawing { view_ports: self.view_ports.push(body), ..self },
        }
    }

    /// True of every collection of bodies whose members are all well-formed.
    pub open spec fn bodies_wf(bodies: Seq<Seq<SpecPair>>) -> bool {
        forall|i: int| 0 <= i < bodies.len() ==> body_wf(#[trigger] bodies[i])
    }

    /// True of every collection of records whose members are all well-formed.
    pub open spec fn records_wf(records: Seq<SpecRecord>) -> bool {
        forall|i: int| 0 <= i < records.len() ==> record_wf(#[trigger] records[i])
    }

    /// True of a thumbnail that carries its synthesized bitmap-file header:
    /// at least the fourteen header bytes, and a payload whose length fits
    /// the stream's integer value.
    pub open spec fn thumbnail_wf(self) -> bool {
        self.thumbnail matches Some(t) ==> 14 <= t.len() <= 14 + 0x7fff_ffff
    }

    /// True of a drawing whose contents this codec can write and read back.
    pub open spec fn wf(self) -> bool {
        &&& Self::bodies_wf(self.classes)
        &&& Self::bodies_wf(self.app_ids)
        &&& Self::bodies_wf(self.block_records)
        &&& Self::bodies_wf(self.dim_styles)
        &&& Self::bodies_wf(self.layers)
        &&& Self::bodies_wf(self.line_types)
        &&& Self::bodies_wf(self.styles)
        &&& Self::bodies_wf(self.ucs)
        &&& Self::bodies_wf(self.views)
        &&& Self::bodies_wf(self.view_ports)
        &&& Self::bodies_wf(self.blocks)
        &&& Self::records_wf(self.entities)
        &&& Self::records_wf(self.objects)
        &&& self.thumbnail_wf()
    }
}

/// A drawing document: one header, the ordered collections of its items,
/// and an optional thumbnail image.
///
/// Collections preserve read order.  Uniqueness of record names is a
/// producer's responsibility, not enforced here.
#[derive(Debug, PartialEq)]
pub struct Drawing {
    /// The drawing's header: revision and handle settings.
    pub header: Header,
    /// The classes contained by the drawing.
    pub classes: Vec<Class>,
    /// The application-id records contained by the drawing.
    pub app_ids: Vec<TableRecord>,
    /// The block records contained by the drawing.
    pub block_records: Vec<TableRecord>,
    /// The dimension styles contained by the drawing.
    pub dim_styles: Vec<TableRecord>,
    /// The layers contained by the drawing.
    pub layers: Vec<TableRecord>,
    /// The line types contained by the drawing.
    pub line_types: Vec<TableRecord>,
    /// The visual styles contained by the drawing.
    pub styles: Vec<TableRecord>,
    /// The coordinate systems contained by the drawing.
    pub ucs: Vec<TableRecord>,
    /// The views contained by the drawing.
    pub views: Vec<TableRecord>,
    /// The view ports contained by the drawing.
    pub view_ports: Vec<TableRecord>,
    /// The blocks contained by the drawing.
    pub blocks: Vec<Block>,
    /// The entities contained by the drawing.
    pub entities: Vec<Entity>,
    /// The objects contained by the drawing.
    pub objects: Vec<Object>,
    /// The thumbnail image of the drawing, with its synthesized header.
    pub thumbnail: Option<Vec<u8>>,
}

impl View for Drawing {
    type V = SpecDrawing;

    open spec fn view(&self) -> SpecDrawing {
        SpecDrawing {
            header: self.header,
            classes: self.classes@.map_values(|c: Class| c@),
            app_ids: self.app_ids@.map_values(|t: TableRecord| t@),
            block_records: self.block_records@.map_values(|t: TableRecord| t@),
            dim_styles: self.dim_styles@.map_values(|t: TableRecord| t@),
            layers: self.layers@.map_values(|t: TableRecord| t@),
            line_types: self.line_types@.map_values(|t: TableRecord| t@),
            styles: self.styles@.map_values(|t: TableRecord| t@),
            ucs: self.ucs@.map_values(|t: TableRecord| t@),
            views: self.views@.map_values(|t: TableRecord| t@),
            view_ports: self.view_ports@.map_values(|t: TableRecord| t@),
            blocks: self.blocks@.map_values(|b: Block| b@),
            entities: self.entities@.map_values(|e: Entity| e@),
            objects: self.objects@.map_values(|o: Object| o@),
            thumbnail: match self.thumbnail {
                Some(t) => Some(t@),
                None => None,
            },
        }
    }
}

impl Default for Drawing {
    /// An empty drawing with a default header.
    fn default() -> (r: Drawing)
        ensures
            r@ == SpecDrawing::spec_default(),
    {
        let r = Drawing {
            header: Header::default(),
            classes: Vec::new(),
            app_ids: Vec::new(),
            block_records: Vec::new(),
            dim_styles: Vec::new(),
            layers: Vec::new(),
            line_types: Vec::new(),
            styles: Vec::new(),
            ucs: Vec::new(),
            views: Vec::new(),
            view_ports: Vec::new(),
            blocks: Vec::new(),
            entities: Vec::new(),
            objects: Vec::new(),
            thumbnail: None,
        };
        proof {
            assert(r@ =~= SpecDrawing::spec_default());
        }
        r
    }
}

} // verus!
