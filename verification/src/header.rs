//! The drawing header: format revision and feature flags read by this codec.
//!
//! A header section of a real drawing carries hundreds of variables; their
//! field-level decoding belongs to an external collaborator.  This codec
//! itself reads and writes the two settings that steer it: the format
//! revision and the handle flag.

use vstd::prelude::*;

verus! {

/// The ordered enumeration of format revisions.
#[derive(Clone, Copy, Debug, PartialEq, Eq, Structural)]
pub enum AcadVersion {
    R12,
    R13,
    R14,
    R2000,
    R2004,
    R2007,
    R2010,
    R2013,
    R2018,
}

impl AcadVersion {
    /// The rank of a revision in the version order.
    pub open spec fn ord(self) -> int {
        match self {
            AcadVersion::R12 => 0,
            AcadVersion::R13 => 1,
            AcadVersion::R14 => 2,
            AcadVersion::R2000 => 3,
            AcadVersion::R2004 => 4,
            AcadVersion::R2007 => 5,
            AcadVersion::R2010 => 6,
            AcadVersion::R2013 => 7,
            AcadVersion::R2018 => 8,
        }
    }

    /// The rank of a revision, as a machine integer.
    pub fn rank(self) -> (n: u8)
        ensures
            n as int == self.ord(),
    {
        match self {
            AcadVersion::R12 => 0,
            AcadVersion::R13 => 1,
            AcadVersion::R14 => 2,
            AcadVersion::R2000 => 3,
            AcadVersion::R2004 => 4,
            AcadVersion::R2007 => 5,
            AcadVersion::R2010 => 6,
            AcadVersion::R2013 => 7,
            AcadVersion::R2018 => 8,
        }
    }

    /// True when `self` is the same revision as `other` or a later one.
    pub fn at_least(self, other: AcadVersion) -> (r: bool)
        ensures
            r == (self.ord() >= other.ord()),
    {
        self.rank() >= other.rank()
    }

    /// The identifier under which a revision appears in the stream.
    pub open spec fn spec_id_text(self) -> Seq<char> {
        match self {
            AcadVersion::R12 => "AC1009"@,
            AcadVersion::R13 => "AC1012"@,
            AcadVersion::R14 => "AC1014"@,
            AcadVersion::R2000 => "AC1015"@,
            AcadVersion::R2004 => "AC1018"@,
            AcadVersion::R2007 => "AC1021"@,
            AcadVersion::R2010 => "AC1024"@,
            AcadVersion::R2013 => "AC1027"@,
            AcadVersion::R2018 => "AC1032"@,
        }
    }

    /// Writes the stream identifier of a revision.
    pub fn id_text(self) -> (r: String)
        ensures
            r@ == self.spec_id_text(),
    {
        match self {
            AcadVersion::R12 => "AC1009".to_owned(),
            AcadVersion::R13 => "AC1012".to_owned(),
            AcadVersion::R14 => "AC1014".to_owned(),
            AcadVersion::R2000 => "AC1015".to_owned(),
            AcadVersion::R2004 => "AC1018".to_owned(),
            AcadVersion::R2007 => "AC1021".to_owned(),
            AcadVersion::R2010 => "AC1024".to_owned(),
            AcadVersion::R2013 => "AC1027".to_owned(),
            AcadVersion::R2018 => "AC1032".to_owned(),
        }
    }

    /// The revision a stream identifier denotes, if it denotes one.
    pub open spec fn spec_from_id(s: Seq<char>) -> Option<AcadVersion> {
        if s == "AC1009"@ {
            Some(AcadVersion::R12)
        } else if s == "AC1012"@ {
            Some(AcadVersion::R13)
        } else if s == "AC1014"@ {
            Some(AcadVersion::R14)
        } else if s == "AC1015"@ {
            Some(AcadVersion::R2000)
        } else if s == "AC1018"@ {
            Some(AcadVersion::R2004)
        } else if s == "AC1021"@ {
            Some(AcadVersion::R2007)
        } else if s == "AC1024"@ {
            Some(AcadVersion::R2010)
        } else if s == "AC1027"@ {
            Some(AcadVersion::R2013)
        } else if s == "AC1032"@ {
            Some(AcadVersion::R2018)
        } else {
            None
        }
    }

    /// Reads a stream identifier back into a revision.
    pub fn from_id(s: &str) -> (r: Option<AcadVersion>)
        ensures
            r == AcadVersion::spec_from_id(s@),
    {
        if crate::code_pair::str_eq(s, "AC1009") {
            Some(AcadVersion::R12)
        } else if crate::code_pair::str_eq(s, "AC1012") {
            Some(AcadVersion::R13)
        } else if crate::code_pair::str_eq(s, "AC1014") {
            Some(AcadVersion::R14)
        } else if crate::code_pair::str_eq(s, "AC1015") {
            Some(AcadVersion::R2000)
        } else if crate::code_pair::str_eq(s, "AC1018") {
            Some(AcadVersion::R2004)
        } else if crate::code_pair::str_eq(s, "AC1021") {
            Some(AcadVersion::R2007)
        } else if crate::code_pair::str_eq(s, "AC1024") {
            Some(AcadVersion::R2010)
        } else if crate::code_pair::str_eq(s, "AC1027") {
            Some(AcadVersion::R2013)
        } else if crate::code_pair::str_eq(s, "AC1032") {
            Some(AcadVersion::R2018)
        } else {
            None
        }
    }
}

/// The settings of a drawing that this codec reads and threads through.
#[derive(Clone, Copy, Debug, PartialEq, Eq, Structural)]
pub struct Header {
    /// The format revision the drawing is written for.
    pub version: AcadVersion,
    /// Whether object handles are enabled for the drawing.
    pub handles_enabled: bool,
}

impl Header {
    /// The header of a freshly constructed drawing.
    pub open spec fn spec_default() -> Header {
        Header { version: AcadVersion::R12, handles_enabled: false }
    }
}

impl Default for Header {
    /// A default header: the earliest supported revision, handles disabled.
    fn default() -> (r: Header)
        ensures
            r == Header::spec_default(),
    {
        Header { version: AcadVersion::R12, handles_enabled: false }
    }
}

} // verus!
