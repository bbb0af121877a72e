//! Decoding: the section state machine.
//!
//! The reader consumes a stream of tagged values through a push-back
//! cursor.  Its behaviour on every input is pinned down by spec-level
//! parsers; each executable routine is proved to return exactly what the
//! corresponding parser says, for success, for every error, and for the
//! pairs left on the cursor.

use vstd::prelude::*;
use crate::code_pair::{is_marker, pairs_view, CodePair, CodePairValue, SpecPair, SpecValue};
use crate::cursor::CodePairCursor;
use crate::drawing::{Drawing, SpecDrawing, TableKind};
use crate::error::{DxfError, DxfResult, SpecError};
use crate::header::{AcadVersion, Header};
use crate::hex::{parse_hex_string, spec_hex_decode};
use crate::record::{Block, Class, Entity, Object, SpecRecord, TableRecord};

verus! {

/// The outcome of a spec-level parser: a value and the pairs left over, or
/// the error the reader reports.
#[verifier::ext_equal]
pub enum Parsed<T> {
    Done { value: T, rest: Seq<SpecPair> },
    Fail { err: SpecError },
}

/// The message of a payload that should have carried a string.
pub open spec fn msg_string_expected() -> Seq<char> {
    "string value expected"@
}

/// The message of a payload that should have carried an integer.
pub open spec fn msg_int_expected() -> Seq<char> {
    "integer value expected"@
}

/// The message of a revision identifier this codec does not know.
pub open spec fn msg_unknown_version() -> Seq<char> {
    "unknown drawing version"@
}

/// Splits a stream at the next code-0 marker: the pairs before it, and the
/// rest beginning with that marker (or nothing, at end of stream).
pub open spec fn spec_take_body(s: Seq<SpecPair>) -> (Seq<SpecPair>, Seq<SpecPair>)
    decreases s.len(),
{
    if s.len() == 0 || s[0].code == 0 {
        (Seq::empty(), s)
    } else {
        let (b, r) = spec_take_body(s.skip(1));
        (seq![s[0]] + b, r)
    }
}

/// A body split consumes the stream exactly: body and rest together are
/// the input, the body holds no marker, and the rest starts with one.
pub proof fn lemma_take_body(s: Seq<SpecPair>)
    ensures
        spec_take_body(s).0 + spec_take_body(s).1 == s,
        spec_take_body(s).1.len() <= s.len(),
        crate::record::body_wf(spec_take_body(s).0),
        spec_take_body(s).1.len() > 0 ==> spec_take_body(s).1[0].code == 0,
    decreases s.len(),
{
    if s.len() == 0 || s[0].code == 0 {
        assert(spec_take_body(s).0 + spec_take_body(s).1 =~= s);
    } else {
        lemma_take_body(s.skip(1));
        let (b1, r1) = spec_take_body(s.skip(1));
        assert(spec_take_body(s).0 == seq![s[0]] + b1);
        assert(spec_take_body(s).1 == r1);
        assert(b1 + r1 == s.skip(1));
        assert(seq![s[0]] + s.skip(1) =~= s);
        assert((seq![s[0]] + b1) + r1 =~= seq![s[0]] + (b1 + r1));
        assert(spec_take_body(s).0 + spec_take_body(s).1 == s);
        let b = spec_take_body(s).0;
        let b1 = spec_take_body(s.skip(1)).0;
        assert(forall|i: int| 0 <= i < b.len() ==> (#[trigger] b[i]).code != 0) by {
            assert(forall|i: int|
                1 <= i < b.len() ==> b[i] == (#[trigger] b1[i - 1]));
        }
    }
}

/// Skips pairs up to the next section terminator, which is left on the
/// stream; the end of the stream is tolerated.
pub open spec fn spec_swallow_section(s: Seq<SpecPair>) -> Parsed<()>
    decreases s.len(),
{
    if s.len() == 0 {
        Parsed::Done { value: (), rest: s }
    } else {
        let p = s[0];
        if p.code == 0 {
            match p.value {
                SpecValue::S { s: name } => {
                    if name == "ENDSEC"@ {
                        Parsed::Done { value: (), rest: s }
                    } else {
                        spec_swallow_section(s.skip(1))
                    }
                },
                _ => Parsed::Fail { err: SpecError::ParseError { message: msg_string_expected() } },
            }
        } else {
            spec_swallow_section(s.skip(1))
        }
    }
}

/// What a section skip leaves is part of what it was given.
pub proof fn lemma_swallow_section_len(s: Seq<SpecPair>)
    ensures
        spec_swallow_section(s) matches Parsed::Done { rest, .. } ==> rest.len() <= s.len(),
    decreases s.len(),
{
    if s.len() > 0 {
        lemma_swallow_section_len(s.skip(1));
    }
}

/// Skips pairs up to the next table, table terminator or section
/// terminator, which is left on the stream; here the end of the stream is
/// an error.
pub open spec fn spec_swallow_table(s: Seq<SpecPair>) -> Parsed<()>
    decreases s.len(),
{
    if s.len() == 0 {
        Parsed::Fail { err: SpecError::UnexpectedEndOfInput }
    } else {
        let p = s[0];
        if p.code == 0 {
            match p.value {
                SpecValue::S { s: name } => {
                    if name == "TABLE"@ || name == "ENDSEC"@ || name == "ENDTAB"@ {
                        Parsed::Done { value: (), rest: s }
                    } else {
                        spec_swallow_table(s.skip(1))
                    }
                },
                _ => Parsed::Fail { err: SpecError::ParseError { message: msg_string_expected() } },
            }
        } else {
            spec_swallow_table(s.skip(1))
        }
    }
}

/// What a table skip leaves is part of what it was given.
pub proof fn lemma_swallow_table_len(s: Seq<SpecPair>)
    ensures
        spec_swallow_table(s) matches Parsed::Done { rest, .. } ==> rest.len() <= s.len(),
    decreases s.len(),
{
    if s.len() > 0 {
        lemma_swallow_table_len(s.skip(1));
    }
}

/// Reads header variables until the next code-0 marker, which is left on
/// the stream.  The revision and handle variables are interpreted; every
/// other variable is tolerated and ignored.
pub open spec fn spec_read_header(h: Header, s: Seq<SpecPair>) -> Parsed<Header>
    decreases s.len(),
{
    if s.len() == 0 {
        Parsed::Done { value: h, rest: s }
    } else {
        let p = s[0];
        if p.code == 0 {
            Parsed::Done { value: h, rest: s }
        } else if p.code == 9 && p.value == (SpecValue::S { s: "$ACADVER"@ }) {
            if s.len() >= 2 && s[1].code == 1 && s[1].value is S {
                match AcadVersion::spec_from_id(s[1].value->s) {
                    Some(v) => spec_read_header(Header { version: v, ..h }, s.skip(2)),
                    None => Parsed::Fail {
                        err: SpecError::ParseError { message: msg_unknown_version() },
                    },
                }
            } else {
                spec_read_header(h, s.skip(1))
            }
        } else if p.code == 9 && p.value == (SpecValue::S { s: "$HANDLING"@ }) {
            if s.len() >= 2 && s[1].code == 70 && s[1].value is I {
                spec_read_header(
                    Header { handles_enabled: s[1].value->i != 0, ..h },
                    s.skip(2),
                )
            } else {
                spec_read_header(h, s.skip(1))
            }
        } else {
            spec_read_header(h, s.skip(1))
        }
    }
}

/// What the header reader leaves is part of what it was given.
pub proof fn lemma_read_header_len(h: Header, s: Seq<SpecPair>)
    ensures
        spec_read_header(h, s) matches Parsed::Done { rest, .. } ==> rest.len() <= s.len(),
    decreases s.len(),
{
    if s.len() > 0 {
        let p = s[0];
        if p.code == 0 {
        } else if p.code == 9 && p.value == (SpecValue::S { s: "$ACADVER"@ }) {
            if s.len() >= 2 && s[1].code == 1 && s[1].value is S {
                match AcadVersion::spec_from_id(s[1].value->s) {
                    Some(v) => {
                        lemma_read_header_len(Header { version: v, ..h }, s.skip(2));
                    },
                    None => {
                    },
                }
            } else {
                lemma_read_header_len(h, s.skip(1));
            }
        } else if p.code == 9 && p.value == (SpecValue::S { s: "$HANDLING"@ }) {
            if s.len() >= 2 && s[1].code == 70 && s[1].value is I {
                lemma_read_header_len(
                    Header { handles_enabled: s[1].value->i != 0, ..h },
                    s.skip(2),
                );
            } else {
                lemma_read_header_len(h, s.skip(1));
            }
        } else {
            lemma_read_header_len(h, s.skip(1));
        }
    }
}

/// Reads class entries until the section terminator, which is left on the
/// stream; the end of the stream is tolerated and caught by the framing
/// check of the dispatcher.
pub open spec fn spec_read_classes(cs: Seq<Seq<SpecPair>>, s: Seq<SpecPair>) -> Parsed<
    Seq<Seq<SpecPair>>,
>
    decreases s.len(),
{
    if s.len() == 0 {
        Parsed::Done { value: cs, rest: s }
    } else {
        let p = s[0];
        if p.code == 0 {
            match p.value {
                SpecValue::S { s: name } => {
                    if name == "ENDSEC"@ {
                        Parsed::Done { value: cs, rest: s }
                    } else if name == "CLASS"@ {
                        {
                            proof {
                                lemma_take_body(s.skip(1));
                            }
                            let (body, r) = spec_take_body(s.skip(1));
                            spec_read_classes(cs.push(body), r)
                        }
                    } else {
                        Parsed::Fail {
                            err: SpecError::UnexpectedCodePair {
                                pair: p,
                                expected: "expected 0/CLASS or 0/ENDSEC"@,
                            },
                        }
                    }
                },
                _ => Parsed::Fail { err: SpecError::ParseError { message: msg_string_expected() } },
            }
        } else {
            Parsed::Fail {
                err: SpecError::UnexpectedCodePair {
                    pair: p,
                    expected: "expected 0/CLASS or 0/ENDSEC"@,
                },
            }
        }
    }
}

/// What the class reader leaves is part of what it was given.
pub proof fn lemma_read_classes_len(cs: Seq<Seq<SpecPair>>, s: Seq<SpecPair>)
    ensures
        spec_read_classes(cs, s) matches Parsed::Done { rest, .. } ==> rest.len() <= s.len(),
    decreases s.len(),
{
    if s.len() > 0 {
        let p = s[0];
        if p.code == 0 && p.value is S && p.value->s != "ENDSEC"@ && p.value->s == "CLASS"@ {
            lemma_take_body(s.skip(1));
            let (body, r) = spec_take_body(s.skip(1));
            lemma_read_classes_len(cs.push(body), r);
        }
    }
}

/// Reads the records of one table up to and including its terminator.
/// Pairs that belong to the table itself rather than to a record are
/// tolerated and ignored.
pub open spec fn spec_read_records(kind: TableKind, d: SpecDrawing, s: Seq<SpecPair>) -> Parsed<
    SpecDrawing,
>
    decreases s.len(),
{
    if s.len() == 0 {
        Parsed::Fail { err: SpecError::UnexpectedEndOfInput }
    } else {
        let p = s[0];
        if p.code != 0 {
            spec_read_records(kind, d, s.skip(1))
        } else {
            match p.value {
                SpecValue::S { s: name } => {
                    if name == "ENDTAB"@ {
                        Parsed::Done { value: d, rest: s.skip(1) }
                    } else if name == kind.spec_name() {
                        {
                            proof {
                                lemma_take_body(s.skip(1));
                            }
                            let (body, r) = spec_take_body(s.skip(1));
                            spec_read_records(kind, d.push_table_record(kind, body), r)
                        }
                    } else {
                        Parsed::Fail {
                            err: SpecError::UnexpectedCodePair {
                                pair: p,
                                expected: "expected table record or 0/ENDTAB"@,
                            },
                        }
                    }
                },
                _ => Parsed::Fail { err: SpecError::ParseError { message: msg_string_expected() } },
            }
        }
    }
}

/// What the record reader leaves is part of what it was given.
pub proof fn lemma_read_records_len(kind: TableKind, d: SpecDrawing, s: Seq<SpecPair>)
    ensures
        spec_read_records(kind, d, s) matches Parsed::Done { rest, .. } ==> rest.len() <= s.len(),
    decreases s.len(),
{
    if s.len() > 0 {
        let p = s[0];
        if p.code != 0 {
            lemma_read_records_len(kind, d, s.skip(1));
        } else if p.value is S && p.value->s != "ENDTAB"@ && p.value->s == kind.spec_name() {
            lemma_take_body(s.skip(1));
            let (body, r) = spec_take_body(s.skip(1));
            lemma_read_records_len(kind, d.push_table_record(kind, body), r);
        }
    }
}

/// Reads one table: its name pair, then its records.  A table of unknown
/// name is skipped whole, its own terminator included.
pub open spec fn spec_read_table(d: SpecDrawing, s: Seq<SpecPair>) -> Parsed<SpecDrawing> {
    if s.len() == 0 {
        Parsed::Fail { err: SpecError::UnexpectedEndOfInput }
    } else {
        let q = s[0];
        if !(q.code == 2 && q.value is S) {
            Parsed::Fail {
                err: SpecError::UnexpectedCodePair { pair: q, expected: "expected 2/<table-name>"@ },
            }
        } else {
            match TableKind::spec_from_name(q.value->s) {
                Some(kind) => spec_read_records(kind, d, s.skip(1)),
                None => match spec_swallow_table(s.skip(1)) {
                    Parsed::Done { rest: r, .. } => {
                        if r.len() > 0 && is_marker(r[0], "ENDTAB"@) {
                            Parsed::Done { value: d, rest: r.skip(1) }
                        } else {
                            Parsed::Done { value: d, rest: r }
                        }
                    },
                    Parsed::Fail { err } => Parsed::Fail { err },
                },
            }
        }
    }
}

/// What the table reader leaves is part of what it was given.
pub proof fn lemma_read_table_len(d: SpecDrawing, s: Seq<SpecPair>)
    ensures
        spec_read_table(d, s) matches Parsed::Done { rest, .. } ==> rest.len() <= s.len(),
{
    if s.len() > 0 {
        let q = s[0];
        if q.code == 2 && q.value is S {
            match TableKind::spec_from_name(q.value->s) {
                Some(kind) => {
                    lemma_read_records_len(kind, d, s.skip(1));
                },
                None => {
                    lemma_swallow_table_len(s.skip(1));
                },
            }
        }
    }
}

/// Reads the body of one block up to and including its own end marker.
pub open spec fn spec_read_block(s: Seq<SpecPair>) -> Parsed<Seq<SpecPair>> {
    let (body, r) = spec_take_body(s);
    if r.len() == 0 {
        Parsed::Fail { err: SpecError::UnexpectedEndOfInput }
    } else {
        let p = r[0];
        match p.value {
            SpecValue::S { s: name } => {
                if name == "ENDBLK"@ {
                    Parsed::Done { value: body, rest: r.skip(1) }
                } else {
                    Parsed::Fail {
                        err: SpecError::UnexpectedCodePair {
                            pair: p,
                            expected: "expected 0/ENDBLK"@,
                        },
                    }
                }
            },
            _ => Parsed::Fail { err: SpecError::ParseError { message: msg_string_expected() } },
        }
    }
}

/// What the block reader leaves is part of what it was given.
pub proof fn lemma_read_block_len(s: Seq<SpecPair>)
    ensures
        spec_read_block(s) matches Parsed::Done { rest, .. } ==> rest.len() <= s.len(),
{
    lemma_take_body(s);
}

/// The two strategies of the repeated-item reader: the tables section
/// collects tables, the blocks section collects blocks.
#[derive(Clone, Copy, Debug, PartialEq, Eq, Structural)]
pub enum ItemKind {
    Tables,
    Blocks,
}

impl ItemKind {
    /// The marker every item of the section must announce itself with.
    pub open spec fn spec_tag(self) -> Seq<char> {
        match self {
            ItemKind::Tables => "TABLE"@,
            ItemKind::Blocks => "BLOCK"@,
        }
    }
}

/// Reads one item of the repeated-item loop.
pub open spec fn spec_read_one_item(kind: ItemKind, d: SpecDrawing, s: Seq<SpecPair>) -> Parsed<
    SpecDrawing,
> {
    match kind {
        ItemKind::Tables => spec_read_table(d, s),
        ItemKind::Blocks => match spec_read_block(s) {
            Parsed::Done { value: body, rest } => Parsed::Done {
                value: SpecDrawing { blocks: d.blocks.push(body), ..d },
                rest,
            },
            Parsed::Fail { err } => Parsed::Fail { err },
        },
    }
}

/// What one item leaves is part of what it was given.
pub proof fn lemma_read_one_item_len(kind: ItemKind, d: SpecDrawing, s: Seq<SpecPair>)
    ensures
        spec_read_one_item(kind, d, s) matches Parsed::Done { rest, .. } ==> rest.len() <= s.len(),
{
    match kind {
        ItemKind::Tables => lemma_read_table_len(d, s),
        ItemKind::Blocks => lemma_read_block_len(s),
    }
}

/// The repeated-item loop: reads items of one expected tag until the
/// section terminator, which is left on the stream.  A marker of any other
/// name, a pair of any other code, and the end of the stream are errors.
pub open spec fn spec_read_items(kind: ItemKind, d: SpecDrawing, s: Seq<SpecPair>) -> Parsed<
    SpecDrawing,
>
    decreases s.len(),
{
    if s.len() == 0 {
        Parsed::Fail { err: SpecError::UnexpectedEndOfInput }
    } else {
        let p = s[0];
        if p.code != 0 {
            Parsed::Fail {
                err: SpecError::UnexpectedCodePair { pair: p, expected: Seq::empty() },
            }
        } else {
            match p.value {
                SpecValue::S { s: name } => {
                    if name == "ENDSEC"@ {
                        Parsed::Done { value: d, rest: s }
                    } else if name == kind.spec_tag() {
                        match spec_read_one_item(kind, d, s.skip(1)) {
                            Parsed::Done { value: d2, rest: r2 } => {
                                proof {
                                    lemma_read_one_item_len(kind, d, s.skip(1));
                                }
                                spec_read_items(kind, d2, r2)
                            },
                            Parsed::Fail { err } => Parsed::Fail { err },
                        }
                    } else {
                        Parsed::Fail {
                            err: SpecError::UnexpectedCodePair { pair: p, expected: Seq::empty() },
                        }
                    }
                },
                _ => Parsed::Fail { err: SpecError::ParseError { message: msg_string_expected() } },
            }
        }
    }
}

/// What the repeated-item loop leaves is part of what it was given.
pub proof fn lemma_read_items_len(kind: ItemKind, d: SpecDrawing, s: Seq<SpecPair>)
    ensures
        spec_read_items(kind, d, s) matches Parsed::Done { rest, .. } ==> rest.len() <= s.len(),
    decreases s.len(),
{
    if s.len() > 0 {
        let p = s[0];
        if p.code == 0 && p.value is S && p.value->s != "ENDSEC"@ && p.value->s
            == kind.spec_tag() {
            lemma_read_one_item_len(kind, d, s.skip(1));
            if let Parsed::Done { value: d2, rest: r2 } = spec_read_one_item(kind, d, s.skip(1)) {
                lemma_read_items_len(kind, d2, r2);
            }
        }
    }
}

/// Reads entities or objects until the section terminator, which is left
/// on the stream; the end of the stream is tolerated and caught by the
/// framing check of the dispatcher.
pub open spec fn spec_read_named_items(rs: Seq<SpecRecord>, s: Seq<SpecPair>) -> Parsed<
    Seq<SpecRecord>,
>
    decreases s.len(),
{
    if s.len() == 0 {
        Parsed::Done { value: rs, rest: s }
    } else {
        let p = s[0];
        if p.code != 0 {
            Parsed::Fail {
                err: SpecError::UnexpectedCodePair {
                    pair: p,
                    expected: "expected 0/<item-type>"@,
                },
            }
        } else {
            match p.value {
                SpecValue::S { s: name } => {
                    if name == "ENDSEC"@ {
                        Parsed::Done { value: rs, rest: s }
                    } else {
                        {
                            proof {
                                lemma_take_body(s.skip(1));
                            }
                            let (body, r) = spec_take_body(s.skip(1));
                            spec_read_named_items(rs.push(SpecRecord { name, pairs: body }), r)
                        }
                    }
                },
                _ => Parsed::Fail { err: SpecError::ParseError { message: msg_string_expected() } },
            }
        }
    }
}

/// What the entity and object reader leaves is part of what it was given.
pub proof fn lemma_read_named_items_len(rs: Seq<SpecRecord>, s: Seq<SpecPair>)
    ensures
        spec_read_named_items(rs, s) matches Parsed::Done { rest, .. } ==> rest.len() <= s.len(),
    decreases s.len(),
{
    if s.len() > 0 {
        let p = s[0];
        if p.code == 0 && p.value is S && p.value->s != "ENDSEC"@ {
            lemma_take_body(s.skip(1));
            let (body, r) = spec_take_body(s.skip(1));
            lemma_read_named_items_len(rs.push(SpecRecord { name: p.value->s, pairs: body }), r);
        }
    }
}

/// The four little-endian bytes of the low thirty-two bits of a length.
pub open spec fn le4(n: int) -> Seq<u8> {
    seq![
        (n % 256) as u8,
        ((n / 256) % 256) as u8,
        ((n / 65536) % 256) as u8,
        ((n / 16777216) % 256) as u8,
    ]
}

/// The synthesized fourteen-byte bitmap-file header: the magic bytes, the
/// payload length, two reserved fields, and the fixed pixel-data offset.
pub open spec fn spec_bmp_header(payload_len: int) -> Seq<u8> {
    seq![66u8, 77u8] + le4(payload_len % 0x1_0000_0000) + seq![0u8, 0u8, 0u8, 0u8] + seq![
        0x36u8,
        0x04u8,
        0u8,
        0u8,
    ]
}

/// Reads hex runs, accumulating their bytes, until a code-0 marker (left
/// on the stream) or the end of the stream.
pub open spec fn spec_read_hex_runs(acc: Seq<u8>, s: Seq<SpecPair>) -> Parsed<Seq<u8>>
    decreases s.len(),
{
    if s.len() == 0 {
        Parsed::Done { value: acc, rest: s }
    } else {
        let p = s[0];
        if p.code == 0 {
            Parsed::Done { value: acc, rest: s }
        } else if p.code == 310 {
            match p.value {
                SpecValue::S { s: run } => match spec_hex_decode(run) {
                    Some(bytes) => spec_read_hex_runs(acc + bytes, s.skip(1)),
                    None => Parsed::Fail {
                        err: SpecError::ParseError { message: "malformed hex data"@ },
                    },
                },
                _ => Parsed::Fail { err: SpecError::ParseError { message: msg_string_expected() } },
            }
        } else {
            Parsed::Fail { err: SpecError::UnexpectedCode { code: p.code } }
        }
    }
}

/// What the hex-run reader leaves is part of what it was given.
pub proof fn lemma_read_hex_runs_len(acc: Seq<u8>, s: Seq<SpecPair>)
    ensures
        spec_read_hex_runs(acc, s) matches Parsed::Done { rest, .. } ==> rest.len() <= s.len(),
    decreases s.len(),
{
    if s.len() > 0 {
        let p = s[0];
        if p.code != 0 && p.code == 310 && p.value is S {
            if let Some(bytes) = spec_hex_decode(p.value->s) {
                lemma_read_hex_runs_len(acc + bytes, s.skip(1));
            }
        }
    }
}

/// Reads the thumbnail section: a declared length (an integer whose value
/// is not relied upon), then hex runs.  The produced buffer is the
/// synthesized bitmap header, its length field set from the bytes actually
/// read, followed by the payload.
pub open spec fn spec_read_thumbnail(s: Seq<SpecPair>) -> Parsed<Seq<u8>> {
    if s.len() == 0 {
        Parsed::Fail { err: SpecError::UnexpectedEndOfInput }
    } else {
        let p = s[0];
        if p.code != 90 {
            Parsed::Fail { err: SpecError::UnexpectedCode { code: p.code } }
        } else if !(p.value is I) {
            Parsed::Fail { err: SpecError::ParseError { message: msg_int_expected() } }
        } else {
            match spec_read_hex_runs(Seq::empty(), s.skip(1)) {
                Parsed::Done { value: payload, rest } => Parsed::Done {
                    value: spec_bmp_header(payload.len() as int) + payload,
                    rest,
                },
                Parsed::Fail { err } => Parsed::Fail { err },
            }
        }
    }
}

/// What the thumbnail reader leaves is part of what it was given.
pub proof fn lemma_read_thumbnail_len(s: Seq<SpecPair>)
    ensures
        spec_read_thumbnail(s) matches Parsed::Done { rest, .. } ==> rest.len() <= s.len(),
{
    if s.len() > 0 {
        lemma_read_hex_runs_len(Seq::empty(), s.skip(1));
    }
}

/// Routes one named section to its handler.  An unknown name is skipped,
/// not an error.
pub open spec fn spec_dispatch(d: SpecDrawing, name: Seq<char>, s: Seq<SpecPair>) -> Parsed<
    SpecDrawing,
> {
    if name == "HEADER"@ {
        match spec_read_header(Header::spec_default(), s) {
            Parsed::Done { value: h, rest } => Parsed::Done {
                value: SpecDrawing { header: h, ..d },
                rest,
            },
            Parsed::Fail { err } => Parsed::Fail { err },
        }
    } else if name == "CLASSES"@ {
        match spec_read_classes(d.classes, s) {
            Parsed::Done { value: cs, rest } => Parsed::Done {
                value: SpecDrawing { classes: cs, ..d },
                rest,
            },
            Parsed::Fail { err } => Parsed::Fail { err },
        }
    } else if name == "TABLES"@ {
        spec_read_items(ItemKind::Tables, d, s)
    } else if name == "BLOCKS"@ {
        spec_read_items(ItemKind::Blocks, d, s)
    } else if name == "ENTITIES"@ {
        match spec_read_named_items(d.entities, s) {
            Parsed::Done { value: es, rest } => Parsed::Done {
                value: SpecDrawing { entities: es, ..d },
                rest,
            },
            Parsed::Fail { err } => Parsed::Fail { err },
        }
    } else if name == "OBJECTS"@ {
        match spec_read_named_items(d.objects, s) {
            Parsed::Done { value: os, rest } => Parsed::Done {
                value: SpecDrawing { objects: os, ..d },
                rest,
            },
            Parsed::Fail { err } => Parsed::Fail { err },
        }
    } else if name == "THUMBNAILIMAGE"@ {
        match spec_read_thumbnail(s) {
            Parsed::Done { value: t, rest } => Parsed::Done {
                value: SpecDrawing { thumbnail: Some(t), ..d },
                rest,
            },
            Parsed::Fail { err } => Parsed::Fail { err },
        }
    } else {
        match spec_swallow_section(s) {
            Parsed::Done { rest, .. } => Parsed::Done { value: d, rest },
            Parsed::Fail { err } => Parsed::Fail { err },
        }
    }
}

/// What a section handler leaves is part of what it was given.
pub proof fn lemma_dispatch_len(d: SpecDrawing, name: Seq<char>, s: Seq<SpecPair>)
    ensures
        spec_dispatch(d, name, s) matches Parsed::Done { rest, .. } ==> rest.len() <= s.len(),
{
    lemma_read_header_len(Header::spec_default(), s);
    lemma_read_classes_len(d.classes, s);
    lemma_read_items_len(ItemKind::Tables, d, s);
    lemma_read_items_len(ItemKind::Blocks, d, s);
    lemma_read_named_items_len(d.entities, s);
    lemma_read_named_items_len(d.objects, s);
    lemma_read_thumbnail_len(s);
    lemma_swallow_section_len(s);
}

/// The top-level state machine.  Section markers are read until the
/// end-of-file marker, which is left on the stream, or the end of the
/// stream, which is tolerated.  After each handler, the section terminator
/// itself is checked here, so that a handler can never read past its own
/// section unnoticed.
pub open spec fn spec_read_sections(d: SpecDrawing, s: Seq<SpecPair>) -> Parsed<SpecDrawing>
    decreases s.len(),
{
    if s.len() == 0 {
        Parsed::Done { value: d, rest: s }
    } else {
        let p = s[0];
        if p.code == 0 {
            match p.value {
                SpecValue::S { s: name } => {
                    if name == "EOF"@ {
                        Parsed::Done { value: d, rest: s }
                    } else if name == "SECTION"@ {
                        if s.len() == 1 {
                            Parsed::Fail { err: SpecError::UnexpectedEndOfInput }
                        } else {
                            let q = s[1];
                            if !(q.code == 2 && q.value is S) {
                                Parsed::Fail {
                                    err: SpecError::UnexpectedCodePair {
                                        pair: q,
                                        expected: "expected 2/<section-name>"@,
                                    },
                                }
                            } else {
                                match spec_dispatch(d, q.value->s, s.skip(2)) {
                                    Parsed::Done { value: d2, rest: r2 } => {
                                        if r2.len() == 0 {
                                            Parsed::Fail { err: SpecError::UnexpectedEndOfInput }
                                        } else if is_marker(r2[0], "ENDSEC"@) {
                                            {
                                                proof {
                                                    lemma_dispatch_len(d, q.value->s, s.skip(2));
                                                }
                                                spec_read_sections(d2, r2.skip(1))
                                            }
                                        } else {
                                            Parsed::Fail {
                                                err: SpecError::UnexpectedCodePair {
                                                    pair: r2[0],
                                                    expected: "expected 0/ENDSEC"@,
                                                },
                                            }
                                        }
                                    },
                                    Parsed::Fail { err } => Parsed::Fail { err },
                                }
                            }
                        }
                    } else {
                        Parsed::Fail {
                            err: SpecError::UnexpectedCodePair {
                                pair: p,
                                expected: "expected 0/SECTION"@,
                            },
                        }
                    }
                },
                _ => Parsed::Fail { err: SpecError::ParseError { message: msg_string_expected() } },
            }
        } else {
            Parsed::Fail {
                err: SpecError::UnexpectedCodePair {
                    pair: p,
                    expected: "expected 0/SECTION or 0/EOF"@,
                },
            }
        }
    }
}

/// The outcome of loading a whole stream: the drawing it denotes, or the
/// error the reader reports.  A trailing end-of-file marker is consumed;
/// its absence at the true end of the stream is tolerated.
pub open spec fn spec_load(s: Seq<SpecPair>) -> Result<SpecDrawing, SpecError> {
    match spec_read_sections(SpecDrawing::spec_default(), s) {
        Parsed::Done { value: d, rest } => {
            if rest.len() == 0 {
                Ok(d)
            } else if is_marker(rest[0], "EOF"@) {
                Ok(d)
            } else {
                Err(
                    SpecError::UnexpectedCodePair { pair: rest[0], expected: "expected 0/EOF"@ },
                )
            }
        },
        Parsed::Fail { err } => Err(err),
    }
}

/// The fixed first line that selects the legacy binary decode path.
pub open spec fn spec_dxb_signature() -> Seq<char> {
    "AutoCAD DXB 1.0"@
}

/// The format sniffer's decision: true exactly when a first line selects
/// the legacy binary decoder.
pub fn is_dxb_signature(line: &str) -> (r: bool)
    ensures
        r == (line@ == spec_dxb_signature()),
{
    crate::code_pair::str_eq(line, "AutoCAD DXB 1.0")
}

/// True exactly when a pair is the code-0 marker of the given name.
fn marker_is(p: &CodePair, name: &str) -> (r: bool)
    ensures
        r == is_marker(p@, name@),
{
    if p.code != 0 {
        return false;
    }
    match &p.value {
        CodePairValue::Str(s) => crate::code_pair::str_eq(s.as_str(), name),
        _ => false,
    }
}

/// Collects pairs up to the next code-0 marker, which is left on the
/// stream.
fn read_body(iter: &mut CodePairCursor) -> (r: Vec<CodePair>)
    ensures
        pairs_view(r@) == spec_take_body(old(iter)@).0,
        final(iter)@ == spec_take_body(old(iter)@).1,
{
    let mut out: Vec<CodePair> = Vec::new();
    proof {
        assert(pairs_view(out@) =~= Seq::<SpecPair>::empty());
        assert(Seq::<SpecPair>::empty() + spec_take_body(iter@).0 =~= spec_take_body(iter@).0);
    }
    loop
        invariant
            spec_take_body(old(iter)@).0 == pairs_view(out@) + spec_take_body(iter@).0,
            spec_take_body(old(iter)@).1 == spec_take_body(iter@).1,
        decreases iter@.len(),
    {
        let ghost top = iter@;
        let ghost taken = pairs_view(out@);
        match iter.next() {
            None => {
                proof {
                    assert(taken + Seq::<SpecPair>::empty() =~= taken);
                }
                return out;
            },
            Some(pair) => {
                if pair.code == 0 {
                    iter.put_back(pair);
                    proof {
                        assert(spec_take_body(iter@).0 =~= Seq::<SpecPair>::empty());
                        assert(taken + Seq::<SpecPair>::empty() =~= taken);
                    }
                    return out;
                }
                let ghost pv = pair@;
                out.push(pair);
                proof {
                    assert(pairs_view(out@) =~= taken.push(pv));
                    assert(spec_take_body(top).0 == seq![pv] + spec_take_body(iter@).0);
                    assert(taken + (seq![pv] + spec_take_body(iter@).0) =~= taken.push(pv)
                        + spec_take_body(iter@).0);
                }
            },
        }
    }
}

impl ItemKind {
    /// Writes the marker every item of the section must announce itself
    /// with.
    pub fn tag_text(self) -> (r: &'static str)
        ensures
            r@ == self.spec_tag(),
    {
        match self {
            ItemKind::Tables => "TABLE",
            ItemKind::Blocks => "BLOCK",
        }
    }
}

/// Reads hex runs into a buffer that already carries its fourteen header
/// bytes, stopping at a code-0 marker (left on the stream) or at the end
/// of the stream.
fn read_hex_runs(iter: &mut CodePairCursor, data: &mut Vec<u8>) -> (r: DxfResult<()>)
    requires
        old(data)@.len() >= 14,
    ensures
        match spec_read_hex_runs(old(data)@.skip(14), old(iter)@) {
            Parsed::Done { value, rest } => {
                &&& r is Ok
                &&& final(data)@.len() >= 14
                &&& final(data)@.subrange(0, 14) == old(data)@.subrange(0, 14)
                &&& final(data)@.skip(14) == value
                &&& final(iter)@ == rest
            },
            Parsed::Fail { err } => r matches Err(e) && e@ == err,
        },
{
    loop
        invariant
            data@.len() >= 14,
            data@.subrange(0, 14) == old(data)@.subrange(0, 14),
            spec_read_hex_runs(old(data)@.skip(14), old(iter)@) == spec_read_hex_runs(
                data@.skip(14),
                iter@,
            ),
        decreases iter@.len(),
    {
        let ghost acc_top = data@.skip(14);
        match iter.next() {
            None => {
                return Ok(());
            },
            Some(pair) => {
                if pair.code == 0 {
                    iter.put_back(pair);
                    return Ok(());
                } else if pair.code == 310 {
                    match &pair.value {
                        CodePairValue::Str(run) => {
                            let ghost data0 = data@;
                            match parse_hex_string(run.as_str(), data) {
                                Ok(()) => {
                                    proof {
                                        let bytes = spec_hex_decode(run@)->0;
                                        assert(data@.skip(14) =~= acc_top + bytes);
                                        assert(data@.subrange(0, 14) =~= data0.subrange(0, 14));
                                    }
                                },
                                Err(e) => {
                                    return Err(e);
                                },
                            }
                        },
                        _ => {
                            return Err(DxfError::ParseError("string value expected".to_owned()));
                        },
                    }
                } else {
                    return Err(DxfError::UnexpectedCode(pair.code));
                }
            },
        }
    }
}

/// Reads header variables until the next code-0 marker, starting from a
/// default header.
fn read_header(iter: &mut CodePairCursor) -> (r: DxfResult<Header>)
    ensures
        match spec_read_header(Header::spec_default(), old(iter)@) {
            Parsed::Done { value, rest } => {
                &&& r matches Ok(h) && h == value
                &&& final(iter)@ == rest
            },
            Parsed::Fail { err } => r matches Err(e) && e@ == err,
        },
{
    let mut header = Header::default();
    loop
        invariant
            spec_read_header(Header::spec_default(), old(iter)@) == spec_read_header(
                header,
                iter@,
            ),
        decreases iter@.len(),
    {
        let ghost top = iter@;
        match iter.next() {
            None => {
                return Ok(header);
            },
            Some(pair) => {
                if pair.code == 0 {
                    iter.put_back(pair);
                    return Ok(header);
                }
                if pair.code == 9 {
                    match &pair.value {
                        CodePairValue::Str(var) => {
                            if crate::code_pair::str_eq(var.as_str(), "$ACADVER") {
                                match iter.next() {
                                    Some(vp) => {
                                        let mut used = false;
                                        if vp.code == 1 {
                                            match &vp.value {
                                                CodePairValue::Str(id) => {
                                                    match AcadVersion::from_id(id.as_str()) {
                                                        Some(v) => {
                                                            header.version = v;
                                                            used = true;
                                                            proof {
                                                                assert(top.skip(1).skip(1)
                                                                    =~= top.skip(2));
                                                            }
                                                        },
                                                        None => {
                                                            return Err(
                                                                DxfError::ParseError(
                                                                    "unknown drawing version".to_owned(),
                                                                ),
                                                            );
                                                        },
                                                    }
                                                },
                                                _ => {
                                                },
                                            }
                                        }
                                        if !used {
                                            iter.put_back(vp);
                                            proof {
                                                assert(iter@ =~= top.skip(1));
                                            }
                                        }
                                    },
                                    None => {
                                    },
                                }
                            } else if crate::code_pair::str_eq(var.as_str(), "$HANDLING") {
                                match iter.next() {
                                    Some(vp) => {
                                        let mut used = false;
                                        if vp.code == 70 {
                                            match &vp.value {
                                                CodePairValue::Int(i) => {
                                                    header.handles_enabled = *i != 0;
                                                    used = true;
                                                    proof {
                                                        assert(top.skip(1).skip(1) =~= top.skip(
                                                            2,
                                                        ));
                                                    }
                                                },
                                                _ => {
                                                },
                                            }
                                        }
                                        if !used {
                                            iter.put_back(vp);
                                            proof {
                                                assert(iter@ =~= top.skip(1));
                                            }
                                        }
                                    },
                                    None => {
                                    },
                                }
                            }
                        },
                        _ => {
                        },
                    }
                }
            },
        }
    }
}

impl Drawing {
    /// Discards the pairs of a section this codec does not recognize, up
    /// to its terminator, which is left on the stream.
    fn swallow_section(iter: &mut CodePairCursor) -> (r: DxfResult<()>)
        ensures
            match spec_swallow_section(old(iter)@) {
                Parsed::Done { rest, .. } => r is Ok && final(iter)@ == rest,
                Parsed::Fail { err } => r matches Err(e) && e@ == err,
            },
    {
        loop
            invariant
                spec_swallow_section(old(iter)@) == spec_swallow_section(iter@),
            decreases iter@.len(),
        {
            match iter.next() {
                None => {
                    return Ok(());
                },
                Some(pair) => {
                    if pair.code == 0 {
                        match &pair.value {
                            CodePairValue::Str(s) => {
                                if crate::code_pair::str_eq(s.as_str(), "ENDSEC") {
                                    iter.put_back(pair);
                                    return Ok(());
                                }
                            },
                            _ => {
                                return Err(
                                    DxfError::ParseError("string value expected".to_owned()),
                                );
                            },
                        }
                    }
                },
            }
        }
    }

    /// Discards the pairs of a table this codec does not recognize, up to
    /// the next table, table terminator or section terminator, which is
    /// left on the stream.
    pub fn swallow_table(iter: &mut CodePairCursor) -> (r: DxfResult<()>)
        ensures
            match spec_swallow_table(old(iter)@) {
                Parsed::Done { rest, .. } => r is Ok && final(iter)@ == rest,
                Parsed::Fail { err } => r matches Err(e) && e@ == err,
            },
    {
        loop
            invariant
                spec_swallow_table(old(iter)@) == spec_swallow_table(iter@),
            decreases iter@.len(),
        {
            match iter.next() {
                None => {
                    return Err(DxfError::UnexpectedEndOfInput);
                },
                Some(pair) => {
                    if pair.code == 0 {
                        match &pair.value {
                            CodePairValue::Str(s) => {
                                if crate::code_pair::str_eq(s.as_str(), "TABLE")
                                    || crate::code_pair::str_eq(s.as_str(), "ENDSEC")
                                    || crate::code_pair::str_eq(s.as_str(), "ENDTAB") {
                                    iter.put_back(pair);
                                    return Ok(());
                                }
                            },
                            _ => {
                                return Err(
                                    DxfError::ParseError("string value expected".to_owned()),
                                );
                            },
                        }
                    }
                },
            }
        }
    }

    /// Reads class entries, appending them to the drawing.
    fn read_classes(&mut self, iter: &mut CodePairCursor) -> (r: DxfResult<()>)
        ensures
            match spec_read_classes(old(self)@.classes, old(iter)@) {
                Parsed::Done { value, rest } => {
                    &&& r is Ok
                    &&& final(self)@ == (SpecDrawing { classes: value, ..old(self)@ })
                    &&& final(iter)@ == rest
                },
                Parsed::Fail { err } => r matches Err(e) && e@ == err,
            },
    {
        loop
            invariant
                spec_read_classes(old(self)@.classes, old(iter)@) == spec_read_classes(
                    self@.classes,
                    iter@,
                ),
                self@ == (SpecDrawing { classes: self@.classes, ..old(self)@ }),
            decreases iter@.len(),
        {
            let ghost s_top = iter@;
            match iter.next() {
                None => {
                    proof {
                        assert(self@ =~= (SpecDrawing { classes: self@.classes, ..old(self)@ }));
                    }
                    return Ok(());
                },
                Some(pair) => {
                    if pair.code != 0 {
                        return Err(
                            DxfError::UnexpectedCodePair(
                                pair,
                                "expected 0/CLASS or 0/ENDSEC".to_owned(),
                            ),
                        );
                    }
                    match &pair.value {
                        CodePairValue::Str(s) => {
                            if crate::code_pair::str_eq(s.as_str(), "ENDSEC") {
                                iter.put_back(pair);
                                return Ok(());
                            } else if crate::code_pair::str_eq(s.as_str(), "CLASS") {
                                let ghost cs0 = self@.classes;
                                let body = read_body(iter);
                                let ghost bv = pairs_view(body@);
                                self.classes.push(Class { pairs: body });
                                proof {
                                    lemma_take_body(s_top.skip(1));
                                    assert(self@.classes =~= cs0.push(bv));
                                    assert(self@ =~= (SpecDrawing {
                                        classes: self@.classes,
                                        ..old(self)@
                                    }));
                                }
                            } else {
                                return Err(
                                    DxfError::UnexpectedCodePair(
                                        pair,
                                        "expected 0/CLASS or 0/ENDSEC".to_owned(),
                                    ),
                                );
                            }
                        },
                        _ => {
                            return Err(DxfError::ParseError("string value expected".to_owned()));
                        },
                    }
                },
            }
        }
    }

    /// Appends one record to the table of the given kind.
    fn push_table_record(&mut self, kind: TableKind, rec: TableRecord)
        ensures
            final(self)@ == old(self)@.push_table_record(kind, rec@),
    {
        let ghost rv = rec@;
        match kind {
            TableKind::AppIds => {
                self.app_ids.push(rec);
                proof {
                    assert(self@ =~= old(self)@.push_table_record(kind, rv));
                }
            },
            TableKind::BlockRecords => {
                self.block_records.push(rec);
                proof {
                    assert(self@ =~= old(self)@.push_table_record(kind, rv));
                }
            },
            TableKind::DimStyles => {
                self.dim_styles.push(rec);
                proof {
                    assert(self@ =~= old(self)@.push_table_record(kind, rv));
                }
            },
            TableKind::Layers => {
                self.layers.push(rec);
                proof {
                    assert(self@ =~= old(self)@.push_table_record(kind, rv));
                }
            },
            TableKind::LineTypes => {
                self.line_types.push(rec);
                proof {
                    assert(self@ =~= old(self)@.push_table_record(kind, rv));
                }
            },
            TableKind::Styles => {
                self.styles.push(rec);
                proof {
                    assert(self@ =~= old(self)@.push_table_record(kind, rv));
                }
            },
            TableKind::Ucs => {
                self.ucs.push(rec);
                proof {
                    assert(self@ =~= old(self)@.push_table_record(kind, rv));
                }
            },
            TableKind::Views => {
                self.views.push(rec);
                proof {
                    assert(self@ =~= old(self)@.push_table_record(kind, rv));
                }
            },
            TableKind::ViewPorts => {
                self.view_ports.push(rec);
                proof {
                    assert(self@ =~= old(self)@.push_table_record(kind, rv));
                }
            },
        }
    }

    /// Reads the records of one table up to and including its terminator.
    fn read_table_records(&mut self, kind: TableKind, iter: &mut CodePairCursor) -> (r: DxfResult<
        (),
    >)
        ensures
            match spec_read_records(kind, old(self)@, old(iter)@) {
                Parsed::Done { value, rest } => {
                    &&& r is Ok
                    &&& final(self)@ == value
                    &&& final(iter)@ == rest
                },
                Parsed::Fail { err } => r matches Err(e) && e@ == err,
            },
    {
        loop
            invariant
                spec_read_records(kind, old(self)@, old(iter)@) == spec_read_records(
                    kind,
                    self@,
                    iter@,
                ),
            decreases iter@.len(),
        {
            let ghost s_top = iter@;
            match iter.next() {
                None => {
                    return Err(DxfError::UnexpectedEndOfInput);
                },
                Some(pair) => {
                    if pair.code != 0 {
                        continue ;
                    }
                    match &pair.value {
                        CodePairValue::Str(s) => {
                            if crate::code_pair::str_eq(s.as_str(), "ENDTAB") {
                                return Ok(());
                            } else if crate::code_pair::str_eq(s.as_str(), kind.name_text()) {
                                let body = read_body(iter);
                                self.push_table_record(kind, TableRecord { pairs: body });
                                proof {
                                    lemma_take_body(s_top.skip(1));
                                }
                            } else {
                                return Err(
                                    DxfError::UnexpectedCodePair(
                                        pair,
                                        "expected table record or 0/ENDTAB".to_owned(),
                                    ),
                                );
                            }
                        },
                        _ => {
                            return Err(DxfError::ParseError("string value expected".to_owned()));
                        },
                    }
                },
            }
        }
    }

    /// Reads one table: its name, then its records; a table of unknown
    /// name is skipped whole.
    fn read_table(&mut self, iter: &mut CodePairCursor) -> (r: DxfResult<()>)
        ensures
            match spec_read_table(old(self)@, old(iter)@) {
                Parsed::Done { value, rest } => {
                    &&& r is Ok
                    &&& final(self)@ == value
                    &&& final(iter)@ == rest
                },
                Parsed::Fail { err } => r matches Err(e) && e@ == err,
            },
    {
        match iter.next() {
            None => Err(DxfError::UnexpectedEndOfInput),
            Some(pair) => {
                if pair.code != 2 {
                    return Err(
                        DxfError::UnexpectedCodePair(pair, "expected 2/<table-name>".to_owned()),
                    );
                }
                match &pair.value {
                    CodePairValue::Str(s) => {
                        match TableKind::from_name(s.as_str()) {
                            Some(kind) => self.read_table_records(kind, iter),
                            None => {
                                match Drawing::swallow_table(iter) {
                                    Err(e) => {
                                        return Err(e);
                                    },
                                    Ok(()) => {
                                    },
                                }
                                match iter.next() {
                                    Some(p) => {
                                        if marker_is(&p, "ENDTAB") {
                                            // consumed with the skipped table
                                        } else {
                                            iter.put_back(p);
                                        }
                                    },
                                    None => {
                                    },
                                }
                                Ok(())
                            },
                        }
                    },
                    _ => Err(
                        DxfError::UnexpectedCodePair(pair, "expected 2/<table-name>".to_owned()),
                    ),
                }
            },
        }
    }

    /// Reads one block's body up to and including its end marker, and
    /// appends the block.
    fn read_block_item(&mut self, iter: &mut CodePairCursor) -> (r: DxfResult<()>)
        ensures
            match spec_read_block(old(iter)@) {
                Parsed::Done { value, rest } => {
                    &&& r is Ok
                    &&& final(self)@ == (SpecDrawing {
                        blocks: old(self)@.blocks.push(value),
                        ..old(self)@
                    })
                    &&& final(iter)@ == rest
                },
                Parsed::Fail { err } => r matches Err(e) && e@ == err,
            },
    {
        let body = read_body(iter);
        match iter.next() {
            None => Err(DxfError::UnexpectedEndOfInput),
            Some(pair) => {
                match &pair.value {
                    CodePairValue::Str(s) => {
                        if crate::code_pair::str_eq(s.as_str(), "ENDBLK") {
                            let ghost bv = pairs_view(body@);
                            self.blocks.push(Block { pairs: body });
                            proof {
                                assert(self@.blocks =~= old(self)@.blocks.push(bv));
                                assert(self@ =~= (SpecDrawing {
                                    blocks: old(self)@.blocks.push(bv),
                                    ..old(self)@
                                }));
                            }
                            Ok(())
                        } else {
                            Err(DxfError::UnexpectedCodePair(pair, "expected 0/ENDBLK".to_owned()))
                        }
                    },
                    _ => Err(DxfError::ParseError("string value expected".to_owned())),
                }
            },
        }
    }

    /// The repeated-item loop shared by the tables and blocks sections:
    /// every item must announce itself with the expected marker; the
    /// section terminator is left on the stream.
    fn read_section_item(&mut self, iter: &mut CodePairCursor, item_type: ItemKind) -> (r:
        DxfResult<()>)
        ensures
            match spec_read_items(item_type, old(self)@, old(iter)@) {
                Parsed::Done { value, rest } => {
                    &&& r is Ok
                    &&& final(self)@ == value
                    &&& final(iter)@ == rest
                },
                Parsed::Fail { err } => r matches Err(e) && e@ == err,
            },
    {
        loop
            invariant
                spec_read_items(item_type, old(self)@, old(iter)@) == spec_read_items(
                    item_type,
                    self@,
                    iter@,
                ),
            decreases iter@.len(),
        {
            let ghost d_top = self@;
            let ghost s_top = iter@;
            match iter.next() {
                None => {
                    return Err(DxfError::UnexpectedEndOfInput);
                },
                Some(pair) => {
                    if pair.code != 0 {
                        return Err(DxfError::UnexpectedCodePair(pair, String::new()));
                    }
                    match &pair.value {
                        CodePairValue::Str(s) => {
                            if crate::code_pair::str_eq(s.as_str(), "ENDSEC") {
                                iter.put_back(pair);
                                return Ok(());
                            } else if crate::code_pair::str_eq(s.as_str(), item_type.tag_text()) {
                                let one = match item_type {
                                    ItemKind::Tables => self.read_table(iter),
                                    ItemKind::Blocks => self.read_block_item(iter),
                                };
                                match one {
                                    Err(e) => {
                                        return Err(e);
                                    },
                                    Ok(()) => {
                                        proof {
                                            lemma_read_one_item_len(item_type, d_top, s_top.skip(1));
                                            assert(spec_read_one_item(item_type, d_top, s_top.skip(1))
                                                == (Parsed::Done { value: self@, rest: iter@ }));
                                        }
                                    },
                                }
                            } else {
                                return Err(DxfError::UnexpectedCodePair(pair, String::new()));
                            }
                        },
                        _ => {
                            return Err(DxfError::ParseError("string value expected".to_owned()));
                        },
                    }
                },
            }
        }
    }

    /// Reads the entities section, appending each entity to the drawing.
    fn read_entities(&mut self, iter: &mut CodePairCursor) -> (r: DxfResult<()>)
        ensures
            match spec_read_named_items(old(self)@.entities, old(iter)@) {
                Parsed::Done { value, rest } => {
                    &&& r is Ok
                    &&& final(self)@ == (SpecDrawing { entities: value, ..old(self)@ })
                    &&& final(iter)@ == rest
                },
                Parsed::Fail { err } => r matches Err(e) && e@ == err,
            },
    {
        loop
            invariant
                spec_read_named_items(old(self)@.entities, old(iter)@) == spec_read_named_items(
                    self@.entities,
                    iter@,
                ),
                self@ == (SpecDrawing { entities: self@.entities, ..old(self)@ }),
            decreases iter@.len(),
        {
            let ghost s_top = iter@;
            match iter.next() {
                None => {
                    proof {
                        assert(self@ =~= (SpecDrawing { entities: self@.entities, ..old(self)@ }));
                    }
                    return Ok(());
                },
                Some(pair) => {
                    if pair.code != 0 {
                        return Err(
                            DxfError::UnexpectedCodePair(
                                pair,
                                "expected 0/<item-type>".to_owned(),
                            ),
                        );
                    }
                    let CodePair { code: _, value } = pair;
                    match value {
                        CodePairValue::Str(name) => {
                            if crate::code_pair::str_eq(name.as_str(), "ENDSEC") {
                                iter.put_back(CodePair::new_string(0, name));
                                return Ok(());
                            } else {
                                let ghost es0 = self@.entities;
                                let ghost nv = name@;
                                let body = read_body(iter);
                                let ghost bv = pairs_view(body@);
                                self.entities.push(Entity { name, pairs: body });
                                proof {
                                    lemma_take_body(s_top.skip(1));
                                    assert(self@.entities =~= es0.push(
                                        SpecRecord { name: nv, pairs: bv },
                                    ));
                                    assert(self@ =~= (SpecDrawing {
                                        entities: self@.entities,
                                        ..old(self)@
                                    }));
                                }
                            }
                        },
                        _ => {
                            return Err(DxfError::ParseError("string value expected".to_owned()));
                        },
                    }
                },
            }
        }
    }

    /// Reads the objects section, appending each object to the drawing.
    fn read_objects(&mut self, iter: &mut CodePairCursor) -> (r: DxfResult<()>)
        ensures
            match spec_read_named_items(old(self)@.objects, old(iter)@) {
                Parsed::Done { value, rest } => {
                    &&& r is Ok
                    &&& final(self)@ == (SpecDrawing { objects: value, ..old(self)@ })
                    &&& final(iter)@ == rest
                },
                Parsed::Fail { err } => r matches Err(e) && e@ == err,
            },
    {
        loop
            invariant
                spec_read_named_items(old(self)@.objects, old(iter)@) == spec_read_named_items(
                    self@.objects,
                    iter@,
                ),
                self@ == (SpecDrawing { objects: self@.objects, ..old(self)@ }),
            decreases iter@.len(),
        {
            let ghost s_top = iter@;
            match iter.next() {
                None => {
                    proof {
                        assert(self@ =~= (SpecDrawing { objects: self@.objects, ..old(self)@ }));
                    }
                    return Ok(());
                },
                Some(pair) => {
                    if pair.code != 0 {
                        return Err(
                            DxfError::UnexpectedCodePair(
                                pair,
                                "expected 0/<item-type>".to_owned(),
                            ),
                        );
                    }
                    let CodePair { code: _, value } = pair;
                    match value {
                        CodePairValue::Str(name) => {
                            if crate::code_pair::str_eq(name.as_str(), "ENDSEC") {
                                iter.put_back(CodePair::new_string(0, name));
                                return Ok(());
                            } else {
                                let ghost os0 = self@.objects;
                                let ghost nv = name@;
                                let body = read_body(iter);
                                let ghost bv = pairs_view(body@);
                                self.objects.push(Object { name, pairs: body });
                                proof {
                                    lemma_take_body(s_top.skip(1));
                                    assert(self@.objects =~= os0.push(
                                        SpecRecord { name: nv, pairs: bv },
                                    ));
                                    assert(self@ =~= (SpecDrawing {
                                        objects: self@.objects,
                                        ..old(self)@
                                    }));
                                }
                            }
                        },
                        _ => {
                            return Err(DxfError::ParseError("string value expected".to_owned()));
                        },
                    }
                },
            }
        }
    }

    /// Reads the thumbnail section: the declared length (whose value is
    /// not relied upon), then hex runs.  The synthesized bitmap header is
    /// prepended and its length field set from the bytes actually read.
    fn read_thumbnail(&mut self, iter: &mut CodePairCursor) -> (r: DxfResult<bool>)
        ensures
            match spec_read_thumbnail(old(iter)@) {
                Parsed::Done { value, rest } => {
                    &&& r matches Ok(b) && b == true
                    &&& final(self)@ == (SpecDrawing { thumbnail: Some(value), ..old(self)@ })
                    &&& final(iter)@ == rest
                },
                Parsed::Fail { err } => r matches Err(e) && e@ == err,
            },
    {
        match iter.next() {
            None => {
                return Err(DxfError::UnexpectedEndOfInput);
            },
            Some(pair) => {
                if pair.code != 90 {
                    return Err(DxfError::UnexpectedCode(pair.code));
                }
                match &pair.value {
                    CodePairValue::Int(_) => {
                    },
                    _ => {
                        return Err(DxfError::ParseError("integer value expected".to_owned()));
                    },
                }
            },
        }
        let ghost s90 = iter@;
        let mut data: Vec<u8> = Vec::new();
        data.push(66u8);
        data.push(77u8);
        data.push(0u8);
        data.push(0u8);
        data.push(0u8);
        data.push(0u8);
        data.push(0u8);
        data.push(0u8);
        data.push(0u8);
        data.push(0u8);
        data.push(0x36u8);
        data.push(0x04u8);
        data.push(0u8);
        data.push(0u8);
        proof {
            assert(data@ =~= seq![
                66u8,
                77u8,
                0u8,
                0u8,
                0u8,
                0u8,
                0u8,
                0u8,
                0u8,
                0u8,
                0x36u8,
                0x04u8,
                0u8,
                0u8,
            ]);
        }
        let ghost hdr0 = data@;
        proof {
            assert(data@.skip(14) =~= Seq::<u8>::empty());
        }
        match read_hex_runs(iter, &mut data) {
            Err(e) => {
                return Err(e);
            },
            Ok(()) => {
            },
        }
        let ghost payload = data@.skip(14);
        let ghost rest_s = iter@;
        proof {
            assert(spec_read_hex_runs(Seq::empty(), s90) == (Parsed::Done {
                value: payload,
                rest: rest_s,
            }));
        }
        let ghost dpre = data@;
        let payload_len = data.len() - 14;
        let m: u64 = (payload_len as u64) % 0x1_0000_0000;
        let b0 = (m % 256) as u8;
        let b1 = ((m / 256) % 256) as u8;
        let b2 = ((m / 65536) % 256) as u8;
        let b3 = ((m / 16777216) % 256) as u8;
        data.set(2, b0);
        data.set(3, b1);
        data.set(4, b2);
        data.set(5, b3);
        proof {
            let n = payload.len() as int % 0x1_0000_0000;
            assert(m as int == n);
            assert(b0 as int == n % 256);
            assert(b1 as int == (n / 256) % 256);
            assert(b2 as int == (n / 65536) % 256);
            assert(b3 as int == (n / 16777216) % 256);
            assert(dpre.subrange(0, 14) =~= hdr0.subrange(0, 14));
            assert(forall|j: int| 0 <= j < 14 ==> #[trigger] dpre[j] == dpre.subrange(0, 14)[j]);
            assert(forall|j: int| 0 <= j < 14 ==> #[trigger] hdr0[j] == hdr0.subrange(0, 14)[j]);
            assert(data@.len() == 14 + payload.len());
            assert(data@[0] == 66u8 && data@[1] == 77u8);
            assert(data@[2] == b0 && data@[3] == b1 && data@[4] == b2 && data@[5] == b3);
            assert(data@[6] == 0u8 && data@[7] == 0u8 && data@[8] == 0u8 && data@[9] == 0u8);
            assert(data@[10] == 0x36u8 && data@[11] == 0x04u8 && data@[12] == 0u8 && data@[13]
                == 0u8);
            assert(data@.skip(14) =~= payload);
            assert(data@ =~= spec_bmp_header(payload.len() as int) + payload);
        }
        self.thumbnail = Some(data);
        proof {
            assert(self@ =~= (SpecDrawing {
                thumbnail: Some(spec_bmp_header(payload.len() as int) + payload),
                ..old(self)@
            }));
        }
        Ok(true)
    }

    /// The top-level state machine: reads sections until the end-of-file
    /// marker, which is left on the stream, or the end of the stream.
    /// Each section's terminator is checked here, after its handler.
    fn read_sections(&mut self, iter: &mut CodePairCursor) -> (r: DxfResult<()>)
        ensures
            match spec_read_sections(old(self)@, old(iter)@) {
                Parsed::Done { value, rest } => {
                    &&& r is Ok
                    &&& final(self)@ == value
                    &&& final(iter)@ == rest
                },
                Parsed::Fail { err } => r matches Err(e) && e@ == err,
            },
    {
        loop
            invariant
                spec_read_sections(old(self)@, old(iter)@) == spec_read_sections(self@, iter@),
            decreases iter@.len(),
        {
            let ghost d_top = self@;
            let ghost s_top = iter@;
            match iter.next() {
                None => {
                    return Ok(());
                },
                Some(pair) => {
                    if pair.code != 0 {
                        return Err(
                            DxfError::UnexpectedCodePair(
                                pair,
                                "expected 0/SECTION or 0/EOF".to_owned(),
                            ),
                        );
                    }
                    match &pair.value {
                        CodePairValue::Str(s) => {
                            if crate::code_pair::str_eq(s.as_str(), "EOF") {
                                iter.put_back(pair);
                                return Ok(());
                            } else if !crate::code_pair::str_eq(s.as_str(), "SECTION") {
                                return Err(
                                    DxfError::UnexpectedCodePair(
                                        pair,
                                        "expected 0/SECTION".to_owned(),
                                    ),
                                );
                            }
                        },
                        _ => {
                            return Err(DxfError::ParseError("string value expected".to_owned()));
                        },
                    }
                    match iter.next() {
                        None => {
                            return Err(DxfError::UnexpectedEndOfInput);
                        },
                        Some(pair2) => {
                            if pair2.code != 2 {
                                return Err(
                                    DxfError::UnexpectedCodePair(
                                        pair2,
                                        "expected 2/<section-name>".to_owned(),
                                    ),
                                );
                            }
                            match pair2.value {
                                CodePairValue::Str(sec_name) => {
                                    proof {
                                        assert(s_top.skip(1).skip(1) =~= s_top.skip(2));
                                    }
                                    let handled = if crate::code_pair::str_eq(
                                        sec_name.as_str(),
                                        "HEADER",
                                    ) {
                                        match read_header(iter) {
                                            Ok(h) => {
                                                self.header = h;
                                                proof {
                                                    assert(self@ =~= (SpecDrawing {
                                                        header: h,
                                                        ..d_top
                                                    }));
                                                }
                                                Ok(())
                                            },
                                            Err(e) => Err(e),
                                        }
                                    } else if crate::code_pair::str_eq(
                                        sec_name.as_str(),
                                        "CLASSES",
                                    ) {
                                        self.read_classes(iter)
                                    } else if crate::code_pair::str_eq(
                                        sec_name.as_str(),
                                        "TABLES",
                                    ) {
                                        self.read_section_item(iter, ItemKind::Tables)
                                    } else if crate::code_pair::str_eq(
                                        sec_name.as_str(),
                                        "BLOCKS",
                                    ) {
                                        self.read_section_item(iter, ItemKind::Blocks)
                                    } else if crate::code_pair::str_eq(
                                        sec_name.as_str(),
                                        "ENTITIES",
                                    ) {
                                        self.read_entities(iter)
                                    } else if crate::code_pair::str_eq(
                                        sec_name.as_str(),
                                        "OBJECTS",
                                    ) {
                                        self.read_objects(iter)
                                    } else if crate::code_pair::str_eq(
                                        sec_name.as_str(),
                                        "THUMBNAILIMAGE",
                                    ) {
                                        match self.read_thumbnail(iter) {
                                            Ok(_) => Ok(()),
                                            Err(e) => Err(e),
                                        }
                                    } else {
                                        Drawing::swallow_section(iter)
                                    };
                                    match handled {
                                        Err(e) => {
                                            return Err(e);
                                        },
                                        Ok(()) => {
                                            proof {
                                                lemma_dispatch_len(d_top, sec_name@, s_top.skip(2));
                                                assert(spec_dispatch(d_top, sec_name@, s_top.skip(2))
                                                    == (Parsed::Done {
                                                    value: self@,
                                                    rest: iter@,
                                                }));
                                            }
                                        },
                                    }
                                    match iter.next() {
                                        None => {
                                            return Err(DxfError::UnexpectedEndOfInput);
                                        },
                                        Some(p3) => {
                                            if marker_is(&p3, "ENDSEC") {
                                                // the terminator closes the section
                                            } else {
                                                return Err(
                                                    DxfError::UnexpectedCodePair(
                                                        p3,
                                                        "expected 0/ENDSEC".to_owned(),
                                                    ),
                                                );
                                            }
                                        },
                                    }
                                },
                                value => {
                                    return Err(
                                        DxfError::UnexpectedCodePair(
                                            CodePair { code: pair2.code, value },
                                            "expected 2/<section-name>".to_owned(),
                                        ),
                                    );
                                },
                            }
                        },
                    }
                },
            }
        }
    }

    /// Loads a drawing from a stream of tagged values.  A trailing
    /// end-of-file marker is consumed; its absence at the true end of the
    /// stream is tolerated, while any other trailing pair is an error.
    pub fn load(pairs: Vec<CodePair>) -> (r: DxfResult<Drawing>)
        ensures
            match spec_load(pairs_view(pairs@)) {
                Ok(d) => r matches Ok(drawing) && drawing@ == d,
                Err(e) => r matches Err(err) && err@ == e,
            },
    {
        let mut drawing = Drawing::default();
        let mut iter = CodePairCursor::new(pairs);
        match drawing.read_sections(&mut iter) {
            Err(e) => {
                return Err(e);
            },
            Ok(()) => {
            },
        }
        match iter.next() {
            Some(p) => {
                if marker_is(&p, "EOF") {
                    Ok(drawing)
                } else {
                    Err(DxfError::UnexpectedCodePair(p, "expected 0/EOF".to_owned()))
                }
            },
            None => Ok(drawing),
        }
    }
}

} // verus!
