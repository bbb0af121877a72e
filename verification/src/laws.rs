//! The codec's laws: properties that relate saving and loading.

use vstd::prelude::*;
use crate::code_pair::{is_marker, spec_int_pair, spec_str_pair, SpecPair, SpecValue};
use crate::drawing::{SpecDrawing, TableKind};
use crate::error::SpecError;
use crate::hex::{lemma_hex_decode_encode, spec_hex_encode};
use crate::reader::{
    lemma_take_body, spec_bmp_header, spec_load, spec_read_hex_runs, spec_read_sections,
    spec_read_thumbnail, spec_swallow_section, spec_take_body, Parsed,
};
use crate::record::body_wf;
use crate::writer::{sec_end, sec_name, sec_start, spec_thumbnail_chunks};

verus! {

/// Splitting at the next marker is exact: a marker-free body followed by a
/// marker (or nothing) is split into exactly those two parts.
pub proof fn lemma_take_body_exact(body: Seq<SpecPair>, rest: Seq<SpecPair>)
    requires
        body_wf(body),
        rest.len() > 0 ==> rest[0].code == 0,
    ensures
        spec_take_body(body + rest) == (body, rest),
    decreases body.len(),
{
    if body.len() == 0 {
        assert(body + rest =~= rest);
        if rest.len() == 0 {
            assert(spec_take_body(rest).0 =~= body);
        } else {
            assert(spec_take_body(rest).0 =~= body);
        }
    } else {
        let s = body + rest;
        assert(s[0] == body[0]);
        assert(s.skip(1) =~= body.skip(1) + rest);
        lemma_take_body_exact(body.skip(1), rest);
        assert(spec_take_body(s).0 =~= body);
        assert(spec_take_body(s).1 == rest);
    }
}

/// Reading back the hex runs that chunking produced yields exactly the
/// bytes that were chunked, and stops at the first marker after them.
pub proof fn lemma_read_hex_runs_of_chunks(acc: Seq<u8>, payload: Seq<u8>, rest: Seq<SpecPair>)
    requires
        rest.len() > 0 ==> rest[0].code == 0,
    ensures
        spec_read_hex_runs(acc, spec_thumbnail_chunks(payload) + rest) == (Parsed::Done {
            value: acc + payload,
            rest,
        }),
    decreases payload.len(),
{
    if payload.len() == 0 {
        assert(spec_thumbnail_chunks(payload) + rest =~= rest);
        assert(acc + payload =~= acc);
    } else {
        let k = if payload.len() < 128 {
            payload.len() as int
        } else {
            128int
        };
        let s = spec_thumbnail_chunks(payload) + rest;
        assert(s[0] == spec_str_pair(310, spec_hex_encode(payload.take(k))));
        lemma_hex_decode_encode(payload.take(k));
        assert(s.skip(1) =~= spec_thumbnail_chunks(payload.skip(k)) + rest);
        lemma_read_hex_runs_of_chunks(acc + payload.take(k), payload.skip(k), rest);
        assert((acc + payload.take(k)) + payload.skip(k) =~= acc + payload);
    }
}

/// Thumbnail idempotence: decoding the section body that encoding a
/// buffer produced yields that buffer back, byte for byte, whenever the
/// buffer carries its synthesized fourteen-byte header.
pub proof fn lemma_thumbnail_round_trip(b: Seq<u8>, rest: Seq<SpecPair>)
    requires
        14 <= b.len(),
        b.subrange(0, 14) == spec_bmp_header(b.len() - 14),
        rest.len() > 0 ==> rest[0].code == 0,
    ensures
        spec_read_thumbnail(
            seq![spec_int_pair(90, b.len() - 14)] + spec_thumbnail_chunks(b.skip(14)) + rest,
        ) == (Parsed::Done { value: b, rest }),
{
    let s = seq![spec_int_pair(90, b.len() - 14)] + spec_thumbnail_chunks(b.skip(14)) + rest;
    assert(s[0] == spec_int_pair(90, b.len() - 14));
    assert(s.skip(1) =~= spec_thumbnail_chunks(b.skip(14)) + rest);
    lemma_read_hex_runs_of_chunks(Seq::empty(), b.skip(14), rest);
    assert(Seq::<u8>::empty() + b.skip(14) =~= b.skip(14));
    let payload = b.skip(14);
    assert(payload.len() == b.len() - 14);
    assert(spec_bmp_header(payload.len() as int) + payload =~= b) by {
        assert(forall|j: int|
            0 <= j < 14 ==> #[trigger] b[j] == b.subrange(0, 14)[j]);
    }
}

/// Unknown-section tolerance: a well-formed section of a name the
/// dispatcher does not recognize is skipped whole — the drawing is exactly
/// what the rest of the stream makes it, and nothing of the skipped
/// content appears in it.
pub proof fn lemma_unknown_section_skipped(
    d: SpecDrawing,
    name: Seq<char>,
    body: Seq<SpecPair>,
    rest: Seq<SpecPair>,
)
    requires
        name != "HEADER"@,
        name != "CLASSES"@,
        name != "TABLES"@,
        name != "BLOCKS"@,
        name != "ENTITIES"@,
        name != "OBJECTS"@,
        name != "THUMBNAILIMAGE"@,
        forall|i: int|
            0 <= i < body.len() && (#[trigger] body[i]).code == 0 ==> body[i].value is S
                && body[i].value->s != "ENDSEC"@,
    ensures
        spec_read_sections(d, seq![sec_start(), sec_name(name)] + body + seq![sec_end()] + rest)
            == spec_read_sections(d, rest),
{
    let s = seq![sec_start(), sec_name(name)] + body + seq![sec_end()] + rest;
    lemma_name_facts();
    assert(s[0] == sec_start());
    assert(s[1] == sec_name(name));
    assert(s.len() >= 2 + body.len() + 1);
    assert(s.skip(2) =~= body + (seq![sec_end()] + rest));
    lemma_swallow_section_skips(body, seq![sec_end()] + rest);
    let r2 = seq![sec_end()] + rest;
    assert(is_marker(r2[0], "ENDSEC"@));
    assert(r2.skip(1) =~= rest);
    assert(crate::reader::spec_dispatch(d, name, s.skip(2)) == (Parsed::Done {
        value: d,
        rest: r2,
    }));
    let p = s[0];
    assert(p.code == 0);
    assert(p.value is S);
    assert(p.value->s == "SECTION"@);
    assert(p.value->s != "EOF"@);
    assert(s.len() >= 2);
    let q = s[1];
    assert(q.code == 2 && q.value is S);
    assert(q.value->s == name);
    assert(r2.len() > 0);
    assert(spec_read_sections(d, s) == spec_read_sections(d, r2.skip(1))) by {
        reveal_with_fuel(crate::reader::spec_read_sections, 2);
    }
}

/// A marker-free body before a section terminator is discarded whole by
/// the section skipper.
pub proof fn lemma_swallow_section_skips(body: Seq<SpecPair>, rest: Seq<SpecPair>)
    requires
        forall|i: int|
            0 <= i < body.len() && (#[trigger] body[i]).code == 0 ==> body[i].value is S
                && body[i].value->s != "ENDSEC"@,
        rest.len() > 0 && is_marker(rest[0], "ENDSEC"@),
    ensures
        spec_swallow_section(body + rest) == (Parsed::Done { value: (), rest }),
    decreases body.len(),
{
    let s = body + rest;
    if body.len() == 0 {
        assert(s =~= rest);
    } else {
        assert(s[0] == body[0]);
        assert(s.skip(1) =~= body.skip(1) + rest);
        lemma_swallow_section_skips(body.skip(1), rest);
    }
}

/// Missing-terminator rejection: a header section that the stream ends in
/// before any terminating marker is a fatal end-of-input error.
pub proof fn lemma_missing_terminator(body: Seq<SpecPair>)
    requires
        body_wf(body),
        forall|i: int|
            0 <= i < body.len() ==> !((#[trigger] body[i]).code == 9 && body[i].value
                == (SpecValue::S { s: "$ACADVER"@ })),
    ensures
        spec_load(seq![sec_start(), sec_name("HEADER"@)] + body) == Err::<
            SpecDrawing,
            SpecError,
        >(SpecError::UnexpectedEndOfInput),
{
    let s = seq![sec_start(), sec_name("HEADER"@)] + body;
    lemma_name_facts();
    assert(s[0] == sec_start());
    assert(s[1] == sec_name("HEADER"@));
    assert(s.skip(2) =~= body);
    lemma_header_reader_consumes_all(crate::header::Header::spec_default(), body);
    let p = s[0];
    assert(p.code == 0 && p.value is S && p.value->s == "SECTION"@);
    assert(p.value->s != "EOF"@);
    assert(s.len() >= 2);
    let q = s[1];
    assert(q.code == 2 && q.value is S && q.value->s == "HEADER"@);
    assert(crate::reader::spec_dispatch(SpecDrawing::spec_default(), "HEADER"@, s.skip(2))
        matches Parsed::Done { rest, .. } && rest.len() == 0);
}

/// The header reader consumes a marker-free run of variables entirely when
/// none of them resets the revision.
proof fn lemma_header_reader_consumes_all(h: crate::header::Header, body: Seq<SpecPair>)
    requires
        body_wf(body),
        forall|i: int|
            0 <= i < body.len() ==> !((#[trigger] body[i]).code == 9 && body[i].value
                == (SpecValue::S { s: "$ACADVER"@ })),
    ensures
        crate::reader::spec_read_header(h, body) matches Parsed::Done { rest, .. } && rest.len()
            == 0,
    decreases body.len(),
{
    if body.len() > 0 {
        let p = body[0];
        if p.code == 9 && p.value == (SpecValue::S { s: "$HANDLING"@ }) && body.len() >= 2
            && body[1].code == 70 && body[1].value is I {
            assert(body.skip(2) =~= body.skip(1).skip(1));
            lemma_header_reader_consumes_all(
                crate::header::Header { handles_enabled: body[1].value->i != 0, ..h },
                body.skip(2),
            );
        } else {
            lemma_header_reader_consumes_all(h, body.skip(1));
        }
    }
}

/// Wrong-item-type rejection: inside the tables section, a marker that is
/// neither a table nor the section terminator is a fatal structural error
/// carrying the offending pair.
pub proof fn lemma_wrong_item_type(v: Seq<char>, rest: Seq<SpecPair>)
    requires
        v != "TABLE"@,
        v != "ENDSEC"@,
    ensures
        spec_load(seq![sec_start(), sec_name("TABLES"@), spec_str_pair(0, v)] + rest) == Err::<
            SpecDrawing,
            SpecError,
        >(
            SpecError::UnexpectedCodePair {
                pair: spec_str_pair(0, v),
                expected: Seq::empty(),
            },
        ),
{
    let s = seq![sec_start(), sec_name("TABLES"@), spec_str_pair(0, v)] + rest;
    lemma_name_facts();
    assert(s[0] == sec_start());
    assert(s[1] == sec_name("TABLES"@));
    assert(s.skip(2) =~= seq![spec_str_pair(0, v)] + rest);
    let s2 = seq![spec_str_pair(0, v)] + rest;
    assert(s2[0] == spec_str_pair(0, v));
    let p = s[0];
    assert(p.code == 0 && p.value is S && p.value->s == "SECTION"@);
    assert(p.value->s != "EOF"@);
    assert(s.len() >= 2);
    let q = s[1];
    assert(q.code == 2 && q.value is S && q.value->s == "TABLES"@);
    assert("TABLES"@ != "HEADER"@ && "TABLES"@ != "CLASSES"@);
    assert(s2.len() > 0 && s2[0].code == 0 && s2[0].value is S && s2[0].value->s == v);
    assert(crate::reader::spec_dispatch(SpecDrawing::spec_default(), "TABLES"@, s2)
        == (Parsed::<SpecDrawing>::Fail {
        err: SpecError::UnexpectedCodePair { pair: spec_str_pair(0, v), expected: Seq::empty() },
    }));
}


/// The character facts that tell the codec's fixed names apart.
proof fn lemma_name_facts()
    ensures
        "SECTION"@ != "EOF"@,
        "CLASS"@ != "ENDSEC"@,
        "TABLE"@ != "ENDSEC"@,
        "BLOCK"@ != "ENDSEC"@,
        "ENDTAB"@ != "ENDSEC"@,
        "$HANDLING"@ != "$ACADVER"@,
        "TABLES"@ != "HEADER"@,
        "TABLES"@ != "CLASSES"@,
        "BLOCKS"@ != "HEADER"@,
        "BLOCKS"@ != "CLASSES"@,
        "BLOCKS"@ != "TABLES"@,
        "CLASSES"@ != "HEADER"@,
        "ENTITIES"@ != "HEADER"@,
        "ENTITIES"@ != "CLASSES"@,
        "ENTITIES"@ != "TABLES"@,
        "ENTITIES"@ != "BLOCKS"@,
        "OBJECTS"@ != "HEADER"@,
        "OBJECTS"@ != "CLASSES"@,
        "OBJECTS"@ != "TABLES"@,
        "OBJECTS"@ != "BLOCKS"@,
        "OBJECTS"@ != "ENTITIES"@,
        "THUMBNAILIMAGE"@ != "HEADER"@,
        "THUMBNAILIMAGE"@ != "CLASSES"@,
        "THUMBNAILIMAGE"@ != "TABLES"@,
        "THUMBNAILIMAGE"@ != "BLOCKS"@,
        "THUMBNAILIMAGE"@ != "ENTITIES"@,
        "THUMBNAILIMAGE"@ != "OBJECTS"@,
        "LAYER"@ != "LTYPE"@,
{
    reveal_strlit("SECTION");
    reveal_strlit("EOF");
    reveal_strlit("CLASS");
    reveal_strlit("TABLE");
    reveal_strlit("BLOCK");
    reveal_strlit("ENDSEC");
    reveal_strlit("ENDTAB");
    reveal_strlit("$HANDLING");
    reveal_strlit("$ACADVER");
    reveal_strlit("HEADER");
    reveal_strlit("TABLES");
    reveal_strlit("BLOCKS");
    reveal_strlit("CLASSES");
    reveal_strlit("ENTITIES");
    reveal_strlit("OBJECTS");
    reveal_strlit("THUMBNAILIMAGE");
    reveal_strlit("LAYER");
    reveal_strlit("LTYPE");
    assert("SECTION"@.len() == 7);
    assert("EOF"@.len() == 3);
    assert("CLASS"@.len() == 5);
    assert("ENDSEC"@.len() == 6);
    assert("TABLE"@.len() == 5);
    assert("BLOCK"@.len() == 5);
    assert("ENDTAB"@.len() == 6);
    assert("$ACADVER"@.len() == 8);
    assert("$HANDLING"@.len() == 9);
    assert("HEADER"@.len() == 6);
    assert("TABLES"@.len() == 6);
    assert("BLOCKS"@.len() == 6);
    assert("CLASSES"@.len() == 7);
    assert("ENTITIES"@.len() == 8);
    assert("OBJECTS"@.len() == 7);
    assert("THUMBNAILIMAGE"@.len() == 14);
    assert("LAYER"@.len() == 5);
    assert("LTYPE"@.len() == 5);
    assert("TABLES"@[0] != "HEADER"@[0]);
    assert("BLOCKS"@[0] != "HEADER"@[0]);
    assert("BLOCKS"@[0] != "TABLES"@[0]);
    assert("OBJECTS"@[0] != "CLASSES"@[0]);
    assert("ENDTAB"@[3] != "ENDSEC"@[3]);
    assert("LAYER"@[1] != "LTYPE"@[1]);
}

/// Every table's name reads back to that table.
proof fn lemma_table_name_round(kind: crate::drawing::TableKind)
    ensures
        crate::drawing::TableKind::spec_from_name(kind.spec_name()) == Some(kind),
        kind.spec_name() != "ENDTAB"@,
{
    reveal_strlit("APPID");
    reveal_strlit("BLOCK_RECORD");
    reveal_strlit("DIMSTYLE");
    reveal_strlit("LAYER");
    reveal_strlit("LTYPE");
    reveal_strlit("STYLE");
    reveal_strlit("UCS");
    reveal_strlit("VIEW");
    reveal_strlit("VPORT");
    reveal_strlit("ENDTAB");
    assert("APPID"@.len() == 5);
    assert("BLOCK_RECORD"@.len() == 12);
    assert("DIMSTYLE"@.len() == 8);
    assert("LAYER"@.len() == 5);
    assert("LTYPE"@.len() == 5);
    assert("STYLE"@.len() == 5);
    assert("UCS"@.len() == 3);
    assert("VIEW"@.len() == 4);
    assert("VPORT"@.len() == 5);
    assert("ENDTAB"@.len() == 6);
    assert("LAYER"@[0] != "APPID"@[0]);
    assert("LTYPE"@[0] != "APPID"@[0]);
    assert("LTYPE"@[1] != "LAYER"@[1]);
    assert("STYLE"@[0] != "APPID"@[0]);
    assert("STYLE"@[0] != "LAYER"@[0]);
    assert("STYLE"@[0] != "LTYPE"@[0]);
    assert("VPORT"@[0] != "APPID"@[0]);
    assert("VPORT"@[0] != "LAYER"@[0]);
    assert("VPORT"@[0] != "LTYPE"@[0]);
    assert("VPORT"@[0] != "STYLE"@[0]);
}

/// Every revision's identifier reads back to that revision.
proof fn lemma_version_id_round(v: crate::header::AcadVersion)
    ensures
        crate::header::AcadVersion::spec_from_id(v.spec_id_text()) == Some(v),
{
    reveal_strlit("AC1009");
    reveal_strlit("AC1012");
    reveal_strlit("AC1014");
    reveal_strlit("AC1015");
    reveal_strlit("AC1018");
    reveal_strlit("AC1021");
    reveal_strlit("AC1024");
    reveal_strlit("AC1027");
    reveal_strlit("AC1032");
    assert("AC1009"@[4] == '0' && "AC1009"@[5] == '9');
    assert("AC1012"@[4] == '1' && "AC1012"@[5] == '2');
    assert("AC1014"@[4] == '1' && "AC1014"@[5] == '4');
    assert("AC1015"@[4] == '1' && "AC1015"@[5] == '5');
    assert("AC1018"@[4] == '1' && "AC1018"@[5] == '8');
    assert("AC1021"@[4] == '2' && "AC1021"@[5] == '1');
    assert("AC1024"@[4] == '2' && "AC1024"@[5] == '4');
    assert("AC1027"@[4] == '2' && "AC1027"@[5] == '7');
    assert("AC1032"@[4] == '3' && "AC1032"@[5] == '2');
}

/// The body of a saved header section reads back to the header it was
/// written from.
proof fn lemma_header_vars_round(h: crate::header::Header, rest: Seq<SpecPair>)
    requires
        rest.len() > 0 ==> rest[0].code == 0,
    ensures
        crate::reader::spec_read_header(
            crate::header::Header::spec_default(),
            crate::writer::spec_header_section(h).skip(2).take(4) + rest,
        ) == (Parsed::Done { value: h, rest }),
{
    lemma_name_facts();
    lemma_version_id_round(h.version);
    let vars = crate::writer::spec_header_section(h).skip(2).take(4);
    let s = vars + rest;
    assert(s[0] == spec_str_pair(9, "$ACADVER"@));
    assert(s[1] == spec_str_pair(1, h.version.spec_id_text()));
    assert(s[2] == spec_str_pair(9, "$HANDLING"@));
    assert(s[3] == spec_int_pair(70, if h.handles_enabled { 1int } else { 0int }));
    assert(s.len() == 4 + rest.len());
    let h1 = crate::header::Header {
        version: h.version,
        ..crate::header::Header::spec_default()
    };
    assert(s.skip(2) =~= seq![s[2], s[3]] + rest);
    assert(s.skip(2).skip(2) =~= rest);
    let h2 = crate::header::Header { handles_enabled: h.handles_enabled, ..h1 };
    assert(h2 == h);
    assert(crate::reader::spec_read_header(h2, rest) == (Parsed::Done { value: h, rest }));
    assert(crate::reader::spec_read_header(h1, s.skip(2)) == (Parsed::Done { value: h, rest }));
}

/// A saved run of classes reads back to exactly those classes, appended.
proof fn lemma_class_items_round(
    acc: Seq<Seq<SpecPair>>,
    cs: Seq<Seq<SpecPair>>,
    rest: Seq<SpecPair>,
)
    requires
        SpecDrawing::bodies_wf(cs),
        rest.len() > 0 && rest[0] == sec_end(),
    ensures
        crate::reader::spec_read_classes(acc, crate::writer::spec_class_items(cs) + rest) == (
        Parsed::Done { value: acc + cs, rest }),
    decreases cs.len(),
{
    lemma_name_facts();
    let s = crate::writer::spec_class_items(cs) + rest;
    if cs.len() == 0 {
        assert(s =~= rest);
        assert(acc + cs =~= acc);
    } else {
        assert(s[0] == spec_str_pair(0, "CLASS"@));
        let tail = crate::writer::spec_class_items(cs.skip(1)) + rest;
        assert(s.skip(1) =~= cs[0] + tail);
        assert(tail.len() > 0 && tail[0].code == 0) by {
            if cs.skip(1).len() > 0 {
                assert(tail[0] == spec_str_pair(0, "CLASS"@));
            } else {
                assert(tail =~= rest);
            }
        }
        assert(body_wf(cs[0]));
        lemma_take_body_exact(cs[0], tail);
        lemma_class_items_round(acc.push(cs[0]), cs.skip(1), rest);
        assert(acc.push(cs[0]) + cs.skip(1) =~= acc + cs);
    }
}

/// A saved run of entities or objects reads back to exactly those
/// records, appended.
proof fn lemma_record_items_round(
    acc: Seq<crate::record::SpecRecord>,
    rs: Seq<crate::record::SpecRecord>,
    rest: Seq<SpecPair>,
)
    requires
        SpecDrawing::records_wf(rs),
        rest.len() > 0 && rest[0] == sec_end(),
    ensures
        crate::reader::spec_read_named_items(acc, crate::writer::spec_record_items(rs) + rest)
            == (Parsed::Done { value: acc + rs, rest }),
    decreases rs.len(),
{
    lemma_name_facts();
    let s = crate::writer::spec_record_items(rs) + rest;
    if rs.len() == 0 {
        assert(s =~= rest);
        assert(acc + rs =~= acc);
    } else {
        assert(crate::record::record_wf(rs[0]));
        assert(s[0] == spec_str_pair(0, rs[0].name));
        let tail = crate::writer::spec_record_items(rs.skip(1)) + rest;
        assert(s.skip(1) =~= rs[0].pairs + tail);
        assert(tail.len() > 0 && tail[0].code == 0) by {
            if rs.skip(1).len() > 0 {
                assert(crate::record::record_wf(rs.skip(1)[0]));
                assert(tail[0] == spec_str_pair(0, rs.skip(1)[0].name));
            } else {
                assert(tail =~= rest);
            }
        }
        lemma_take_body_exact(rs[0].pairs, tail);
        lemma_record_items_round(
            acc.push(crate::record::SpecRecord { name: rs[0].name, pairs: rs[0].pairs }),
            rs.skip(1),
            rest,
        );
        assert((crate::record::SpecRecord { name: rs[0].name, pairs: rs[0].pairs }) =~= rs[0]);
        assert(acc.push(rs[0]) + rs.skip(1) =~= acc + rs);
    }
}

/// The drawing with one table's records replaced.
pub open spec fn with_table(
    d: SpecDrawing,
    kind: crate::drawing::TableKind,
    t: Seq<Seq<SpecPair>>,
) -> SpecDrawing {
    match kind {
        crate::drawing::TableKind::AppIds => SpecDrawing { app_ids: t, ..d },
        crate::drawing::TableKind::BlockRecords => SpecDrawing { block_records: t, ..d },
        crate::drawing::TableKind::DimStyles => SpecDrawing { dim_styles: t, ..d },
        crate::drawing::TableKind::Layers => SpecDrawing { layers: t, ..d },
        crate::drawing::TableKind::LineTypes => SpecDrawing { line_types: t, ..d },
        crate::drawing::TableKind::Styles => SpecDrawing { styles: t, ..d },
        crate::drawing::TableKind::Ucs => SpecDrawing { ucs: t, ..d },
        crate::drawing::TableKind::Views => SpecDrawing { views: t, ..d },
        crate::drawing::TableKind::ViewPorts => SpecDrawing { view_ports: t, ..d },
    }
}

/// How appending one record reads in terms of table replacement.
proof fn lemma_with_table_algebra(
    d: SpecDrawing,
    kind: crate::drawing::TableKind,
    b: Seq<SpecPair>,
    t: Seq<Seq<SpecPair>>,
)
    ensures
        d.push_table_record(kind, b) == with_table(d, kind, d.table(kind).push(b)),
        with_table(d, kind, t).table(kind) == t,
        with_table(d, kind, d.table(kind)) == d,
{
    assert(d.push_table_record(kind, b) =~= with_table(d, kind, d.table(kind).push(b)));
    assert(with_table(d, kind, d.table(kind)) =~= d);
}

/// A saved run of table records, with its terminator, reads back to
/// exactly those records appended to the table.
proof fn lemma_table_records_round(
    kind: crate::drawing::TableKind,
    d: SpecDrawing,
    rs: Seq<Seq<SpecPair>>,
    rest: Seq<SpecPair>,
)
    requires
        SpecDrawing::bodies_wf(rs),
    ensures
        crate::reader::spec_read_records(
            kind,
            d,
            crate::writer::spec_table_records(kind, rs) + seq![spec_str_pair(0, "ENDTAB"@)]
                + rest,
        ) == (Parsed::Done { value: with_table(d, kind, d.table(kind) + rs), rest }),
    decreases rs.len(),
{
    lemma_name_facts();
    lemma_table_name_round(kind);
    let s = crate::writer::spec_table_records(kind, rs) + seq![spec_str_pair(0, "ENDTAB"@)]
        + rest;
    if rs.len() == 0 {
        assert(s =~= seq![spec_str_pair(0, "ENDTAB"@)] + rest);
        assert(s[0] == spec_str_pair(0, "ENDTAB"@));
        assert(s.skip(1) =~= rest);
        lemma_with_table_algebra(d, kind, Seq::empty(), d.table(kind));
        assert(d.table(kind) + rs =~= d.table(kind));
        assert(with_table(d, kind, d.table(kind) + rs) == d);
    } else {
        assert(s[0] == spec_str_pair(0, kind.spec_name()));
        assert(kind.spec_name() != "ENDTAB"@);
        let tail = crate::writer::spec_table_records(kind, rs.skip(1)) + seq![
            spec_str_pair(0, "ENDTAB"@),
        ] + rest;
        assert(s.skip(1) =~= rs[0] + tail);
        assert(tail.len() > 0 && tail[0].code == 0) by {
            if rs.skip(1).len() > 0 {
                assert(tail[0] == spec_str_pair(0, kind.spec_name()));
            } else {
                assert(tail =~= seq![spec_str_pair(0, "ENDTAB"@)] + rest);
            }
        }
        assert(body_wf(rs[0]));
        lemma_take_body_exact(rs[0], tail);
        let d1 = d.push_table_record(kind, rs[0]);
        lemma_table_records_round(kind, d1, rs.skip(1), rest);
        lemma_with_table_algebra(d, kind, rs[0], d.table(kind));
        lemma_with_table_algebra(d1, kind, rs[0], d1.table(kind));
        assert(d1.table(kind) == d.table(kind).push(rs[0]));
        assert(with_table(d1, kind, d1.table(kind) + rs.skip(1)) =~= with_table(
            d,
            kind,
            d.table(kind) + rs,
        )) by {
            assert(d.table(kind).push(rs[0]) + rs.skip(1) =~= d.table(kind) + rs);
        }
    }
}

/// One saved table reads back as that table's records appended; an empty
/// table leaves no trace in the stream.
proof fn lemma_items_one_table(
    kind: crate::drawing::TableKind,
    d: SpecDrawing,
    rs: Seq<Seq<SpecPair>>,
    rest: Seq<SpecPair>,
)
    requires
        SpecDrawing::bodies_wf(rs),
    ensures
        crate::reader::spec_read_items(
            crate::reader::ItemKind::Tables,
            d,
            crate::writer::spec_table(kind, rs) + rest,
        ) == crate::reader::spec_read_items(
            crate::reader::ItemKind::Tables,
            with_table(d, kind, d.table(kind) + rs),
            rest,
        ),
{
    lemma_name_facts();
    lemma_table_name_round(kind);
    let s = crate::writer::spec_table(kind, rs) + rest;
    if rs.len() == 0 {
        assert(s =~= rest);
        lemma_with_table_algebra(d, kind, Seq::empty(), d.table(kind));
        assert(d.table(kind) + rs =~= d.table(kind));
        assert(with_table(d, kind, d.table(kind) + rs) == d);
    } else {
        assert(s[0] == spec_str_pair(0, "TABLE"@));
        let after_tag = seq![sec_name(kind.spec_name())] + crate::writer::spec_table_records(
            kind,
            rs,
        ) + seq![spec_str_pair(0, "ENDTAB"@)] + rest;
        assert(s.skip(1) =~= after_tag);
        assert(after_tag[0] == sec_name(kind.spec_name()));
        assert(after_tag.skip(1) =~= crate::writer::spec_table_records(kind, rs) + seq![
            spec_str_pair(0, "ENDTAB"@),
        ] + rest);
        lemma_table_records_round(kind, d, rs, rest);
    }
}



/// A saved run of blocks reads back to exactly those blocks, appended.
proof fn lemma_block_items_round(d: SpecDrawing, bs: Seq<Seq<SpecPair>>, rest: Seq<SpecPair>)
    requires
        SpecDrawing::bodies_wf(bs),
    ensures
        crate::reader::spec_read_items(
            crate::reader::ItemKind::Blocks,
            d,
            crate::writer::spec_block_items(bs) + rest,
        ) == crate::reader::spec_read_items(
            crate::reader::ItemKind::Blocks,
            SpecDrawing { blocks: d.blocks + bs, ..d },
            rest,
        ),
    decreases bs.len(),
{
    lemma_name_facts();
    let s = crate::writer::spec_block_items(bs) + rest;
    if bs.len() == 0 {
        assert(s =~= rest);
        assert(d.blocks + bs =~= d.blocks);
        assert((SpecDrawing { blocks: d.blocks + bs, ..d }) =~= d);
    } else {
        assert(s[0] == spec_str_pair(0, "BLOCK"@));
        let tail = seq![spec_str_pair(0, "ENDBLK"@)] + (crate::writer::spec_block_items(
            bs.skip(1),
        ) + rest);
        assert(s.skip(1) =~= bs[0] + tail);
        assert(body_wf(bs[0]));
        lemma_take_body_exact(bs[0], tail);
        assert(tail[0] == spec_str_pair(0, "ENDBLK"@));
        assert(tail.skip(1) =~= crate::writer::spec_block_items(bs.skip(1)) + rest);
        let d1 = SpecDrawing { blocks: d.blocks.push(bs[0]), ..d };
        lemma_block_items_round(d1, bs.skip(1), rest);
        assert((SpecDrawing { blocks: d1.blocks + bs.skip(1), ..d1 }) =~= (SpecDrawing {
            blocks: d.blocks + bs,
            ..d
        })) by {
            assert(d.blocks.push(bs[0]) + bs.skip(1) =~= d.blocks + bs);
        }
    }
}

/// One full section of a saved stream advances the state machine by
/// exactly what its handler makes of the section body.
proof fn lemma_section_step(
    d0: SpecDrawing,
    d1: SpecDrawing,
    name: Seq<char>,
    body: Seq<SpecPair>,
    rest: Seq<SpecPair>,
)
    requires
        crate::reader::spec_dispatch(d0, name, body + (seq![sec_end()] + rest)) == (Parsed::Done {
            value: d1,
            rest: seq![sec_end()] + rest,
        }),
    ensures
        spec_read_sections(d0, seq![sec_start(), sec_name(name)] + body + seq![sec_end()] + rest)
            == spec_read_sections(d1, rest),
{
    lemma_name_facts();
    let s = seq![sec_start(), sec_name(name)] + body + seq![sec_end()] + rest;
    let p = s[0];
    assert(p == sec_start());
    assert(p.code == 0 && p.value is S && p.value->s == "SECTION"@);
    assert(p.value->s != "EOF"@);
    assert(s.len() >= 2);
    let q = s[1];
    assert(q == sec_name(name));
    assert(q.code == 2 && q.value is S && q.value->s == name);
    assert(s.skip(2) =~= body + (seq![sec_end()] + rest));
    let r2 = seq![sec_end()] + rest;
    assert(r2.len() > 0);
    assert(is_marker(r2[0], "ENDSEC"@));
    assert(r2.skip(1) =~= rest);
}


/// The saved tables section reads back as each table's records, in the
/// fixed table order, appended to a drawing whose tables are still empty.
#[verifier::rlimit(100)]
#[verifier::spinoff_prover]
proof fn lemma_tables_section_round(d2: SpecDrawing, d: SpecDrawing, rest3: Seq<SpecPair>)
    requires
        d2.app_ids == Seq::<Seq<SpecPair>>::empty(),
        d2.block_records == Seq::<Seq<SpecPair>>::empty(),
        d2.dim_styles == Seq::<Seq<SpecPair>>::empty(),
        d2.layers == Seq::<Seq<SpecPair>>::empty(),
        d2.line_types == Seq::<Seq<SpecPair>>::empty(),
        d2.styles == Seq::<Seq<SpecPair>>::empty(),
        d2.ucs == Seq::<Seq<SpecPair>>::empty(),
        d2.views == Seq::<Seq<SpecPair>>::empty(),
        d2.view_ports == Seq::<Seq<SpecPair>>::empty(),
        SpecDrawing::bodies_wf(d.app_ids),
        SpecDrawing::bodies_wf(d.block_records),
        SpecDrawing::bodies_wf(d.dim_styles),
        SpecDrawing::bodies_wf(d.layers),
        SpecDrawing::bodies_wf(d.line_types),
        SpecDrawing::bodies_wf(d.styles),
        SpecDrawing::bodies_wf(d.ucs),
        SpecDrawing::bodies_wf(d.views),
        SpecDrawing::bodies_wf(d.view_ports),
    ensures
        spec_read_sections(d2, crate::writer::spec_tables_section(d) + rest3)
            == spec_read_sections(
            SpecDrawing {
                app_ids: d.app_ids,
                block_records: d.block_records,
                dim_styles: d.dim_styles,
                layers: d.layers,
                line_types: d.line_types,
                styles: d.styles,
                ucs: d.ucs,
                views: d.views,
                view_ports: d.view_ports,
                ..d2
            },
            rest3,
        ),
{
    lemma_name_facts();
    let ts = crate::writer::spec_tables_section(d);
    let tk = crate::reader::ItemKind::Tables;
    let t1 = crate::writer::spec_table(TableKind::AppIds, d.app_ids);
    let t2 = crate::writer::spec_table(TableKind::BlockRecords, d.block_records);
    let t3 = crate::writer::spec_table(TableKind::DimStyles, d.dim_styles);
    let t4 = crate::writer::spec_table(TableKind::Layers, d.layers);
    let t5 = crate::writer::spec_table(TableKind::LineTypes, d.line_types);
    let t6 = crate::writer::spec_table(TableKind::Styles, d.styles);
    let t7 = crate::writer::spec_table(TableKind::Ucs, d.ucs);
    let t8 = crate::writer::spec_table(TableKind::Views, d.views);
    let t9 = crate::writer::spec_table(TableKind::ViewPorts, d.view_ports);
    let tb = t1 + t2 + t3 + t4 + t5 + t6 + t7 + t8 + t9;
    assert(ts =~= seq![sec_start(), sec_name("TABLES"@)] + tb + seq![sec_end()]);
    let endrest = seq![sec_end()] + rest3;
    let u1 = with_table(d2, TableKind::AppIds, d2.table(TableKind::AppIds) + d.app_ids);
    let u2 = with_table(u1, TableKind::BlockRecords, u1.table(TableKind::BlockRecords)
        + d.block_records);
    let u3 = with_table(u2, TableKind::DimStyles, u2.table(TableKind::DimStyles) + d.dim_styles);
    let u4 = with_table(u3, TableKind::Layers, u3.table(TableKind::Layers) + d.layers);
    let u5 = with_table(u4, TableKind::LineTypes, u4.table(TableKind::LineTypes) + d.line_types);
    let u6 = with_table(u5, TableKind::Styles, u5.table(TableKind::Styles) + d.styles);
    let u7 = with_table(u6, TableKind::Ucs, u6.table(TableKind::Ucs) + d.ucs);
    let u8 = with_table(u7, TableKind::Views, u7.table(TableKind::Views) + d.views);
    let u9 = with_table(u8, TableKind::ViewPorts, u8.table(TableKind::ViewPorts) + d.view_ports);
    let s1 = tb + endrest;
    let s2 = t2 + t3 + t4 + t5 + t6 + t7 + t8 + t9 + endrest;
    let s3 = t3 + t4 + t5 + t6 + t7 + t8 + t9 + endrest;
    let s4 = t4 + t5 + t6 + t7 + t8 + t9 + endrest;
    let s5 = t5 + t6 + t7 + t8 + t9 + endrest;
    let s6 = t6 + t7 + t8 + t9 + endrest;
    let s7 = t7 + t8 + t9 + endrest;
    let s8 = t8 + t9 + endrest;
    let s9 = t9 + endrest;
    assert(s1 =~= t1 + s2);
    assert(s2 =~= t2 + s3);
    assert(s3 =~= t3 + s4);
    assert(s4 =~= t4 + s5);
    assert(s5 =~= t5 + s6);
    assert(s6 =~= t6 + s7);
    assert(s7 =~= t7 + s8);
    assert(s8 =~= t8 + s9);
    lemma_items_one_table(TableKind::AppIds, d2, d.app_ids, s2);
    lemma_items_one_table(TableKind::BlockRecords, u1, d.block_records, s3);
    lemma_items_one_table(TableKind::DimStyles, u2, d.dim_styles, s4);
    lemma_items_one_table(TableKind::Layers, u3, d.layers, s5);
    lemma_items_one_table(TableKind::LineTypes, u4, d.line_types, s6);
    lemma_items_one_table(TableKind::Styles, u5, d.styles, s7);
    lemma_items_one_table(TableKind::Ucs, u6, d.ucs, s8);
    lemma_items_one_table(TableKind::Views, u7, d.views, s9);
    lemma_items_one_table(TableKind::ViewPorts, u8, d.view_ports, endrest);
    assert(endrest[0] == sec_end());
    assert(crate::reader::spec_read_items(tk, u9, endrest) == (Parsed::Done {
        value: u9,
        rest: endrest,
    }));
    assert(crate::reader::spec_read_items(tk, d2, s1) == (Parsed::Done {
        value: u9,
        rest: endrest,
    }));
    assert(ts + rest3 =~= seq![sec_start(), sec_name("TABLES"@)] + tb + seq![sec_end()] + rest3);
    lemma_section_step(d2, u9, "TABLES"@, tb, rest3);
    assert(u9 =~= (SpecDrawing {
        app_ids: d.app_ids,
        block_records: d.block_records,
        dim_styles: d.dim_styles,
        layers: d.layers,
        line_types: d.line_types,
        styles: d.styles,
        ucs: d.ucs,
        views: d.views,
        view_ports: d.view_ports,
        ..d2
    }));
}


/// The saved blocks, entities, objects and thumbnail sections, followed by
/// the end-of-file marker, read back as those collections set on a drawing
/// that does not hold any yet.
#[verifier::rlimit(100)]
#[verifier::spinoff_prover]
proof fn lemma_tail_sections_round(d3: SpecDrawing, d: SpecDrawing)
    requires
        d3.blocks == Seq::<Seq<SpecPair>>::empty(),
        d3.entities == Seq::<crate::record::SpecRecord>::empty(),
        d3.objects == Seq::<crate::record::SpecRecord>::empty(),
        d3.thumbnail is None,
        SpecDrawing::bodies_wf(d.blocks),
        SpecDrawing::records_wf(d.entities),
        SpecDrawing::records_wf(d.objects),
        d.thumbnail_wf(),
        d.thumbnail matches Some(b) ==> b.subrange(0, 14) == spec_bmp_header(b.len() - 14),
        d.thumbnail is Some ==> d.header.version.ord()
            >= crate::writer::thumbnail_threshold().ord(),
    ensures
        spec_read_sections(
            d3,
            crate::writer::spec_blocks_section(d.blocks) + (crate::writer::spec_entities_section(
                d.entities,
            ) + (crate::writer::spec_objects_section(d.objects) + (
            crate::writer::spec_thumbnail_section(d.header, d.thumbnail) + seq![
                crate::writer::eof_pair(),
            ]))),
        ) == (Parsed::Done {
            value: SpecDrawing {
                blocks: d.blocks,
                entities: d.entities,
                objects: d.objects,
                thumbnail: d.thumbnail,
                ..d3
            },
            rest: seq![crate::writer::eof_pair()],
        }),
{
    lemma_name_facts();
    let bsx = crate::writer::spec_blocks_section(d.blocks);
    let es = crate::writer::spec_entities_section(d.entities);
    let osx = crate::writer::spec_objects_section(d.objects);
    let th = crate::writer::spec_thumbnail_section(d.header, d.thumbnail);
    let eofs = seq![crate::writer::eof_pair()];
    let rest3 = bsx + (es + (osx + (th + eofs)));
    let rest4 = es + (osx + (th + eofs));
    let rest5 = osx + (th + eofs);
    let rest6 = th + eofs;

    // blocks section
    let d4 = SpecDrawing { blocks: d.blocks, ..d3 };
    if d.blocks.len() == 0 {
        assert(rest3 =~= rest4);
        assert(d4 =~= d3);
        assert(spec_read_sections(d3, rest3) == spec_read_sections(d4, rest4));
    } else {
        let bbody = crate::writer::spec_block_items(d.blocks);
        lemma_block_items_round(d3, d.blocks, seq![sec_end()] + rest4);
        assert((SpecDrawing { blocks: d3.blocks + d.blocks, ..d3 }) =~= d4);
        assert((seq![sec_end()] + rest4)[0] == sec_end());
        assert(crate::reader::spec_read_items(
            crate::reader::ItemKind::Blocks,
            d4,
            seq![sec_end()] + rest4,
        ) == (Parsed::Done { value: d4, rest: seq![sec_end()] + rest4 }));
        assert(rest3 =~= seq![sec_start(), sec_name("BLOCKS"@)] + bbody + seq![sec_end()]
            + rest4);
        lemma_section_step(d3, d4, "BLOCKS"@, bbody, rest4);
        assert(spec_read_sections(d3, rest3) == spec_read_sections(d4, rest4));
    }

    // entities section
    let ebody = crate::writer::spec_record_items(d.entities);
    lemma_record_items_round(d4.entities, d.entities, seq![sec_end()] + rest5);
    let d5 = SpecDrawing { entities: d.entities, ..d4 };
    assert(d4.entities + d.entities =~= d.entities);
    assert(rest4 =~= seq![sec_start(), sec_name("ENTITIES"@)] + ebody + seq![sec_end()] + rest5);
    lemma_section_step(d4, d5, "ENTITIES"@, ebody, rest5);
    assert(spec_read_sections(d4, rest4) == spec_read_sections(d5, rest5));

    // objects section
    let obody = crate::writer::spec_record_items(d.objects);
    lemma_record_items_round(d5.objects, d.objects, seq![sec_end()] + rest6);
    let d6 = SpecDrawing { objects: d.objects, ..d5 };
    assert(d5.objects + d.objects =~= d.objects);
    assert(rest5 =~= seq![sec_start(), sec_name("OBJECTS"@)] + obody + seq![sec_end()] + rest6);
    lemma_section_step(d5, d6, "OBJECTS"@, obody, rest6);
    assert(spec_read_sections(d5, rest5) == spec_read_sections(d6, rest6));

    // thumbnail section
    let d7 = SpecDrawing { thumbnail: d.thumbnail, ..d6 };
    match d.thumbnail {
        None => {
            assert(rest6 =~= eofs);
            assert(d7 =~= d6);
            assert(spec_read_sections(d6, rest6) == spec_read_sections(d7, eofs));
        },
        Some(b) => {
            let tbody = seq![spec_int_pair(90, b.len() - 14)] + spec_thumbnail_chunks(
                b.skip(14),
            );
            lemma_thumbnail_round_trip(b, seq![sec_end()] + eofs);
            assert(tbody + (seq![sec_end()] + eofs) =~= seq![spec_int_pair(90, b.len() - 14)]
                + spec_thumbnail_chunks(b.skip(14)) + (seq![sec_end()] + eofs));
            assert(rest6 =~= seq![sec_start(), sec_name("THUMBNAILIMAGE"@)] + tbody + seq![
                sec_end(),
            ] + eofs);
            lemma_section_step(d6, d7, "THUMBNAILIMAGE"@, tbody, eofs);
            assert(spec_read_sections(d6, rest6) == spec_read_sections(d7, eofs));
        },
    }

    // the trailing end-of-file marker
    assert(eofs[0].code == 0 && eofs[0].value is S && eofs[0].value->s == "EOF"@);
    assert(spec_read_sections(d7, eofs) == (Parsed::Done { value: d7, rest: eofs }));
    assert(d7 =~= (SpecDrawing {
        blocks: d.blocks,
        entities: d.entities,
        objects: d.objects,
        thumbnail: d.thumbnail,
        ..d3
    }));
}

/// Round-trip: loading the stream that saving a drawing produced yields
/// that drawing back — header settings, every collection in order, and the
/// thumbnail.  The drawing must be encodable: bodies carry no marker
/// codes, entity and object names are not reserved markers, a thumbnail
/// carries its synthesized header and is only present at revisions that
/// write it.
#[verifier::rlimit(100)]
#[verifier::spinoff_prover]
pub proof fn lemma_save_load_round_trip(d: SpecDrawing)
    requires
        d.wf(),
        d.thumbnail matches Some(b) ==> b.subrange(0, 14) == spec_bmp_header(b.len() - 14),
        d.thumbnail is Some ==> d.header.version.ord()
            >= crate::writer::thumbnail_threshold().ord(),
    ensures
        spec_load(crate::writer::spec_save(d)) == Ok::<SpecDrawing, SpecError>(d),
{
    lemma_name_facts();
    let d0 = SpecDrawing::spec_default();
    let s = crate::writer::spec_save(d);
    let hs = crate::writer::spec_header_section(d.header);
    let cs = crate::writer::spec_classes_section(d.classes);
    let ts = crate::writer::spec_tables_section(d);
    let bsx = crate::writer::spec_blocks_section(d.blocks);
    let es = crate::writer::spec_entities_section(d.entities);
    let osx = crate::writer::spec_objects_section(d.objects);
    let th = crate::writer::spec_thumbnail_section(d.header, d.thumbnail);
    let eofs = seq![crate::writer::eof_pair()];
    let rest1 = cs + (ts + (bsx + (es + (osx + (th + eofs)))));
    let rest2 = ts + (bsx + (es + (osx + (th + eofs))));
    let rest3 = bsx + (es + (osx + (th + eofs)));
    let rest4 = es + (osx + (th + eofs));
    let rest5 = osx + (th + eofs);
    let rest6 = th + eofs;

    // header section
    let vars = hs.skip(2).take(4);
    lemma_header_vars_round(d.header, seq![sec_end()] + rest1);
    let d1 = SpecDrawing { header: d.header, ..d0 };
    assert(s =~= seq![sec_start(), sec_name("HEADER"@)] + vars + seq![sec_end()] + rest1);
    lemma_section_step(d0, d1, "HEADER"@, vars, rest1);
    assert(spec_read_sections(d0, s) == spec_read_sections(d1, rest1));

    // classes section
    let d2 = SpecDrawing { classes: d.classes, ..d1 };
    if d.classes.len() == 0 {
        assert(rest1 =~= rest2);
        assert(d2 =~= d1);
        assert(spec_read_sections(d1, rest1) == spec_read_sections(d2, rest2));
    } else {
        let cbody = crate::writer::spec_class_items(d.classes);
        lemma_class_items_round(d1.classes, d.classes, seq![sec_end()] + rest2);
        assert(d1.classes + d.classes =~= d.classes);
        assert(rest1 =~= seq![sec_start(), sec_name("CLASSES"@)] + cbody + seq![sec_end()]
            + rest2);
        lemma_section_step(d1, d2, "CLASSES"@, cbody, rest2);
        assert(spec_read_sections(d1, rest1) == spec_read_sections(d2, rest2));
    }

    // tables section
    lemma_tables_section_round(d2, d, rest3);
    let d3 = SpecDrawing {
        app_ids: d.app_ids,
        block_records: d.block_records,
        dim_styles: d.dim_styles,
        layers: d.layers,
        line_types: d.line_types,
        styles: d.styles,
        ucs: d.ucs,
        views: d.views,
        view_ports: d.view_ports,
        ..d2
    };
    assert(rest2 == crate::writer::spec_tables_section(d) + rest3);
    assert(spec_read_sections(d2, rest2) == spec_read_sections(d3, rest3));

    // the remaining sections and the end-of-file marker
    lemma_tail_sections_round(d3, d);
    let d7 = SpecDrawing {
        blocks: d.blocks,
        entities: d.entities,
        objects: d.objects,
        thumbnail: d.thumbnail,
        ..d3
    };
    assert(rest3 == crate::writer::spec_blocks_section(d.blocks) + (
    crate::writer::spec_entities_section(d.entities) + (crate::writer::spec_objects_section(
        d.objects,
    ) + (crate::writer::spec_thumbnail_section(d.header, d.thumbnail) + seq![
        crate::writer::eof_pair(),
    ]))));
    assert(spec_read_sections(d3, rest3) == (Parsed::Done { value: d7, rest: eofs }));
    assert(spec_read_sections(d0, s) == (Parsed::Done { value: d7, rest: eofs }));
    assert(is_marker(eofs[0], "EOF"@));
    assert(d7 =~= d);
}



/// The chunking shape: a payload is split into runs of 128 bytes, the last
/// one shorter, and every run is a code-310 pair of two uppercase digits
/// per byte.
pub proof fn lemma_thumbnail_chunk_shape(payload: Seq<u8>)
    ensures
        spec_thumbnail_chunks(payload).len() == (payload.len() + 127) / 128,
        forall|i: int|
            0 <= i < spec_thumbnail_chunks(payload).len() ==> (#[trigger] spec_thumbnail_chunks(
                payload,
            )[i]).code == 310,
        payload.len() > 0 ==> spec_thumbnail_chunks(payload)[0] == spec_str_pair(
            310,
            spec_hex_encode(payload.take(if payload.len() < 128 { payload.len() as int } else { 128int })),
        ),
    decreases payload.len(),
{
    if payload.len() > 0 {
        let k = if payload.len() < 128 {
            payload.len() as int
        } else {
            128int
        };
        lemma_thumbnail_chunk_shape(payload.skip(k));
        let chunks = spec_thumbnail_chunks(payload);
        let rest = spec_thumbnail_chunks(payload.skip(k));
        assert(chunks == seq![spec_str_pair(310, spec_hex_encode(payload.take(k)))] + rest);
        assert(forall|i: int|
            1 <= i < chunks.len() ==> chunks[i] == (#[trigger] rest[i - 1]));
    }
}

/// A section of the given name begins somewhere in the stream: a section
/// marker immediately followed by the name pair.
pub open spec fn spec_has_section(s: Seq<SpecPair>, name: Seq<char>) -> bool {
    exists|i: int|
        0 <= i < s.len() - 1 && (#[trigger] s[i]) == sec_start() && s[i + 1] == sec_name(name)
}

/// No pair of the run is a section marker.
pub open spec fn no_start_marker(s: Seq<SpecPair>) -> bool {
    forall|i: int| 0 <= i < s.len() ==> (#[trigger] s[i]) != sec_start()
}

/// No section of the given name begins in the run.
pub open spec fn clean_of(s: Seq<SpecPair>, name: Seq<char>) -> bool {
    forall|i: int|
        0 <= i < s.len() - 1 ==> !((#[trigger] s[i]) == sec_start() && s[i + 1] == sec_name(
            name,
        ))
}

/// Joining two runs that hold no section of a name, the second not opening
/// with that name pair, yields a run that holds none either.
proof fn lemma_clean_concat(a: Seq<SpecPair>, b: Seq<SpecPair>, name: Seq<char>)
    requires
        clean_of(a, name),
        clean_of(b, name),
        b.len() > 0 ==> b[0] != sec_name(name),
    ensures
        clean_of(a + b, name),
{
    let s = a + b;
    assert forall|i: int|
        0 <= i < s.len() - 1 implies !((#[trigger] s[i]) == sec_start() && s[i + 1] == sec_name(
        name,
    )) by {
        if i < a.len() - 1 {
            assert(s[i] == a[i] && s[i + 1] == a[i + 1]);
        } else if i == a.len() - 1 {
            assert(s[i + 1] == b[0]);
        } else {
            assert(s[i] == b[i - a.len()] && s[i + 1] == b[i - a.len() + 1]);
        }
    }
}

/// Item runs of well-formed bodies hold no section marker: bodies carry no
/// code-0 pair, and the item markers are the codec's own names.
proof fn lemma_class_items_no_start(cs: Seq<Seq<SpecPair>>)
    requires
        SpecDrawing::bodies_wf(cs),
    ensures
        no_start_marker(crate::writer::spec_class_items(cs)),
    decreases cs.len(),
{
    lemma_name_facts();
    reveal_strlit("CLASS");
    reveal_strlit("SECTION");
    assert("CLASS"@.len() != "SECTION"@.len());
    if cs.len() > 0 {
        lemma_class_items_no_start(cs.skip(1));
        let s = crate::writer::spec_class_items(cs);
        let tail = crate::writer::spec_class_items(cs.skip(1));
        assert forall|i: int| 0 <= i < s.len() implies (#[trigger] s[i]) != sec_start() by {
            if i == 0 {
                assert(s[0] == spec_str_pair(0, "CLASS"@));
            } else if i <= cs[0].len() {
                assert(s[i] == cs[0][i - 1]);
                assert(cs[0][i - 1].code != 0);
            } else {
                assert(s[i] == tail[i - 1 - cs[0].len()]);
            }
        }
    }
}

/// See [`lemma_class_items_no_start`]; the same holds of table records.
proof fn lemma_table_records_no_start(kind: TableKind, rs: Seq<Seq<SpecPair>>)
    requires
        SpecDrawing::bodies_wf(rs),
    ensures
        no_start_marker(crate::writer::spec_table_records(kind, rs)),
    decreases rs.len(),
{
    lemma_table_name_round(kind);
    reveal_strlit("APPID");
    reveal_strlit("BLOCK_RECORD");
    reveal_strlit("DIMSTYLE");
    reveal_strlit("LAYER");
    reveal_strlit("LTYPE");
    reveal_strlit("STYLE");
    reveal_strlit("UCS");
    reveal_strlit("VIEW");
    reveal_strlit("VPORT");
    reveal_strlit("SECTION");
    assert(kind.spec_name().len() != "SECTION"@.len());
    if rs.len() > 0 {
        lemma_table_records_no_start(kind, rs.skip(1));
        let s = crate::writer::spec_table_records(kind, rs);
        let tail = crate::writer::spec_table_records(kind, rs.skip(1));
        assert forall|i: int| 0 <= i < s.len() implies (#[trigger] s[i]) != sec_start() by {
            if i == 0 {
                assert(s[0] == spec_str_pair(0, kind.spec_name()));
            } else if i <= rs[0].len() {
                assert(s[i] == rs[0][i - 1]);
                assert(rs[0][i - 1].code != 0);
            } else {
                assert(s[i] == tail[i - 1 - rs[0].len()]);
            }
        }
    }
}

/// See [`lemma_class_items_no_start`]; the same holds of blocks.
proof fn lemma_block_items_no_start(bs: Seq<Seq<SpecPair>>)
    requires
        SpecDrawing::bodies_wf(bs),
    ensures
        no_start_marker(crate::writer::spec_block_items(bs)),
    decreases bs.len(),
{
    lemma_name_facts();
    reveal_strlit("BLOCK");
    reveal_strlit("ENDBLK");
    reveal_strlit("SECTION");
    assert("BLOCK"@.len() != "SECTION"@.len());
    assert("ENDBLK"@.len() != "SECTION"@.len());
    if bs.len() > 0 {
        lemma_block_items_no_start(bs.skip(1));
        let s = crate::writer::spec_block_items(bs);
        let tail = crate::writer::spec_block_items(bs.skip(1));
        assert forall|i: int| 0 <= i < s.len() implies (#[trigger] s[i]) != sec_start() by {
            if i == 0 {
                assert(s[0] == spec_str_pair(0, "BLOCK"@));
            } else if i <= bs[0].len() {
                assert(s[i] == bs[0][i - 1]);
                assert(bs[0][i - 1].code != 0);
            } else if i == bs[0].len() + 1 {
                assert(s[i] == spec_str_pair(0, "ENDBLK"@));
            } else {
                assert(s[i] == tail[i - 2 - bs[0].len()]);
            }
        }
    }
}

/// See [`lemma_class_items_no_start`]; the same holds of entities and
/// objects, whose type names are not reserved markers.
proof fn lemma_record_items_no_start(rs: Seq<crate::record::SpecRecord>)
    requires
        SpecDrawing::records_wf(rs),
    ensures
        no_start_marker(crate::writer::spec_record_items(rs)),
    decreases rs.len(),
{
    if rs.len() > 0 {
        lemma_record_items_no_start(rs.skip(1));
        let s = crate::writer::spec_record_items(rs);
        let tail = crate::writer::spec_record_items(rs.skip(1));
        assert(crate::record::record_wf(rs[0]));
        assert forall|i: int| 0 <= i < s.len() implies (#[trigger] s[i]) != sec_start() by {
            if i == 0 {
                assert(s[0] == spec_str_pair(0, rs[0].name));
                assert(rs[0].name != "SECTION"@);
            } else if i <= rs[0].pairs.len() {
                assert(s[i] == rs[0].pairs[i - 1]);
                assert(rs[0].pairs[i - 1].code != 0);
            } else {
                assert(s[i] == tail[i - 1 - rs[0].pairs.len()]);
            }
        }
    }
}

/// Hex runs hold no section marker: every chunk pair carries code 310.
proof fn lemma_chunks_no_start(payload: Seq<u8>)
    ensures
        no_start_marker(spec_thumbnail_chunks(payload)),
{
    lemma_thumbnail_chunk_shape(payload);
    let s = spec_thumbnail_chunks(payload);
    assert forall|i: int| 0 <= i < s.len() implies (#[trigger] s[i]) != sec_start() by {
        assert(s[i].code == 310);
    }
}

/// No section of a foreign name begins anywhere in a saved stream: only
/// the names the writer frames can follow a section marker.
proof fn lemma_save_clean_of(d: SpecDrawing, name: Seq<char>)
    requires
        d.wf(),
        name != "HEADER"@,
        name != "TABLES"@,
        name != "ENTITIES"@,
        name != "OBJECTS"@,
        d.classes.len() > 0 ==> name != "CLASSES"@,
        d.blocks.len() > 0 ==> name != "BLOCKS"@,
        (d.header.version.ord() >= crate::writer::thumbnail_threshold().ord() && d.thumbnail
            is Some) ==> name != "THUMBNAILIMAGE"@,
    ensures
        clean_of(crate::writer::spec_save(d), name),
{
    lemma_name_facts();
    reveal_strlit("SECTION");
    reveal_strlit("ENDSEC");
    reveal_strlit("ENDTAB");
    reveal_strlit("TABLE");
    reveal_strlit("EOF");
    assert("ENDSEC"@.len() != "SECTION"@.len());
    assert("TABLE"@.len() != "SECTION"@.len());
    assert("ENDTAB"@.len() != "SECTION"@.len());
    assert("EOF"@.len() != "SECTION"@.len());
    let hs = crate::writer::spec_header_section(d.header);
    let cs = crate::writer::spec_classes_section(d.classes);
    let ts = crate::writer::spec_tables_section(d);
    let bsx = crate::writer::spec_blocks_section(d.blocks);
    let es = crate::writer::spec_entities_section(d.entities);
    let osx = crate::writer::spec_objects_section(d.objects);
    let th = crate::writer::spec_thumbnail_section(d.header, d.thumbnail);
    let eofs = seq![crate::writer::eof_pair()];

    assert(clean_of(hs, name)) by {
        assert(forall|i: int|
            1 <= i < hs.len() ==> (#[trigger] hs[i]) != sec_start());
        assert(hs[1] != sec_name(name));
    }
    assert(clean_of(cs, name)) by {
        if d.classes.len() > 0 {
            lemma_class_items_no_start(d.classes);
            let items = crate::writer::spec_class_items(d.classes);
            assert forall|i: int|
                1 <= i < cs.len() implies (#[trigger] cs[i]) != sec_start() by {
                if 2 <= i < 2 + items.len() {
                    assert(cs[i] == items[i - 2]);
                } else if i >= 2 + items.len() {
                    assert(cs[i] == sec_end());
                }
            }
            assert(cs[1] != sec_name(name));
        }
    }
    assert(clean_of(ts, name)) by {
        let tb1 = crate::writer::spec_table(TableKind::AppIds, d.app_ids);
        assert(no_start_marker(crate::writer::spec_table(TableKind::AppIds, d.app_ids))) by {
            lemma_table_no_start(TableKind::AppIds, d.app_ids);
        }
        lemma_table_no_start(TableKind::BlockRecords, d.block_records);
        lemma_table_no_start(TableKind::DimStyles, d.dim_styles);
        lemma_table_no_start(TableKind::Layers, d.layers);
        lemma_table_no_start(TableKind::LineTypes, d.line_types);
        lemma_table_no_start(TableKind::Styles, d.styles);
        lemma_table_no_start(TableKind::Ucs, d.ucs);
        lemma_table_no_start(TableKind::Views, d.views);
        lemma_table_no_start(TableKind::ViewPorts, d.view_ports);
        assert forall|i: int|
            1 <= i < ts.len() implies (#[trigger] ts[i]) != sec_start() by {
            let body = crate::writer::spec_table(TableKind::AppIds, d.app_ids)
                + crate::writer::spec_table(TableKind::BlockRecords, d.block_records)
                + crate::writer::spec_table(TableKind::DimStyles, d.dim_styles)
                + crate::writer::spec_table(TableKind::Layers, d.layers)
                + crate::writer::spec_table(TableKind::LineTypes, d.line_types)
                + crate::writer::spec_table(TableKind::Styles, d.styles)
                + crate::writer::spec_table(TableKind::Ucs, d.ucs)
                + crate::writer::spec_table(TableKind::Views, d.views)
                + crate::writer::spec_table(TableKind::ViewPorts, d.view_ports);
            assert(ts =~= seq![sec_start(), sec_name("TABLES"@)] + body + seq![sec_end()]);
            if 2 <= i < 2 + body.len() {
                assert(ts[i] == body[i - 2]);
            } else if i >= 2 + body.len() {
                assert(ts[i] == sec_end());
            }
        }
        assert(ts[1] != sec_name(name));
    }
    assert(clean_of(bsx, name)) by {
        if d.blocks.len() > 0 {
            lemma_block_items_no_start(d.blocks);
            let items = crate::writer::spec_block_items(d.blocks);
            assert forall|i: int|
                1 <= i < bsx.len() implies (#[trigger] bsx[i]) != sec_start() by {
                if 2 <= i < 2 + items.len() {
                    assert(bsx[i] == items[i - 2]);
                } else if i >= 2 + items.len() {
                    assert(bsx[i] == sec_end());
                }
            }
            assert(bsx[1] != sec_name(name));
        }
    }
    assert(clean_of(es, name)) by {
        lemma_record_items_no_start(d.entities);
        let items = crate::writer::spec_record_items(d.entities);
        assert forall|i: int|
            1 <= i < es.len() implies (#[trigger] es[i]) != sec_start() by {
            if 2 <= i < 2 + items.len() {
                assert(es[i] == items[i - 2]);
            } else if i >= 2 + items.len() {
                assert(es[i] == sec_end());
            }
        }
        assert(es[1] != sec_name(name));
    }
    assert(clean_of(osx, name)) by {
        lemma_record_items_no_start(d.objects);
        let items = crate::writer::spec_record_items(d.objects);
        assert forall|i: int|
            1 <= i < osx.len() implies (#[trigger] osx[i]) != sec_start() by {
            if 2 <= i < 2 + items.len() {
                assert(osx[i] == items[i - 2]);
            } else if i >= 2 + items.len() {
                assert(osx[i] == sec_end());
            }
        }
        assert(osx[1] != sec_name(name));
    }
    assert(clean_of(th, name)) by {
        if d.header.version.ord() >= crate::writer::thumbnail_threshold().ord() && d.thumbnail
            is Some {
            let b = d.thumbnail->0;
            lemma_chunks_no_start(b.skip(14));
            let chunks = spec_thumbnail_chunks(b.skip(14));
            assert forall|i: int|
                1 <= i < th.len() implies (#[trigger] th[i]) != sec_start() by {
                if i == 1 {
                    assert(th[1] == sec_name("THUMBNAILIMAGE"@));
                } else if i == 2 {
                    assert(th[2] == spec_int_pair(90, b.len() - 14));
                } else if i < 3 + chunks.len() {
                    assert(th[i] == chunks[i - 3]);
                } else {
                    assert(th[i] == sec_end());
                }
            }
            assert(th[1] != sec_name(name));
        }
    }
    assert(clean_of(eofs, name));
    assert(hs[0] == sec_start() && hs[0] != sec_name(name));
    lemma_clean_concat(hs, cs, name);
    lemma_clean_concat(hs + cs, ts, name);
    lemma_clean_concat(hs + cs + ts, bsx, name);
    lemma_clean_concat(hs + cs + ts + bsx, es, name);
    lemma_clean_concat(hs + cs + ts + bsx + es, osx, name);
    lemma_clean_concat(hs + cs + ts + bsx + es + osx, th, name);
    lemma_clean_concat(hs + cs + ts + bsx + es + osx + th, eofs, name);
}

/// One table holds no section marker: its framing uses the codec's own
/// names, and its records are well-formed.
proof fn lemma_table_no_start(kind: TableKind, rs: Seq<Seq<SpecPair>>)
    requires
        SpecDrawing::bodies_wf(rs),
    ensures
        no_start_marker(crate::writer::spec_table(kind, rs)),
{
    lemma_table_name_round(kind);
    lemma_table_records_no_start(kind, rs);
    reveal_strlit("SECTION");
    reveal_strlit("TABLE");
    reveal_strlit("ENDTAB");
    assert("TABLE"@.len() != "SECTION"@.len());
    assert("ENDTAB"@.len() != "SECTION"@.len());
    let s = crate::writer::spec_table(kind, rs);
    if rs.len() > 0 {
        let recs = crate::writer::spec_table_records(kind, rs);
        assert forall|i: int| 0 <= i < s.len() implies (#[trigger] s[i]) != sec_start() by {
            if i == 0 {
                assert(s[0] == spec_str_pair(0, "TABLE"@));
            } else if i == 1 {
                assert(s[1] == sec_name(kind.spec_name()));
            } else if i < 2 + recs.len() {
                assert(s[i] == recs[i - 2]);
            } else {
                assert(s[i] == spec_str_pair(0, "ENDTAB"@));
            }
        }
    }
}

/// Version gating of the whole stream: a drawing below the thumbnail
/// threshold, or without a thumbnail, saves to a stream in which no
/// thumbnail section begins anywhere.
pub proof fn lemma_no_thumbnail_section_when_gated(d: SpecDrawing)
    requires
        d.wf(),
        d.header.version.ord() < crate::writer::thumbnail_threshold().ord() || d.thumbnail
            is None,
    ensures
        !spec_has_section(crate::writer::spec_save(d), "THUMBNAILIMAGE"@),
{
    lemma_name_facts();
    reveal_strlit("THUMBNAILIMAGE");
    reveal_strlit("CLASSES");
    reveal_strlit("BLOCKS");
    assert("THUMBNAILIMAGE"@.len() != "CLASSES"@.len());
    assert("THUMBNAILIMAGE"@.len() != "BLOCKS"@.len());
    lemma_save_clean_of(d, "THUMBNAILIMAGE"@);
}

/// Empty-classes omission for the whole stream: a drawing without classes
/// saves to a stream in which no classes section begins anywhere.
pub proof fn lemma_no_classes_section_when_empty(d: SpecDrawing)
    requires
        d.wf(),
        d.classes.len() == 0,
    ensures
        !spec_has_section(crate::writer::spec_save(d), "CLASSES"@),
{
    lemma_name_facts();
    reveal_strlit("CLASSES");
    reveal_strlit("THUMBNAILIMAGE");
    reveal_strlit("BLOCKS");
    assert("CLASSES"@.len() != "THUMBNAILIMAGE"@.len());
    assert("CLASSES"@[0] != "BLOCKS"@[0]);
    lemma_save_clean_of(d, "CLASSES"@);
}



/// Version gating, the other direction: at or above the threshold, with a
/// thumbnail present, the saved stream begins a thumbnail section.
pub proof fn lemma_thumbnail_section_when_enabled(d: SpecDrawing)
    requires
        d.wf(),
        d.header.version.ord() >= crate::writer::thumbnail_threshold().ord(),
        d.thumbnail is Some,
    ensures
        spec_has_section(crate::writer::spec_save(d), "THUMBNAILIMAGE"@),
{
    let hs = crate::writer::spec_header_section(d.header);
    let cs = crate::writer::spec_classes_section(d.classes);
    let ts = crate::writer::spec_tables_section(d);
    let bsx = crate::writer::spec_blocks_section(d.blocks);
    let es = crate::writer::spec_entities_section(d.entities);
    let osx = crate::writer::spec_objects_section(d.objects);
    let th = crate::writer::spec_thumbnail_section(d.header, d.thumbnail);
    let pre = hs + cs + ts + bsx + es + osx;
    let s = crate::writer::spec_save(d);
    assert(th[0] == sec_start());
    assert(th[1] == sec_name("THUMBNAILIMAGE"@));
    assert(th.len() >= 3);
    let i0 = pre.len() as int;
    assert(s[i0] == th[0]);
    assert(s[i0 + 1] == th[1]);
    assert(0 <= i0 < s.len() - 1);
}

/// The saved stream begins a classes section whenever the drawing holds at
/// least one class.
pub proof fn lemma_classes_section_when_nonempty(d: SpecDrawing)
    requires
        d.wf(),
        d.classes.len() > 0,
    ensures
        spec_has_section(crate::writer::spec_save(d), "CLASSES"@),
{
    let hs = crate::writer::spec_header_section(d.header);
    let cs = crate::writer::spec_classes_section(d.classes);
    let s = crate::writer::spec_save(d);
    assert(cs[0] == sec_start());
    assert(cs[1] == sec_name("CLASSES"@));
    let i0 = hs.len() as int;
    assert(s[i0] == cs[0]);
    assert(s[i0 + 1] == cs[1]);
    assert(0 <= i0 < s.len() - 1);
}



} // verus!
