//! Encoding: the canonical section writer.
//!
//! A drawing is written as a fixed sequence of sections: header, classes
//! (omitted when there are none), tables, blocks (omitted when there are
//! none), entities, objects, thumbnail (only at new enough revisions), and
//! a terminating end-of-file marker.  Section framing is owned here; the
//! items themselves are emitted as their stored tagged values.

use vstd::prelude::*;
use crate::code_pair::{pairs_view, spec_int_pair, spec_str_pair, CodePair, SpecPair};
use crate::drawing::{Drawing, SpecDrawing, TableKind};
use crate::header::{AcadVersion, Header};
use crate::hex::{encode_hex_range, spec_hex_encode};
use crate::record::{Block, Class, Entity, Object, SpecRecord, TableRecord};

verus! {

/// The marker that opens a section.
pub open spec fn sec_start() -> SpecPair {
    spec_str_pair(0, "SECTION"@)
}

/// The pair that names a section or a table.
pub open spec fn sec_name(n: Seq<char>) -> SpecPair {
    spec_str_pair(2, n)
}

/// The marker that closes a section.
pub open spec fn sec_end() -> SpecPair {
    spec_str_pair(0, "ENDSEC"@)
}

/// The written form of the header section: framing, the revision variable
/// and the handle flag variable.
pub open spec fn spec_header_section(h: Header) -> Seq<SpecPair> {
    seq![
        sec_start(),
        sec_name("HEADER"@),
        spec_str_pair(9, "$ACADVER"@),
        spec_str_pair(1, h.version.spec_id_text()),
        spec_str_pair(9, "$HANDLING"@),
        spec_int_pair(70, if h.handles_enabled { 1int } else { 0int }),
        sec_end(),
    ]
}

/// The written form of a run of classes: each behind its own marker.
pub open spec fn spec_class_items(cs: Seq<Seq<SpecPair>>) -> Seq<SpecPair>
    decreases cs.len(),
{
    if cs.len() == 0 {
        Seq::empty()
    } else {
        seq![spec_str_pair(0, "CLASS"@)] + cs[0] + spec_class_items(cs.skip(1))
    }
}

/// The written form of the classes section; nothing at all when the
/// drawing holds no classes.
pub open spec fn spec_classes_section(cs: Seq<Seq<SpecPair>>) -> Seq<SpecPair> {
    if cs.len() == 0 {
        Seq::empty()
    } else {
        seq![sec_start(), sec_name("CLASSES"@)] + spec_class_items(cs) + seq![sec_end()]
    }
}

/// The written form of a run of table records: each behind the marker of
/// its table kind.
pub open spec fn spec_table_records(kind: TableKind, rs: Seq<Seq<SpecPair>>) -> Seq<SpecPair>
    decreases rs.len(),
{
    if rs.len() == 0 {
        Seq::empty()
    } else {
        seq![spec_str_pair(0, kind.spec_name())] + rs[0] + spec_table_records(kind, rs.skip(1))
    }
}

/// The written form of one table; nothing at all when it holds no records.
pub open spec fn spec_table(kind: TableKind, rs: Seq<Seq<SpecPair>>) -> Seq<SpecPair> {
    if rs.len() == 0 {
        Seq::empty()
    } else {
        seq![spec_str_pair(0, "TABLE"@), sec_name(kind.spec_name())] + spec_table_records(kind, rs)
            + seq![spec_str_pair(0, "ENDTAB"@)]
    }
}

/// The written form of the tables section: always framed, each table in its
/// fixed order.
pub open spec fn spec_tables_section(d: SpecDrawing) -> Seq<SpecPair> {
    seq![sec_start(), sec_name("TABLES"@)] + spec_table(TableKind::AppIds, d.app_ids) + spec_table(
        TableKind::BlockRecords,
        d.block_records,
    ) + spec_table(TableKind::DimStyles, d.dim_styles) + spec_table(TableKind::Layers, d.layers)
        + spec_table(TableKind::LineTypes, d.line_types) + spec_table(TableKind::Styles, d.styles)
        + spec_table(TableKind::Ucs, d.ucs) + spec_table(TableKind::Views, d.views) + spec_table(
        TableKind::ViewPorts,
        d.view_ports,
    ) + seq![sec_end()]
}

/// The written form of a run of blocks: each framed by its own begin and
/// end markers.
pub open spec fn spec_block_items(bs: Seq<Seq<SpecPair>>) -> Seq<SpecPair>
    decreases bs.len(),
{
    if bs.len() == 0 {
        Seq::empty()
    } else {
        seq![spec_str_pair(0, "BLOCK"@)] + bs[0] + seq![spec_str_pair(0, "ENDBLK"@)]
            + spec_block_items(bs.skip(1))
    }
}

/// The written form of the blocks section; nothing at all when the drawing
/// holds no blocks.
pub open spec fn spec_blocks_section(bs: Seq<Seq<SpecPair>>) -> Seq<SpecPair> {
    if bs.len() == 0 {
        Seq::empty()
    } else {
        seq![sec_start(), sec_name("BLOCKS"@)] + spec_block_items(bs) + seq![sec_end()]
    }
}

/// The written form of a run of entities or objects: each body behind the
/// marker that carries its type name.
pub open spec fn spec_record_items(rs: Seq<SpecRecord>) -> Seq<SpecPair>
    decreases rs.len(),
{
    if rs.len() == 0 {
        Seq::empty()
    } else {
        seq![spec_str_pair(0, rs[0].name)] + rs[0].pairs + spec_record_items(rs.skip(1))
    }
}

/// The written form of the entities section: always framed, possibly empty.
pub open spec fn spec_entities_section(es: Seq<SpecRecord>) -> Seq<SpecPair> {
    seq![sec_start(), sec_name("ENTITIES"@)] + spec_record_items(es) + seq![sec_end()]
}

/// The written form of the objects section: always framed, possibly empty.
pub open spec fn spec_objects_section(os: Seq<SpecRecord>) -> Seq<SpecPair> {
    seq![sec_start(), sec_name("OBJECTS"@)] + spec_record_items(os) + seq![sec_end()]
}

/// The payload bytes of a thumbnail, split into runs of at most 128 bytes,
/// each hex-encoded into one string pair.
pub open spec fn spec_thumbnail_chunks(payload: Seq<u8>) -> Seq<SpecPair>
    decreases payload.len(),
{
    if payload.len() == 0 {
        Seq::empty()
    } else {
        let k = if payload.len() < 128 {
            payload.len() as int
        } else {
            128int
        };
        seq![spec_str_pair(310, spec_hex_encode(payload.take(k)))] + spec_thumbnail_chunks(
            payload.skip(k),
        )
    }
}

/// The fixed revision from which the thumbnail section is written.
pub open spec fn thumbnail_threshold() -> AcadVersion {
    AcadVersion::R2000
}

/// The written form of the thumbnail section: only at or above the
/// threshold revision, and only when a thumbnail is present.  The
/// synthesized fourteen-byte bitmap header is stripped; the payload length
/// is declared in an integer pair.
pub open spec fn spec_thumbnail_section(h: Header, t: Option<Seq<u8>>) -> Seq<SpecPair> {
    if h.version.ord() >= thumbnail_threshold().ord() && t is Some {
        seq![
            sec_start(),
            sec_name("THUMBNAILIMAGE"@),
            spec_int_pair(90, t->0.len() - 14),
        ] + spec_thumbnail_chunks(t->0.skip(14)) + seq![sec_end()]
    } else {
        Seq::empty()
    }
}

/// The pair that ends a stream.
pub open spec fn eof_pair() -> SpecPair {
    spec_str_pair(0, "EOF"@)
}

/// The complete written form of a drawing.
pub open spec fn spec_save(d: SpecDrawing) -> Seq<SpecPair> {
    spec_header_section(d.header) + spec_classes_section(d.classes) + spec_tables_section(d)
        + spec_blocks_section(d.blocks) + spec_entities_section(d.entities) + spec_objects_section(
        d.objects,
    ) + spec_thumbnail_section(d.header, d.thumbnail) + seq![eof_pair()]
}

/// Appends one pair.
fn push_pair(out: &mut Vec<CodePair>, p: CodePair)
    ensures
        pairs_view(final(out)@) == pairs_view(old(out)@).push(p@),
{
    let ghost p0 = p@;
    out.push(p);
    proof {
        assert(pairs_view(out@) =~= pairs_view(old(out)@).push(p0));
    }
}

/// Appends a stored body of pairs unchanged.
fn push_pairs(out: &mut Vec<CodePair>, ps: &Vec<CodePair>)
    ensures
        pairs_view(final(out)@) == pairs_view(old(out)@) + pairs_view(ps@),
{
    let mut j: usize = 0;
    proof {
        assert(pairs_view(out@) =~= pairs_view(old(out)@) + pairs_view(ps@).take(0));
    }
    while j < ps.len()
        invariant
            j <= ps@.len(),
            pairs_view(out@) == pairs_view(old(out)@) + pairs_view(ps@).take(j as int),
        decreases ps@.len() - j,
    {
        let p = ps[j].clone();
        push_pair(out, p);
        proof {
            assert(pairs_view(ps@).take(j as int + 1) =~= pairs_view(ps@).take(j as int).push(
                pairs_view(ps@)[j as int],
            ));
            assert(pairs_view(out@) =~= pairs_view(old(out)@) + pairs_view(ps@).take(j as int + 1));
        }
        j = j + 1;
    }
    proof {
        assert(pairs_view(ps@).take(ps@.len() as int) =~= pairs_view(ps@));
    }
}

/// Writes the header section.
fn write_header(h: &Header, out: &mut Vec<CodePair>)
    ensures
        pairs_view(final(out)@) == pairs_view(old(out)@) + spec_header_section(*h),
{
    push_pair(out, CodePair::new_str(0, "SECTION"));
    push_pair(out, CodePair::new_str(2, "HEADER"));
    push_pair(out, CodePair::new_str(9, "$ACADVER"));
    push_pair(out, CodePair::new_string(1, h.version.id_text()));
    push_pair(out, CodePair::new_str(9, "$HANDLING"));
    push_pair(out, CodePair::new_i32(70, if h.handles_enabled { 1 } else { 0 }));
    push_pair(out, CodePair::new_str(0, "ENDSEC"));
    proof {
        assert(pairs_view(out@) =~= pairs_view(old(out)@) + spec_header_section(*h));
    }
}

/// Writes the classes section, or nothing when there are no classes.
fn write_classes(classes: &Vec<Class>, out: &mut Vec<CodePair>)
    ensures
        pairs_view(final(out)@) == pairs_view(old(out)@) + spec_classes_section(
            classes@.map_values(|c: Class| c@),
        ),
{
    let ghost cs = classes@.map_values(|c: Class| c@);
    if classes.len() == 0 {
        proof {
            assert(pairs_view(out@) =~= pairs_view(old(out)@) + spec_classes_section(cs));
        }
        return ;
    }
    push_pair(out, CodePair::new_str(0, "SECTION"));
    push_pair(out, CodePair::new_str(2, "CLASSES"));
    let ghost base = pairs_view(out@);
    let mut i: usize = 0;
    proof {
        assert(cs.skip(0) =~= cs);
    }
    while i < classes.len()
        invariant
            i <= classes@.len(),
            cs == classes@.map_values(|c: Class| c@),
            base + spec_class_items(cs) == pairs_view(out@) + spec_class_items(
                cs.skip(i as int),
            ),
        decreases classes@.len() - i,
    {
        let ghost pre = pairs_view(out@);
        push_pair(out, CodePair::new_str(0, "CLASS"));
        push_pairs(out, &classes[i].pairs);
        proof {
            let tail = cs.skip(i as int);
            assert(tail[0] == cs[i as int]);
            assert(tail.skip(1) =~= cs.skip(i as int + 1));
            assert(cs[i as int] == classes@[i as int]@);
            assert(pairs_view(out@) =~= pre + (seq![spec_str_pair(0, "CLASS"@)] + cs[i as int]));
            assert(base + spec_class_items(cs) =~= pairs_view(out@) + spec_class_items(
                cs.skip(i as int + 1),
            ));
        }
        i = i + 1;
    }
    proof {
        assert(cs.skip(cs.len() as int) =~= Seq::<Seq<SpecPair>>::empty());
        assert(base + spec_class_items(cs) =~= pairs_view(out@));
    }
    push_pair(out, CodePair::new_str(0, "ENDSEC"));
    proof {
        assert(pairs_view(out@) =~= pairs_view(old(out)@) + spec_classes_section(cs));
    }
}

/// Writes one table, or nothing when it holds no records.
fn write_table(kind: TableKind, records: &Vec<TableRecord>, out: &mut Vec<CodePair>)
    ensures
        pairs_view(final(out)@) == pairs_view(old(out)@) + spec_table(
            kind,
            records@.map_values(|t: TableRecord| t@),
        ),
{
    let ghost rs = records@.map_values(|t: TableRecord| t@);
    if records.len() == 0 {
        proof {
            assert(pairs_view(out@) =~= pairs_view(old(out)@) + spec_table(kind, rs));
        }
        return ;
    }
    push_pair(out, CodePair::new_str(0, "TABLE"));
    push_pair(out, CodePair::new_str(2, kind.name_text()));
    let ghost base = pairs_view(out@);
    let mut i: usize = 0;
    proof {
        assert(rs.skip(0) =~= rs);
    }
    while i < records.len()
        invariant
            i <= records@.len(),
            rs == records@.map_values(|t: TableRecord| t@),
            base + spec_table_records(kind, rs) == pairs_view(out@) + spec_table_records(
                kind,
                rs.skip(i as int),
            ),
        decreases records@.len() - i,
    {
        let ghost pre = pairs_view(out@);
        push_pair(out, CodePair::new_str(0, kind.name_text()));
        push_pairs(out, &records[i].pairs);
        proof {
            let tail = rs.skip(i as int);
            assert(tail[0] == rs[i as int]);
            assert(tail.skip(1) =~= rs.skip(i as int + 1));
            assert(rs[i as int] == records@[i as int]@);
            assert(pairs_view(out@) =~= pre + (seq![spec_str_pair(0, kind.spec_name())]
                + rs[i as int]));
            assert(base + spec_table_records(kind, rs) =~= pairs_view(out@) + spec_table_records(
                kind,
                rs.skip(i as int + 1),
            ));
        }
        i = i + 1;
    }
    proof {
        assert(rs.skip(rs.len() as int) =~= Seq::<Seq<SpecPair>>::empty());
        assert(base + spec_table_records(kind, rs) =~= pairs_view(out@));
    }
    push_pair(out, CodePair::new_str(0, "ENDTAB"));
    proof {
        assert(pairs_view(out@) =~= pairs_view(old(out)@) + spec_table(kind, rs));
    }
}

/// Writes the blocks section, or nothing when there are no blocks.
fn write_blocks(blocks: &Vec<Block>, out: &mut Vec<CodePair>)
    ensures
        pairs_view(final(out)@) == pairs_view(old(out)@) + spec_blocks_section(
            blocks@.map_values(|b: Block| b@),
        ),
{
    let ghost bs = blocks@.map_values(|b: Block| b@);
    if blocks.len() == 0 {
        proof {
            assert(pairs_view(out@) =~= pairs_view(old(out)@) + spec_blocks_section(bs));
        }
        return ;
    }
    push_pair(out, CodePair::new_str(0, "SECTION"));
    push_pair(out, CodePair::new_str(2, "BLOCKS"));
    let ghost base = pairs_view(out@);
    let mut i: usize = 0;
    proof {
        assert(bs.skip(0) =~= bs);
    }
    while i < blocks.len()
        invariant
            i <= blocks@.len(),
            bs == blocks@.map_values(|b: Block| b@),
            base + spec_block_items(bs) == pairs_view(out@) + spec_block_items(bs.skip(i as int)),
        decreases blocks@.len() - i,
    {
        let ghost pre = pairs_view(out@);
        push_pair(out, CodePair::new_str(0, "BLOCK"));
        push_pairs(out, &blocks[i].pairs);
        push_pair(out, CodePair::new_str(0, "ENDBLK"));
        proof {
            let tail = bs.skip(i as int);
            assert(tail[0] == bs[i as int]);
            assert(tail.skip(1) =~= bs.skip(i as int + 1));
            assert(bs[i as int] == blocks@[i as int]@);
            assert(pairs_view(out@) =~= pre + (seq![spec_str_pair(0, "BLOCK"@)] + bs[i as int]
                + seq![spec_str_pair(0, "ENDBLK"@)]));
            assert(base + spec_block_items(bs) =~= pairs_view(out@) + spec_block_items(
                bs.skip(i as int + 1),
            ));
        }
        i = i + 1;
    }
    proof {
        assert(bs.skip(bs.len() as int) =~= Seq::<Seq<SpecPair>>::empty());
        assert(base + spec_block_items(bs) =~= pairs_view(out@));
    }
    push_pair(out, CodePair::new_str(0, "ENDSEC"));
    proof {
        assert(pairs_view(out@) =~= pairs_view(old(out)@) + spec_blocks_section(bs));
    }
}

/// Writes the entities section; it is always framed, possibly empty.
fn write_entities(entities: &Vec<Entity>, out: &mut Vec<CodePair>)
    ensures
        pairs_view(final(out)@) == pairs_view(old(out)@) + spec_entities_section(
            entities@.map_values(|e: Entity| e@),
        ),
{
    let ghost es = entities@.map_values(|e: Entity| e@);
    push_pair(out, CodePair::new_str(0, "SECTION"));
    push_pair(out, CodePair::new_str(2, "ENTITIES"));
    let ghost base = pairs_view(out@);
    let mut i: usize = 0;
    proof {
        assert(es.skip(0) =~= es);
    }
    while i < entities.len()
        invariant
            i <= entities@.len(),
            es == entities@.map_values(|e: Entity| e@),
            base + spec_record_items(es) == pairs_view(out@) + spec_record_items(
                es.skip(i as int),
            ),
        decreases entities@.len() - i,
    {
        let ghost pre = pairs_view(out@);
        push_pair(out, CodePair::new_str(0, entities[i].name.as_str()));
        push_pairs(out, &entities[i].pairs);
        proof {
            let tail = es.skip(i as int);
            assert(tail[0] == es[i as int]);
            assert(tail.skip(1) =~= es.skip(i as int + 1));
            assert(es[i as int] == entities@[i as int]@);
            assert(pairs_view(out@) =~= pre + (seq![spec_str_pair(0, es[i as int].name)]
                + es[i as int].pairs));
            assert(base + spec_record_items(es) =~= pairs_view(out@) + spec_record_items(
                es.skip(i as int + 1),
            ));
        }
        i = i + 1;
    }
    proof {
        assert(es.skip(es.len() as int) =~= Seq::<SpecRecord>::empty());
        assert(base + spec_record_items(es) =~= pairs_view(out@));
    }
    push_pair(out, CodePair::new_str(0, "ENDSEC"));
    proof {
        assert(pairs_view(out@) =~= pairs_view(old(out)@) + spec_entities_section(es));
    }
}

/// Writes the objects section; it is always framed, possibly empty.
fn write_objects(objects: &Vec<Object>, out: &mut Vec<CodePair>)
    ensures
        pairs_view(final(out)@) == pairs_view(old(out)@) + spec_objects_section(
            objects@.map_values(|o: Object| o@),
        ),
{
    let ghost os = objects@.map_values(|o: Object| o@);
    push_pair(out, CodePair::new_str(0, "SECTION"));
    push_pair(out, CodePair::new_str(2, "OBJECTS"));
    let ghost base = pairs_view(out@);
    let mut i: usize = 0;
    proof {
        assert(os.skip(0) =~= os);
    }
    while i < objects.len()
        invariant
            i <= objects@.len(),
            os == objects@.map_values(|o: Object| o@),
            base + spec_record_items(os) == pairs_view(out@) + spec_record_items(
                os.skip(i as int),
            ),
        decreases objects@.len() - i,
    {
        let ghost pre = pairs_view(out@);
        push_pair(out, CodePair::new_str(0, objects[i].name.as_str()));
        push_pairs(out, &objects[i].pairs);
        proof {
            let tail = os.skip(i as int);
            assert(tail[0] == os[i as int]);
            assert(tail.skip(1) =~= os.skip(i as int + 1));
            assert(os[i as int] == objects@[i as int]@);
            assert(pairs_view(out@) =~= pre + (seq![spec_str_pair(0, os[i as int].name)]
                + os[i as int].pairs));
            assert(base + spec_record_items(os) =~= pairs_view(out@) + spec_record_items(
                os.skip(i as int + 1),
            ));
        }
        i = i + 1;
    }
    proof {
        assert(os.skip(os.len() as int) =~= Seq::<SpecRecord>::empty());
        assert(base + spec_record_items(os) =~= pairs_view(out@));
    }
    push_pair(out, CodePair::new_str(0, "ENDSEC"));
    proof {
        assert(pairs_view(out@) =~= pairs_view(old(out)@) + spec_objects_section(os));
    }
}

/// Writes the thumbnail section, or nothing when the revision is below the
/// threshold or no thumbnail is present.
fn write_thumbnail(h: &Header, thumbnail: &Option<Vec<u8>>, out: &mut Vec<CodePair>)
    requires
        thumbnail matches Some(t) ==> 14 <= t@.len() <= 14 + 0x7fff_ffff,
    ensures
        pairs_view(final(out)@) == pairs_view(old(out)@) + spec_thumbnail_section(
            *h,
            match thumbnail {
                Some(t) => Some(t@),
                None => None,
            },
        ),
{
    let ghost tv: Option<Seq<u8>> = match thumbnail {
        Some(t) => Some(t@),
        None => None,
    };
    if !h.version.at_least(AcadVersion::R2000) {
        proof {
            assert(pairs_view(out@) =~= pairs_view(old(out)@) + spec_thumbnail_section(*h, tv));
        }
        return ;
    }
    match thumbnail {
        None => {
            proof {
                assert(pairs_view(out@) =~= pairs_view(old(out)@) + spec_thumbnail_section(
                    *h,
                    tv,
                ));
            }
        },
        Some(data) => {
            push_pair(out, CodePair::new_str(0, "SECTION"));
            push_pair(out, CodePair::new_str(2, "THUMBNAILIMAGE"));
            let length = data.len() - 14;
            push_pair(out, CodePair::new_i32(90, length as i32));
            let ghost payload = data@.skip(14);
            let ghost base = pairs_view(out@);
            let mut pos: usize = 14;
            proof {
                assert(payload.skip(0) =~= payload);
            }
            while pos < data.len()
                invariant
                    14 <= pos <= data@.len(),
                    payload == data@.skip(14),
                    base + spec_thumbnail_chunks(payload) == pairs_view(out@)
                        + spec_thumbnail_chunks(payload.skip(pos - 14)),
                decreases data@.len() - pos,
            {
                let ghost pre = pairs_view(out@);
                let chunk_end = if data.len() - pos < 128 {
                    data.len()
                } else {
                    pos + 128
                };
                let run = encode_hex_range(data, pos, chunk_end);
                push_pair(out, CodePair::new_string(310, run));
                proof {
                    let tail = payload.skip(pos - 14);
                    let k = if tail.len() < 128 {
                        tail.len() as int
                    } else {
                        128int
                    };
                    assert(tail.take(k) =~= data@.subrange(pos as int, chunk_end as int));
                    assert(tail.skip(k) =~= payload.skip(chunk_end - 14));
                    assert(pairs_view(out@) =~= pre + seq![
                        spec_str_pair(310, spec_hex_encode(tail.take(k))),
                    ]);
                    assert(base + spec_thumbnail_chunks(payload) =~= pairs_view(out@)
                        + spec_thumbnail_chunks(payload.skip(chunk_end - 14)));
                }
                pos = chunk_end;
            }
            proof {
                assert(payload.skip(pos - 14) =~= Seq::<u8>::empty());
                assert(base + spec_thumbnail_chunks(payload) =~= pairs_view(out@));
            }
            push_pair(out, CodePair::new_str(0, "ENDSEC"));
            proof {
                assert(pairs_view(out@) =~= pairs_view(old(out)@) + spec_thumbnail_section(
                    *h,
                    tv,
                ));
            }
        },
    }
}

/// Writes the tables section: always framed, each table in its fixed order.
fn write_tables(d: &Drawing, out: &mut Vec<CodePair>)
    ensures
        pairs_view(final(out)@) == pairs_view(old(out)@) + spec_tables_section(d@),
{
    push_pair(out, CodePair::new_str(0, "SECTION"));
    push_pair(out, CodePair::new_str(2, "TABLES"));
    let ghost base = pairs_view(out@);
    proof {
        assert(base =~= pairs_view(old(out)@) + seq![sec_start(), sec_name("TABLES"@)]);
    }
    write_table(TableKind::AppIds, &d.app_ids, out);
    write_table(TableKind::BlockRecords, &d.block_records, out);
    write_table(TableKind::DimStyles, &d.dim_styles, out);
    write_table(TableKind::Layers, &d.layers, out);
    write_table(TableKind::LineTypes, &d.line_types, out);
    write_table(TableKind::Styles, &d.styles, out);
    write_table(TableKind::Ucs, &d.ucs, out);
    write_table(TableKind::Views, &d.views, out);
    write_table(TableKind::ViewPorts, &d.view_ports, out);
    let ghost pre_end = pairs_view(out@);
    push_pair(out, CodePair::new_str(0, "ENDSEC"));
    proof {
        assert(pre_end == base + spec_table(TableKind::AppIds, d@.app_ids) + spec_table(
            TableKind::BlockRecords,
            d@.block_records,
        ) + spec_table(TableKind::DimStyles, d@.dim_styles) + spec_table(
            TableKind::Layers,
            d@.layers,
        ) + spec_table(TableKind::LineTypes, d@.line_types) + spec_table(
            TableKind::Styles,
            d@.styles,
        ) + spec_table(TableKind::Ucs, d@.ucs) + spec_table(TableKind::Views, d@.views)
            + spec_table(TableKind::ViewPorts, d@.view_ports));
        assert(pairs_view(out@) =~= pre_end + seq![sec_end()]);
        assert(pairs_view(out@) =~= pairs_view(old(out)@) + spec_tables_section(d@));
    }
}

impl Drawing {
    /// The cross-cutting gate the writer computes once and threads to the
    /// block and entity encoders: object handles are written from the first
    /// revision that requires them, or when the drawing enables them.
    pub fn write_handles(&self) -> (r: bool)
        ensures
            r == (self.header.version.ord() >= AcadVersion::R13.ord()
                || self.header.handles_enabled),
    {
        self.header.version.at_least(AcadVersion::R13) || self.header.handles_enabled
    }

    /// Writes the drawing as its canonical stream of tagged values.
    pub fn save(&self) -> (r: Vec<CodePair>)
        requires
            self@.thumbnail_wf(),
        ensures
            pairs_view(r@) == spec_save(self@),
    {
        let mut out: Vec<CodePair> = Vec::new();
        proof {
            assert(pairs_view(out@) =~= Seq::<SpecPair>::empty());
        }
        write_header(&self.header, &mut out);
        write_classes(&self.classes, &mut out);
        proof {
            assert(pairs_view(out@) == Seq::<SpecPair>::empty() + spec_header_section(self@.header)
                + spec_classes_section(self@.classes));
            assert(pairs_view(out@) =~= spec_header_section(self@.header) + spec_classes_section(
                self@.classes,
            ));
        }
        write_tables(self, &mut out);
        let ghost mid = pairs_view(out@);
        write_blocks(&self.blocks, &mut out);
        write_entities(&self.entities, &mut out);
        write_objects(&self.objects, &mut out);
        write_thumbnail(&self.header, &self.thumbnail, &mut out);
        let ghost pre_eof = pairs_view(out@);
        push_pair(&mut out, CodePair::new_str(0, "EOF"));
        proof {
            assert(mid == spec_header_section(self@.header) + spec_classes_section(self@.classes)
                + spec_tables_section(self@));
            assert(pre_eof == mid + spec_blocks_section(self@.blocks) + spec_entities_section(
                self@.entities,
            ) + spec_objects_section(self@.objects) + spec_thumbnail_section(
                self@.header,
                self@.thumbnail,
            ));
            assert(pairs_view(out@) =~= pre_eof + seq![eof_pair()]);
            assert(pairs_view(out@) == spec_save(self@));
        }
        out
    }

}

} // verus!
