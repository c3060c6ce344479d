//! The server's byte format for chunk contents.
//!
//! A chunk blob is the section count as 32-bit little endian, then each
//! section's 4096 cells in order; an empty cell is one zero byte, an
//! occupied cell a one byte followed by the block id as 32-bit little
//! endian. The encoder emits exactly this; the parser accepts nothing
//! else, so a parsed blob is always the encoding of its result.

use vstd::prelude::*;

use crate::chunkdata::{BlockDataInfo, ChunkData, ChunkSection, SECTION_CELLS};

verus! {

/// The four little-endian bytes of a 32-bit value.
pub open spec fn u32_le_bytes(n: u32) -> Seq<u8> {
    seq![
        (n & 0xff) as u8,
        ((n >> 8) & 0xff) as u8,
        ((n >> 16) & 0xff) as u8,
        ((n >> 24) & 0xff) as u8,
    ]
}

/// The encoding of one cell.
pub open spec fn cell_bytes(c: Option<BlockDataInfo>) -> Seq<u8> {
    match c {
        None => seq![0u8],
        Some(b) => seq![1u8] + u32_le_bytes(b.id),
    }
}

/// The encoding of a row of cells, in order.
pub open spec fn cells_bytes(cells: Seq<Option<BlockDataInfo>>) -> Seq<u8>
    decreases cells.len(),
{
    if cells.len() == 0 {
        Seq::<u8>::empty()
    } else {
        cells_bytes(cells.drop_last()) + cell_bytes(cells.last())
    }
}

/// The encoding of a stack of sections, in order.
pub open spec fn sections_bytes(sections: Seq<ChunkSection>) -> Seq<u8>
    decreases sections.len(),
{
    if sections.len() == 0 {
        Seq::<u8>::empty()
    } else {
        sections_bytes(sections.drop_last()) + cells_bytes(sections.last()@)
    }
}

/// The encoding of a whole chunk column's contents.
pub open spec fn chunk_bytes(d: ChunkData) -> Seq<u8> {
    u32_le_bytes(d@.len() as u32) + sections_bytes(d@)
}

proof fn lemma_cells_bytes_push(s: Seq<Option<BlockDataInfo>>, x: Option<BlockDataInfo>)
    ensures
        cells_bytes(s.push(x)) == cells_bytes(s) + cell_bytes(x),
{
    assert(s.push(x).drop_last() =~= s);
    assert(s.push(x).last() == x);
}

/// The encoding of a concatenation of cell runs is the concatenation of
/// their encodings.
proof fn lemma_cells_bytes_append(a: Seq<Option<BlockDataInfo>>, b: Seq<Option<BlockDataInfo>>)
    ensures
        cells_bytes(a + b) == cells_bytes(a) + cells_bytes(b),
    decreases b.len(),
{
    if b.len() == 0 {
        assert(a + b =~= a);
        assert(cells_bytes(a) + cells_bytes(b) =~= cells_bytes(a));
    } else {
        lemma_cells_bytes_append(a, b.drop_last());
        assert((a + b).drop_last() =~= a + b.drop_last());
        assert((a + b).last() == b.last());
        assert(cells_bytes(a + b) == cells_bytes(a + b.drop_last()) + cell_bytes(b.last()));
        assert((cells_bytes(a) + cells_bytes(b.drop_last())) + cell_bytes(b.last())
            =~= cells_bytes(a) + (cells_bytes(b.drop_last()) + cell_bytes(b.last())));
    }
}

/// One cell peeled from the front of a run's encoding.
proof fn lemma_cells_bytes_first(c: Seq<Option<BlockDataInfo>>)
    requires
        c.len() > 0,
    ensures
        cells_bytes(c) == cell_bytes(c[0]) + cells_bytes(c.drop_first()),
{
    assert(c =~= seq![c[0]] + c.drop_first());
    lemma_cells_bytes_append(seq![c[0]], c.drop_first());
    assert(seq![c[0]].drop_last() =~= Seq::<Option<BlockDataInfo>>::empty());
    assert(cells_bytes(seq![c[0]]) == cells_bytes(Seq::<Option<BlockDataInfo>>::empty())
        + cell_bytes(c[0]));
    assert(cells_bytes(Seq::<Option<BlockDataInfo>>::empty()) + cell_bytes(c[0]) =~= cell_bytes(
        c[0],
    ));
}

/// A section's encoding is the concatenation of the prefix encodings of
/// whole sections.
proof fn lemma_sections_bytes_append(a: Seq<ChunkSection>, b: Seq<ChunkSection>)
    ensures
        sections_bytes(a + b) == sections_bytes(a) + sections_bytes(b),
    decreases b.len(),
{
    if b.len() == 0 {
        assert(a + b =~= a);
        assert(sections_bytes(a) + sections_bytes(b) =~= sections_bytes(a));
    } else {
        lemma_sections_bytes_append(a, b.drop_last());
        assert((a + b).drop_last() =~= a + b.drop_last());
        assert((a + b).last() == b.last());
        assert(sections_bytes(a + b) == sections_bytes(a + b.drop_last()) + cells_bytes(
            b.last()@,
        ));
        assert((sections_bytes(a) + sections_bytes(b.drop_last())) + cells_bytes(b.last()@)
            =~= sections_bytes(a) + (sections_bytes(b.drop_last()) + cells_bytes(b.last()@)));
    }
}

/// One section peeled from the front of a stack's encoding.
proof fn lemma_sections_bytes_first(s: Seq<ChunkSection>)
    requires
        s.len() > 0,
    ensures
        sections_bytes(s) == cells_bytes(s[0]@) + sections_bytes(s.drop_first()),
{
    assert(s =~= seq![s[0]] + s.drop_first());
    lemma_sections_bytes_append(seq![s[0]], s.drop_first());
    assert(seq![s[0]].drop_last() =~= Seq::<ChunkSection>::empty());
    assert(sections_bytes(seq![s[0]]) == sections_bytes(Seq::<ChunkSection>::empty())
        + cells_bytes(s[0]@));
    assert(sections_bytes(Seq::<ChunkSection>::empty()) + cells_bytes(s[0]@) =~= cells_bytes(
        s[0]@,
    ));
}

/// Little-endian encoding is one to one.
proof fn lemma_u32_le_inj(x: u32, y: u32)
    requires
        u32_le_bytes(x) == u32_le_bytes(y),
    ensures
        x == y,
{
    assert(u32_le_bytes(x)[0] == u32_le_bytes(y)[0] && u32_le_bytes(x)[1] == u32_le_bytes(y)[1]
        && u32_le_bytes(x)[2] == u32_le_bytes(y)[2] && u32_le_bytes(x)[3] == u32_le_bytes(y)[3]);
    assert(((x & 0xff) as u8 == (y & 0xff) as u8 && ((x >> 8) & 0xff) as u8 == ((y >> 8)
        & 0xff) as u8 && ((x >> 16) & 0xff) as u8 == ((y >> 16) & 0xff) as u8 && ((x >> 24)
        & 0xff) as u8 == ((y >> 24) & 0xff) as u8) ==> x == y) by (bit_vector);
}

/// Cell encodings form a prefix-free code: two equal-count runs framing
/// the same bytes are the same run with the same remainder.
proof fn lemma_cells_prefix_det(
    c1: Seq<Option<BlockDataInfo>>,
    c2: Seq<Option<BlockDataInfo>>,
    r1: Seq<u8>,
    r2: Seq<u8>,
)
    requires
        c1.len() == c2.len(),
        cells_bytes(c1) + r1 == cells_bytes(c2) + r2,
    ensures
        c1 =~= c2,
        r1 == r2,
    decreases c1.len(),
{
    if c1.len() == 0 {
        assert(cells_bytes(c1) + r1 =~= r1);
        assert(cells_bytes(c2) + r2 =~= r2);
        assert(r1 =~= r2);
    } else {
        lemma_cells_bytes_first(c1);
        lemma_cells_bytes_first(c2);
        let t1 = cells_bytes(c1.drop_first()) + r1;
        let t2 = cells_bytes(c2.drop_first()) + r2;
        assert(cell_bytes(c1[0]) + t1 =~= cells_bytes(c1) + r1);
        assert(cell_bytes(c2[0]) + t2 =~= cells_bytes(c2) + r2);
        let all = cell_bytes(c1[0]) + t1;
        assert(all[0] == cell_bytes(c1[0])[0]);
        assert(all[0] == cell_bytes(c2[0])[0]);
        match (c1[0], c2[0]) {
            (None, None) => {
                assert(t1 =~= all.skip(1));
                assert(t2 =~= (cell_bytes(c2[0]) + t2).skip(1));
                lemma_cells_prefix_det(c1.drop_first(), c2.drop_first(), r1, r2);
                assert forall|i: int| 0 <= i < c1.len() implies c1[i] == c2[i] by {
                    if i > 0 {
                        assert(c1[i] == c1.drop_first()[i - 1]);
                        assert(c2[i] == c2.drop_first()[i - 1]);
                    }
                }
                assert(c1 =~= c2);
            },
            (Some(b1), Some(b2)) => {
                assert forall|i: int|
                    0 <= i < 4 implies u32_le_bytes(b1.id)[i] == u32_le_bytes(b2.id)[i] by {
                    assert(all[1 + i] == u32_le_bytes(b1.id)[i]);
                    assert(all[1 + i] == u32_le_bytes(b2.id)[i]);
                }
                assert(u32_le_bytes(b1.id) =~= u32_le_bytes(b2.id));
                lemma_u32_le_inj(b1.id, b2.id);
                assert(c1[0] == c2[0]);
                assert(t1 =~= all.skip(5));
                assert(t2 =~= (cell_bytes(c2[0]) + t2).skip(5));
                lemma_cells_prefix_det(c1.drop_first(), c2.drop_first(), r1, r2);
                assert forall|i: int| 0 <= i < c1.len() implies c1[i] == c2[i] by {
                    if i > 0 {
                        assert(c1[i] == c1.drop_first()[i - 1]);
                        assert(c2[i] == c2.drop_first()[i - 1]);
                    }
                }
                assert(c1 =~= c2);
            },
            (None, Some(b2)) => {
                assert(cell_bytes(c1[0])[0] == 0u8);
                assert(cell_bytes(c2[0])[0] == 1u8);
                assert(false);
            },
            (Some(b1), None) => {
                assert(cell_bytes(c1[0])[0] == 1u8);
                assert(cell_bytes(c2[0])[0] == 0u8);
                assert(false);
            },
        }
    }
}

proof fn lemma_sections_bytes_push(s: Seq<ChunkSection>, x: ChunkSection)
    ensures
        sections_bytes(s.push(x)) == sections_bytes(s) + cells_bytes(x@),
{
    assert(s.push(x).drop_last() =~= s);
    assert(s.push(x).last() == x);
}

/// Appends the little-endian encoding of a 32-bit value.
fn push_u32_le(out: &mut Vec<u8>, n: u32)
    ensures
        final(out)@ == old(out)@ + u32_le_bytes(n),
{
    out.push((n & 0xff) as u8);
    out.push(((n >> 8) & 0xff) as u8);
    out.push(((n >> 16) & 0xff) as u8);
    out.push(((n >> 24) & 0xff) as u8);
    proof {
        assert(out@ =~= old(out)@ + u32_le_bytes(n));
    }
}

/// Encodes a chunk column's contents into its byte blob.
pub fn encode_chunk(d: &ChunkData) -> (r: Vec<u8>)
    requires
        d.wf(),
        d@.len() <= u32::MAX,
    ensures
        r@ == chunk_bytes(*d),
{
    let mut out: Vec<u8> = Vec::new();
    let n = d.len();
    push_u32_le(&mut out, n as u32);
    let mut i: usize = 0;
    while i < n
        invariant
            d.wf(),
            n == d@.len() <= u32::MAX,
            i <= n,
            out@ == u32_le_bytes(n as u32) + sections_bytes(d@.take(i as int)),
        decreases n - i,
    {
        append_section(&mut out, d, i);
        proof {
            assert(d@.take(i as int).push(d@[i as int]) =~= d@.take(i as int + 1));
            lemma_sections_bytes_push(d@.take(i as int), d@[i as int]);
        }
        i = i + 1;
    }
    proof {
        assert(d@.take(n as int) =~= d@);
    }
    out
}

/// Appends the cell bytes of section `i` of `d`.
fn append_section(out: &mut Vec<u8>, d: &ChunkData, i: usize)
    requires
        d.wf(),
        i < d@.len(),
        d@.len() <= u32::MAX,
    ensures
        final(out)@ == old(out)@ + cells_bytes(d@[i as int]@),
{
    let mut c: usize = 0;
    while c < SECTION_CELLS
        invariant
            d.wf(),
            i < d@.len(),
            d@.len() <= u32::MAX,
            c <= SECTION_CELLS,
            d@[i as int]@.len() == SECTION_CELLS,
            out@ == old(out)@ + cells_bytes(d@[i as int]@.take(c as int)),
        decreases SECTION_CELLS - c,
    {
        let cell = section_cell(d, i, c);
        match cell {
            None => {
                out.push(0u8);
            },
            Some(b) => {
                out.push(1u8);
                push_u32_le(out, b.id);
            },
        }
        proof {
            let cells = d@[i as int]@;
            assert(cells.take(c as int).push(cells[c as int]) =~= cells.take(c as int + 1));
            lemma_cells_bytes_push(cells.take(c as int), cells[c as int]);
            assert(out@ =~= old(out)@ + cells_bytes(cells.take(c as int + 1)));
        }
        c = c + 1;
    }
    proof {
        assert(d@[i as int]@.take(SECTION_CELLS as int) =~= d@[i as int]@);
    }
}

/// Reads one cell of one section by linear index.
fn section_cell(d: &ChunkData, i: usize, c: usize) -> (r: Option<BlockDataInfo>)
    requires
        d.wf(),
        i < d@.len(),
        d@.len() <= u32::MAX,
        c < SECTION_CELLS,
    ensures
        r == d@[i as int]@[c as int],
{
    let cu = c as u32;
    proof {
        assert(cu % 16 < 16 && cu / 256 < 16 && (cu / 16) % 16 < 16 && (cu / 256) * 256 + ((cu
            / 16) % 16) * 16 + (cu % 16) == cu) by (bit_vector)
            requires
                cu < 4096,
        ;
    }
    let x8 = (cu % 16) as u8;
    let y8 = (cu / 256) as u8;
    let z8 = ((cu / 16) % 16) as u8;
    let cell = crate::positions::ChunkBlockPosition::new(x8, y8, z8);
    assert(cell.spec_index() == c as int);
    d.get_block(i as u32, &cell)
}

/// Parses a chunk blob. Accepts exactly the encoder's output: on success
/// the input is the encoding of the returned contents, and every sound
/// encoding is accepted, with the encoded contents recovered.
pub fn parse_chunk(bytes: &Vec<u8>) -> (r: Result<ChunkData, String>)
    ensures
        r matches Ok(d) ==> d.wf() && d@.len() <= u32::MAX && bytes@ == chunk_bytes(d),
        forall|d: ChunkData|
            d.wf() && 0 < d@.len() <= u32::MAX && bytes@ == #[trigger] chunk_bytes(d) ==> (r
                matches Ok(p) && p@.len() == d@.len() && (forall|si: int|
                0 <= si < d@.len() ==> (#[trigger] p@[si])@ == d@[si]@)),
{
    if bytes.len() < 4 {
        proof {
            assert forall|d: ChunkData|
                d.wf() && 0 < d@.len() <= u32::MAX implies bytes@ != chunk_bytes(d) by {
                assert(chunk_bytes(d).len() >= 4);
            }
        }
        return Err(String::from_str("chunk blob too short"));
    }
    let b0 = bytes[0];
    let b1 = bytes[1];
    let b2 = bytes[2];
    let b3 = bytes[3];
    let count: u32 = (b0 as u32) | ((b1 as u32) << 8) | ((b2 as u32) << 16) | ((b3 as u32) << 24);
    proof {
        lemma_u32_le_roundtrip(b0, b1, b2, b3);
        assert(bytes@.take(4) =~= u32_le_bytes(count));
    }
    let mut pos: usize = 4;
    let mut data = ChunkData::new_empty();
    let mut s: u32 = 0;
    proof {
        assert forall|d: ChunkData|
            d.wf() && 0 < d@.len() <= u32::MAX && bytes@ == #[trigger] chunk_bytes(d) implies
            count == d@.len() && bytes@.skip(pos as int) == sections_bytes(
            d@.skip(s as int),
        ) by {
            assert(bytes@.take(4) =~= u32_le_bytes(d@.len() as u32));
            lemma_u32_le_inj(count, d@.len() as u32);
            assert(bytes@.skip(4) =~= sections_bytes(d@));
            assert(d@.skip(0) =~= d@);
        }
    }
    while s < count
        invariant
            s <= count,
            data.wf(),
            data@.len() == s,
            pos <= bytes@.len(),
            bytes@.take(pos as int) == u32_le_bytes(count) + sections_bytes(data@),
            forall|d: ChunkData|
                d.wf() && 0 < d@.len() <= u32::MAX && bytes@ == #[trigger] chunk_bytes(d) ==> {
                    &&& count == d@.len()
                    &&& (forall|j: int| 0 <= j < s ==> (#[trigger] data@[j])@ == d@[j]@)
                    &&& bytes@.skip(pos as int) == sections_bytes(d@.skip(s as int))
                },
        decreases count - s,
    {
        let ghost data0 = data@;
        let parsed = parse_section(bytes, pos);
        proof {
            assert forall|d: ChunkData|
                d.wf() && 0 < d@.len() <= u32::MAX && bytes@ == #[trigger] chunk_bytes(d)
                implies section_encoded_at(bytes@, pos as int, d@[s as int]@) by {
                lemma_sections_bytes_first(d@.skip(s as int));
                assert(d@.skip(s as int)[0] == d@[s as int]);
                assert(bytes@.subrange(
                    pos as int,
                    pos as int + cells_bytes(d@[s as int]@).len() as int,
                ) =~= cells_bytes(d@[s as int]@));
            }
        }
        match parsed {
            Ok((section, new_pos)) => {
                proof {
                    lemma_sections_bytes_push(data@, section);
                    assert(bytes@.take(new_pos as int) =~= bytes@.take(pos as int)
                        + bytes@.subrange(pos as int, new_pos as int));
                    assert forall|d: ChunkData|
                        d.wf() && 0 < d@.len() <= u32::MAX && bytes@ == #[trigger] chunk_bytes(
                        d,
                    ) implies section@ == d@[s as int]@ && bytes@.skip(new_pos as int)
                        == sections_bytes(d@.skip(s as int + 1)) by {
                        lemma_sections_bytes_first(d@.skip(s as int));
                        assert(d@.skip(s as int)[0] == d@[s as int]);
                        assert(d@.skip(s as int).drop_first() =~= d@.skip(s as int + 1));
                        assert(cells_bytes(section@) + bytes@.skip(new_pos as int)
                            =~= bytes@.skip(pos as int));
                        assert(cells_bytes(d@[s as int]@) + sections_bytes(
                            d@.skip(s as int + 1),
                        ) =~= bytes@.skip(pos as int));
                        lemma_cells_prefix_det(
                            section@,
                            d@[s as int]@,
                            bytes@.skip(new_pos as int),
                            sections_bytes(d@.skip(s as int + 1)),
                        );
                    }
                }
                data.push_section(section);
                pos = new_pos;
                proof {
                    assert forall|d: ChunkData|
                        d.wf() && 0 < d@.len() <= u32::MAX && bytes@ == #[trigger] chunk_bytes(
                        d,
                    ) implies (forall|j: int|
                        0 <= j < s + 1 ==> (#[trigger] data@[j])@ == d@[j]@) by {
                        assert forall|j: int|
                            0 <= j < s + 1 implies (#[trigger] data@[j])@ == d@[j]@ by {
                            if j < s {
                                assert(data@[j] == data0[j]);
                            } else {
                                assert(data@[j] == section);
                            }
                        }
                    }
                }
            },
            Err(e) => {
                proof {
                    assert forall|d: ChunkData|
                        !(d.wf() && 0 < d@.len() <= u32::MAX && bytes@ == #[trigger] chunk_bytes(
                        d,
                    )) by {
                        if d.wf() && 0 < d@.len() <= u32::MAX && bytes@ == chunk_bytes(d) {
                            assert(section_encoded_at(bytes@, pos as int, d@[s as int]@));
                        }
                    }
                }
                return Err(e);
            },
        }
        s = s + 1;
    }
    if pos != bytes.len() {
        proof {
            assert forall|d: ChunkData|
                !(d.wf() && 0 < d@.len() <= u32::MAX && bytes@ == #[trigger] chunk_bytes(
                d,
            )) by {
                if d.wf() && 0 < d@.len() <= u32::MAX && bytes@ == chunk_bytes(d) {
                    assert(d@.skip(s as int) =~= Seq::<ChunkSection>::empty());
                    assert(bytes@.skip(pos as int) =~= Seq::<u8>::empty());
                }
            }
        }
        return Err(String::from_str("chunk blob has trailing bytes"));
    }
    proof {
        assert(bytes@.take(pos as int) =~= bytes@);
    }
    Ok(data)
}

/// Whether a whole section's cell run is encoded at `pos` within the
/// input.
pub open spec fn section_encoded_at(
    bytes: Seq<u8>,
    pos: int,
    cw: Seq<Option<BlockDataInfo>>,
) -> bool {
    &&& cw.len() == SECTION_CELLS
    &&& pos + cells_bytes(cw).len() <= bytes.len()
    &&& bytes.subrange(pos, pos + cells_bytes(cw).len() as int) == cells_bytes(cw)
}

/// Parses one section's 4096 cells starting at `pos`; returns the section
/// and the position after it. Whenever a whole section is encoded at
/// `pos`, parsing succeeds.
fn parse_section(bytes: &Vec<u8>, pos: usize) -> (r: Result<(ChunkSection, usize), String>)
    requires
        pos <= bytes@.len(),
    ensures
        r matches Ok((section, new_pos)) ==> {
            &&& section.wf()
            &&& pos <= new_pos <= bytes@.len()
            &&& bytes@.subrange(pos as int, new_pos as int) == cells_bytes(section@)
        },
        forall|cw: Seq<Option<BlockDataInfo>>|
            #[trigger] section_encoded_at(bytes@, pos as int, cw) ==> r is Ok,
{
    let mut cells: Vec<Option<BlockDataInfo>> = Vec::new();
    let mut p: usize = pos;
    let mut c: usize = 0;
    proof {
        assert forall|cw: Seq<Option<BlockDataInfo>>|
            #[trigger] section_encoded_at(bytes@, pos as int, cw) implies p as int <= pos as int
            + cells_bytes(cw).len() && bytes@.subrange(
            p as int,
            pos as int + cells_bytes(cw).len() as int,
        ) == cells_bytes(cw.skip(c as int)) by {
            assert(cw.skip(0) =~= cw);
        }
    }
    while c < SECTION_CELLS
        invariant
            pos <= p <= bytes@.len(),
            c <= SECTION_CELLS,
            cells@.len() == c,
            bytes@.subrange(pos as int, p as int) == cells_bytes(cells@),
            forall|cw: Seq<Option<BlockDataInfo>>|
                #[trigger] section_encoded_at(bytes@, pos as int, cw) ==> p as int <= pos as int
                    + cells_bytes(cw).len() && bytes@.subrange(
                    p as int,
                    pos as int + cells_bytes(cw).len() as int,
                ) == cells_bytes(cw.skip(c as int)),
        decreases SECTION_CELLS - c,
    {
        proof {
            assert forall|cw: Seq<Option<BlockDataInfo>>|
                #[trigger] section_encoded_at(bytes@, pos as int, cw) implies p
                < pos + cells_bytes(cw).len() && bytes@[p as int] == cell_bytes(
                cw[c as int],
            )[0] by {
                lemma_cells_bytes_first(cw.skip(c as int));
                assert(cw.skip(c as int)[0] == cw[c as int]);
                let tail = cells_bytes(cw.skip(c as int));
                assert(tail.len() >= cell_bytes(cw[c as int]).len());
                assert(cell_bytes(cw[c as int]).len() >= 1);
                assert(bytes@.subrange(p as int, pos as int + cells_bytes(cw).len() as int).len()
                    == pos + cells_bytes(cw).len() - p);
                assert(pos + cells_bytes(cw).len() - p == tail.len());
                assert(tail[0] == cell_bytes(cw[c as int])[0]);
                assert(bytes@.subrange(p as int, pos as int + cells_bytes(cw).len() as int)[0]
                    == bytes@[p as int]);
            }
        }
        if p >= bytes.len() {
            proof {
                assert forall|cw: Seq<Option<BlockDataInfo>>|
                    !(#[trigger] section_encoded_at(bytes@, pos as int, cw)) by {
                    if section_encoded_at(bytes@, pos as int, cw) {
                        assert(p < pos + cells_bytes(cw).len());
                        assert(pos + cells_bytes(cw).len() <= bytes@.len());
                    }
                }
            }
            return Err(String::from_str("chunk blob truncated"));
        }
        let tag = bytes[p];
        if tag == 0 {
            proof {
                lemma_cells_bytes_push(cells@, None);
                assert(bytes@.subrange(pos as int, p as int + 1) =~= bytes@.subrange(
                    pos as int,
                    p as int,
                ) + cell_bytes(None::<BlockDataInfo>));
                assert forall|cw: Seq<Option<BlockDataInfo>>|
                    #[trigger] section_encoded_at(bytes@, pos as int, cw) implies p as int + 1
                    <= pos as int + cells_bytes(cw).len() && bytes@.subrange(
                    p as int + 1,
                    pos as int + cells_bytes(cw).len() as int,
                ) == cells_bytes(cw.skip(c as int + 1)) by {
                    assert(cell_bytes(cw[c as int])[0] == 0u8);
                    assert(cw[c as int] is None) by {
                        if cw[c as int] is Some {
                            assert(cell_bytes(cw[c as int])[0] == 1u8);
                        }
                    };
                    lemma_cells_bytes_first(cw.skip(c as int));
                    assert(cw.skip(c as int).drop_first() =~= cw.skip(c as int + 1));
                    let tail = cells_bytes(cw.skip(c as int));
                    let sub = bytes@.subrange(p as int, pos as int + cells_bytes(cw).len() as int);
                    assert(sub == tail);
                    assert(tail =~= cell_bytes(cw[c as int]) + cells_bytes(cw.skip(c as int + 1)));
                    assert(tail.len() == 1 + cells_bytes(cw.skip(c as int + 1)).len());
                    assert(pos + cells_bytes(cw).len() - p == tail.len());
                    assert forall|k: int|
                        0 <= k < cells_bytes(cw.skip(c as int + 1)).len() implies #[trigger] bytes@.subrange(
                        p as int + 1,
                        pos as int + cells_bytes(cw).len() as int,
                    )[k] == cells_bytes(cw.skip(c as int + 1))[k] by {
                        assert(bytes@[p + 1 + k] == sub[1 + k]);
                        assert(tail[1 + k] == cells_bytes(cw.skip(c as int + 1))[k]);
                    }
                    assert(bytes@.subrange(
                        p as int + 1,
                        pos as int + cells_bytes(cw).len() as int,
                    ) =~= cells_bytes(cw.skip(c as int + 1)));
                }
            }
            cells.push(None);
            p = p + 1;
        } else if tag == 1 {
            if bytes.len() - p < 5 {
                proof {
                    assert forall|cw: Seq<Option<BlockDataInfo>>|
                        !(#[trigger] section_encoded_at(bytes@, pos as int, cw)) by {
                        if section_encoded_at(bytes@, pos as int, cw) {
                            assert(cell_bytes(cw[c as int])[0] == 1u8);
                            assert(cw[c as int] is Some) by {
                                if cw[c as int] is None {
                                    assert(cell_bytes(cw[c as int])[0] == 0u8);
                                }
                            };
                            lemma_cells_bytes_first(cw.skip(c as int));
                            assert(cell_bytes(cw[c as int]).len() == 5);
                            assert(cells_bytes(cw.skip(c as int)).len() >= 5);
                            let sub = bytes@.subrange(
                                p as int,
                                pos as int + cells_bytes(cw).len() as int,
                            );
                            assert(sub.len() == pos + cells_bytes(cw).len() - p);
                            assert(sub.len() == cells_bytes(cw.skip(c as int)).len());
                            assert(p + 5 <= pos + cells_bytes(cw).len());
                        }
                    }
                }
                return Err(String::from_str("chunk blob truncated"));
            }
            let b0 = bytes[p + 1];
            let b1 = bytes[p + 2];
            let b2 = bytes[p + 3];
            let b3 = bytes[p + 4];
            let id: u32 = (b0 as u32) | ((b1 as u32) << 8) | ((b2 as u32) << 16) | ((b3
                as u32) << 24);
            let info = BlockDataInfo { id };
            proof {
                lemma_u32_le_roundtrip(b0, b1, b2, b3);
                lemma_cells_bytes_push(cells@, Some(info));
                assert(bytes@.subrange(pos as int, p as int + 5) =~= bytes@.subrange(
                    pos as int,
                    p as int,
                ) + cell_bytes(Some(info)));
                assert forall|cw: Seq<Option<BlockDataInfo>>|
                    #[trigger] section_encoded_at(bytes@, pos as int, cw) implies p as int + 5
                    <= pos as int + cells_bytes(cw).len() && bytes@.subrange(
                    p as int + 5,
                    pos as int + cells_bytes(cw).len() as int,
                ) == cells_bytes(cw.skip(c as int + 1)) by {
                    assert(cell_bytes(cw[c as int])[0] == 1u8);
                    assert(cw[c as int] is Some) by {
                        if cw[c as int] is None {
                            assert(cell_bytes(cw[c as int])[0] == 0u8);
                        }
                    };
                    lemma_cells_bytes_first(cw.skip(c as int));
                    assert(cw.skip(c as int).drop_first() =~= cw.skip(c as int + 1));
                    let tail = cells_bytes(cw.skip(c as int));
                    let sub = bytes@.subrange(p as int, pos as int + cells_bytes(cw).len() as int);
                    assert(sub == tail);
                    assert(tail =~= cell_bytes(cw[c as int]) + cells_bytes(cw.skip(c as int + 1)));
                    assert(cell_bytes(cw[c as int]).len() == 5);
                    assert(tail.len() == 5 + cells_bytes(cw.skip(c as int + 1)).len());
                    assert(pos + cells_bytes(cw).len() - p == tail.len());
                    assert forall|k: int|
                        0 <= k < cells_bytes(cw.skip(c as int + 1)).len() implies #[trigger] bytes@.subrange(
                        p as int + 5,
                        pos as int + cells_bytes(cw).len() as int,
                    )[k] == cells_bytes(cw.skip(c as int + 1))[k] by {
                        assert(bytes@[p + 5 + k] == sub[5 + k]);
                        assert(tail[5 + k] == cells_bytes(cw.skip(c as int + 1))[k]);
                    }
                    assert(bytes@.subrange(
                        p as int + 5,
                        pos as int + cells_bytes(cw).len() as int,
                    ) =~= cells_bytes(cw.skip(c as int + 1)));
                }
            }
            cells.push(Some(info));
            p = p + 5;
        } else {
            proof {
                assert forall|cw: Seq<Option<BlockDataInfo>>|
                    !(#[trigger] section_encoded_at(bytes@, pos as int, cw)) by {
                    if section_encoded_at(bytes@, pos as int, cw) {
                        assert(bytes@[p as int] == cell_bytes(cw[c as int])[0]);
                        if cw[c as int] is None {
                            assert(cell_bytes(cw[c as int])[0] == 0u8);
                        } else {
                            assert(cell_bytes(cw[c as int])[0] == 1u8);
                        }
                    }
                }
            }
            return Err(String::from_str("chunk blob has an invalid cell tag"));
        }
        c = c + 1;
    }
    let result = ChunkSection::from_cells(cells);
    Ok((result, p))
}

/// Reassembling four little-endian bytes gives back each byte.
proof fn lemma_u32_le_roundtrip(b0: u8, b1: u8, b2: u8, b3: u8)
    ensures
        ({
            let n = (b0 as u32) | ((b1 as u32) << 8) | ((b2 as u32) << 16) | ((b3 as u32) << 24);
            u32_le_bytes(n) == seq![b0, b1, b2, b3]
        }),
{
    let n = (b0 as u32) | ((b1 as u32) << 8) | ((b2 as u32) << 16) | ((b3 as u32) << 24);
    assert((n & 0xff) == b0 as u32 && ((n >> 8) & 0xff) == b1 as u32 && ((n >> 16) & 0xff) == b2
        as u32 && ((n >> 24) & 0xff) == b3 as u32) by (bit_vector)
        requires
            n == (b0 as u32) | ((b1 as u32) << 8) | ((b2 as u32) << 16) | ((b3 as u32) << 24),
    ;
    assert(u32_le_bytes(n) =~= seq![b0, b1, b2, b3]);
}

} // verus!
