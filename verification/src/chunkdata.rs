//! Block contents of a chunk column: a non-empty ordered sequence of
//! fixed-size 16 x 16 x 16 sections, and the byte format the server uses
//! to persist and frame them.
//!
//! The byte format is the server's own: a section count followed by each
//! section's 4096 cells, a cell being either empty or a 32-bit block id.

use vstd::prelude::*;

use crate::positions::ChunkBlockPosition;

verus! {

/// The number of cells in one chunk section.
pub const SECTION_CELLS: usize = 4096;

/// What one occupied cell holds: the numeric block type.
#[derive(Clone, Copy, PartialEq, Eq, Structural, Debug)]
pub struct BlockDataInfo {
    pub id: u32,
}

/// One 16 x 16 x 16 slice of a chunk column.
pub struct ChunkSection {
    cells: Vec<Option<BlockDataInfo>>,
}

impl View for ChunkSection {
    type V = Seq<Option<BlockDataInfo>>;

    closed spec fn view(&self) -> Seq<Option<BlockDataInfo>> {
        self.cells@
    }
}

impl ChunkSection {
    /// Validity: exactly one slot for each cell of the cube.
    pub open spec fn wf(self) -> bool {
        self@.len() == SECTION_CELLS
    }

    /// A section with every cell empty.
    pub fn empty() -> (r: ChunkSection)
        ensures
            r.wf(),
            forall|i: int| 0 <= i < SECTION_CELLS ==> r@[i] is None,
    {
        let mut cells: Vec<Option<BlockDataInfo>> = Vec::new();
        let mut i: usize = 0;
        while i < SECTION_CELLS
            invariant
                i <= SECTION_CELLS,
                cells@.len() == i,
                forall|j: int| 0 <= j < i ==> cells@[j] is None,
            decreases SECTION_CELLS - i,
        {
            cells.push(None);
            i = i + 1;
        }
        ChunkSection { cells }
    }

    /// A section from a full row of cells.
    pub fn from_cells(cells: Vec<Option<BlockDataInfo>>) -> (r: ChunkSection)
        requires
            cells@.len() == SECTION_CELLS,
        ensures
            r.wf(),
            r@ == cells@,
    {
        ChunkSection { cells }
    }

    pub fn cell_count(&self) -> (r: usize)
        ensures
            r == self@.len(),
    {
        self.cells.len()
    }

    pub fn get_cell(&self, cell: &ChunkBlockPosition) -> (r: Option<BlockDataInfo>)
        requires
            self.wf(),
            cell.wf(),
        ensures
            r == self@[cell.spec_index()],
    {
        self.cells[cell.linear_index()]
    }

    pub fn set_cell(&mut self, cell: &ChunkBlockPosition, info: Option<BlockDataInfo>)
        requires
            old(self).wf(),
            cell.wf(),
        ensures
            final(self).wf(),
            final(self)@ == old(self)@.update(cell.spec_index(), info),
    {
        let i = cell.linear_index();
        self.cells.set(i, info);
    }
}

/// The block contents of one chunk column: its stack of sections.
pub struct ChunkData {
    sections: Vec<ChunkSection>,
}

impl View for ChunkData {
    type V = Seq<ChunkSection>;

    closed spec fn view(&self) -> Seq<ChunkSection> {
        self.sections@
    }
}

impl ChunkData {
    /// Validity: every section has its full complement of cells.
    pub open spec fn wf(self) -> bool {
        forall|i: int| 0 <= i < self@.len() ==> (#[trigger] self@[i]).wf()
    }

    /// A column with no sections yet: the state before its load finishes.
    pub fn new_empty() -> (r: ChunkData)
        ensures
            r.wf(),
            r@.len() == 0,
    {
        ChunkData { sections: Vec::new() }
    }

    /// A column of `n` all-empty sections.
    pub fn new_air(n: usize) -> (r: ChunkData)
        ensures
            r.wf(),
            r@.len() == n,
            forall|i: int, c: int|
                0 <= i < n && 0 <= c < SECTION_CELLS ==> #[trigger] r@[i]@[c] is None,
    {
        let mut sections: Vec<ChunkSection> = Vec::new();
        let mut i: usize = 0;
        while i < n
            invariant
                i <= n,
                sections@.len() == i,
                forall|j: int| 0 <= j < i ==> (#[trigger] sections@[j]).wf(),
                forall|j: int, c: int|
                    0 <= j < i && 0 <= c < SECTION_CELLS ==> #[trigger] sections@[j]@[c] is None,
            decreases n - i,
        {
            sections.push(ChunkSection::empty());
            i = i + 1;
        }
        ChunkData { sections }
    }

    pub fn len(&self) -> (r: usize)
        ensures
            r == self@.len(),
    {
        self.sections.len()
    }

    /// Whether every section carries its full complement of cells.
    pub fn sections_complete(&self) -> (r: bool)
        ensures
            r == self.wf(),
    {
        let n = self.sections.len();
        let mut i: usize = 0;
        while i < n
            invariant
                n == self@.len(),
                i <= n,
                forall|j: int| 0 <= j < i ==> (#[trigger] self@[j]).wf(),
            decreases n - i,
        {
            if self.sections[i].cell_count() != SECTION_CELLS {
                return false;
            }
            i = i + 1;
        }
        true
    }

    /// Appends one section on top of the stack.
    pub fn push_section(&mut self, section: ChunkSection)
        requires
            old(self).wf(),
            section.wf(),
        ensures
            final(self).wf(),
            final(self)@ == old(self)@.push(section),
    {
        self.sections.push(section);
    }

    pub fn get_block(&self, section: u32, cell: &ChunkBlockPosition) -> (r: Option<BlockDataInfo>)
        requires
            self.wf(),
            section < self@.len(),
            cell.wf(),
        ensures
            r == self@[section as int]@[cell.spec_index()],
    {
        self.sections[section as usize].get_cell(cell)
    }

    /// Replaces one cell of one section.
    pub fn change_block(
        &mut self,
        section: u32,
        cell: &ChunkBlockPosition,
        new_block_info: Option<BlockDataInfo>,
    )
        requires
            old(self).wf(),
            section < old(self)@.len(),
            cell.wf(),
        ensures
            final(self).wf(),
            final(self)@.len() == old(self)@.len(),
            final(self)@[section as int]@ == old(self)@[section as int]@.update(
                cell.spec_index(),
                new_block_info,
            ),
            forall|i: int|
                0 <= i < old(self)@.len() && i != section ==> final(self)@[i] == old(self)@[i],
    {
        let idx = section as usize;
        let mut s = self.sections.remove(idx);
        s.set_cell(cell, new_block_info);
        self.sections.insert(idx, s);
        proof {
            assert(self.sections@ =~= old(self).sections@.update(
                section as int,
                self.sections@[section as int],
            ));
        }
    }
}

} // verus!
