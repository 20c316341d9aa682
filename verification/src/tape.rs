//! A tape: a growable sequence of internal symbol codes with a head cursor.
//!
//! The cell under the head can always be read or overwritten. The head moves
//! one cell at a time; the left boundary is fixed at index 0, and the right
//! boundary either is fixed at the last cell or extends by one blank cell per
//! move, depending on a construction-time flag.

use vstd::prelude::*;

verus! {

/// The internal code of the blank symbol. A symbol table always registers the
/// blank symbol first, so it always holds code 0.
pub const BLANK: u8 = 0;

/// Default number of cells for a tape built without an explicit size.
pub const INITIAL_SIZE_GUESS: usize = 500;

/// Mathematical model of a tape: its cells, the head index, and whether the
/// tape grows by one blank cell when the head moves past the last cell.
pub ghost struct TapeModel {
    pub cells: Seq<u8>,
    pub head: int,
    pub extend_on_end: bool,
}

/// A tape of internal symbol codes. The head always rests on a valid cell, so
/// reading never fails.
pub struct Tape {
    content: Vec<u8>,
    head: usize,
    extend_on_end: bool,
}

/// One right move at the model level: the resulting model and whether the move
/// succeeds. A move off the last cell succeeds only on an extending tape,
/// which grows by one blank cell; a failed move leaves the tape unchanged.
pub open spec fn spec_move_right(t: TapeModel) -> (TapeModel, bool) {
    if t.head == t.cells.len() - 1 {
        if t.extend_on_end {
            (TapeModel { cells: t.cells.push(BLANK), head: t.head + 1, extend_on_end: t.extend_on_end }, true)
        } else {
            (t, false)
        }
    } else {
        (TapeModel { cells: t.cells, head: t.head + 1, extend_on_end: t.extend_on_end }, true)
    }
}

/// One left move at the model level: fails at the left boundary, otherwise
/// retreats the head by one cell.
pub open spec fn spec_move_left(t: TapeModel) -> (TapeModel, bool) {
    if t.head == 0 {
        (t, false)
    } else {
        (TapeModel { cells: t.cells, head: t.head - 1, extend_on_end: t.extend_on_end }, true)
    }
}

/// The model after `n` right moves, whether or not each of them succeeds.
pub open spec fn spec_move_right_n(t: TapeModel, n: nat) -> TapeModel
    decreases n,
{
    if n == 0 {
        t
    } else {
        spec_move_right(spec_move_right_n(t, (n - 1) as nat)).0
    }
}

/// Whether `n` consecutive right moves all succeed.
pub open spec fn spec_right_moves_succeed(t: TapeModel, n: nat) -> bool
    decreases n,
{
    if n == 0 {
        true
    } else {
        spec_right_moves_succeed(t, (n - 1) as nat)
            && spec_move_right(spec_move_right_n(t, (n - 1) as nat)).1
    }
}

impl View for Tape {
    type V = TapeModel;

    closed spec fn view(&self) -> TapeModel {
        TapeModel {
            cells: self.content@,
            head: self.head as int,
            extend_on_end: self.extend_on_end,
        }
    }
}

impl Tape {
    /// A tape is well formed when it has at least one cell and the head rests
    /// on one of them.
    pub open spec fn wf(self) -> bool {
        &&& self@.cells.len() >= 1
        &&& 0 <= self@.head < self@.cells.len()
    }

    /// A blank-filled tape of the default size with the head at cell 0.
    pub fn new(extend_on_end: bool) -> (t: Tape)
        ensures
            t.wf(),
            t@.cells.len() == INITIAL_SIZE_GUESS,
            forall|i: int| 0 <= i < t@.cells.len() ==> t@.cells[i] == BLANK,
            t@.head == 0,
            t@.extend_on_end == extend_on_end,
    {
        Tape::with_size(INITIAL_SIZE_GUESS, extend_on_end)
    }

    /// A blank-filled tape of `size` cells with the head at cell 0.
    pub fn with_size(size: usize, extend_on_end: bool) -> (t: Tape)
        requires
            size >= 1,
        ensures
            t.wf(),
            t@.cells.len() == size,
            forall|i: int| 0 <= i < t@.cells.len() ==> t@.cells[i] == BLANK,
            t@.head == 0,
            t@.extend_on_end == extend_on_end,
    {
        let mut cnt: Vec<u8> = Vec::new();
        let mut i: usize = 0;
        while i < size
            invariant
                i <= size,
                cnt@.len() == i,
                forall|j: int| 0 <= j < i ==> cnt@[j] == BLANK,
            decreases size - i,
        {
            cnt.push(BLANK);
            i = i + 1;
        }
        Tape::with_content(cnt, extend_on_end)
    }

    /// A tape holding exactly `content`, with the head at cell 0.
    pub fn with_content(content: Vec<u8>, extend_on_end: bool) -> (t: Tape)
        requires
            content@.len() >= 1,
        ensures
            t.wf(),
            t@.cells == content@,
            t@.head == 0,
            t@.extend_on_end == extend_on_end,
    {
        Tape { content, head: 0, extend_on_end }
    }

    /// The symbol under the head. Always succeeds: the head is in bounds by
    /// construction.
    pub fn read(&self) -> (r: u8)
        requires
            self.wf(),
        ensures
            r == self@.cells[self@.head],
    {
        self.content[self.head]
    }

    /// Overwrite the cell under the head. Never moves the head.
    pub fn write(&mut self, x: u8)
        requires
            old(self).wf(),
        ensures
            final(self).wf(),
            final(self)@.cells == old(self)@.cells.update(old(self)@.head, x),
            final(self)@.head == old(self)@.head,
            final(self)@.extend_on_end == old(self)@.extend_on_end,
    {
        let h = self.head;
        self.content[h] = x;
    }

    /// Move the head one cell to the left. Fails without mutation when the
    /// head is already at cell 0.
    pub fn move_sx(&mut self) -> (r: Result<(), ()>)
        requires
            old(self).wf(),
        ensures
            final(self).wf(),
            final(self)@ == spec_move_left(old(self)@).0,
            r is Ok <==> spec_move_left(old(self)@).1,
            r is Ok <==> old(self)@.head > 0,
    {
        if self.head == 0 {
            return Err(());
        }
        self.head = self.head - 1;
        Ok(())
    }

    /// Move the head one cell to the right. At the last cell, an extending
    /// tape appends one blank cell and advances; a non-extending tape fails
    /// without mutation.
    pub fn move_dx(&mut self) -> (r: Result<(), ()>)
        requires
            old(self).wf(),
        ensures
            final(self).wf(),
            final(self)@ == spec_move_right(old(self)@).0,
            r is Ok <==> spec_move_right(old(self)@).1,
            r is Ok <==> (old(self)@.extend_on_end || old(self)@.head < old(self)@.cells.len() - 1),
    {
        if self.head == self.content.len() - 1 {
            if !self.extend_on_end {
                return Err(());
            }
            self.content.push(BLANK);
        }
        self.head = self.head + 1;
        Ok(())
    }

    /// The head's current cell index.
    pub fn head_position(&self) -> (r: usize)
        ensures
            r == self@.head,
    {
        self.head
    }

    /// The number of cells.
    pub fn size(&self) -> (r: usize)
        ensures
            r == self@.cells.len(),
    {
        self.content.len()
    }

    /// A read-only view of the cells.
    pub fn content(&self) -> (r: &[u8])
        ensures
            r@ == self@.cells,
    {
        self.content.as_slice()
    }

    /// Whether the tape grows on a right move at the last cell.
    pub fn does_extend_on_end(&self) -> (r: bool)
        ensures
            r == self@.extend_on_end,
    {
        self.extend_on_end
    }
}

/// On a non-extending tape of `n` cells with the head at cell 0, the first
/// `n - 1` consecutive right moves all succeed and leave the head at the cell
/// whose index equals the number of moves taken, with the cells untouched; the
/// `n`-th move fails. A left move at cell 0 also fails, and neither failure
/// changes the tape.
pub proof fn lemma_bounded_tape_right_moves(t: TapeModel, j: nat)
    requires
        !t.extend_on_end,
        t.head == 0,
        t.cells.len() >= 1,
        j <= t.cells.len() - 1,
    ensures
        spec_right_moves_succeed(t, j),
        spec_move_right_n(t, j).head == j,
        spec_move_right_n(t, j).cells == t.cells,
        spec_move_right_n(t, j).extend_on_end == t.extend_on_end,
        j == t.cells.len() - 1 ==> !spec_move_right(spec_move_right_n(t, j)).1,
        !spec_move_left(t).1 && spec_move_left(t).0 == t,
    decreases j,
{
    if j > 0 {
        lemma_bounded_tape_right_moves(t, (j - 1) as nat);
    }
}

} // verus!
