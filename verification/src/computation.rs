//! The computation engine: one symbol table, one transition table and a bank
//! of tapes, together with the current state, the step counter and the
//! pause/stop/terminate control flags.
//!
//! Everything here is the single-threaded heart of a run: configuration,
//! writing the input onto the tapes, one `step` of the read-decide-act loop,
//! and the flag logic that a scheduling loop consults between steps. The
//! surrounding program owns the locking, waiting and waking.

use vstd::prelude::*;

use crate::alphabet::Alphabet;
use crate::tape::{spec_move_left, spec_move_right, BLANK, Tape, TapeModel};
use crate::text;
use crate::turing_machine::TuringMachine;

verus! {

/// What one step reports: the machine either found a rule and can go on, or
/// found none and must halt.
#[derive(Debug, Clone, Copy, PartialEq, Eq, Structural)]
pub enum StepFeedback {
    CanContinue,
    NeedToStop,
}

/// A computation over `tape_count` tapes.
pub struct Computation {
    alphabet: Option<Alphabet>,
    tapes: Option<Vec<Tape>>,
    m: Option<TuringMachine>,
    tape_count: usize,
    current: u8,
    transition_count: usize,
    w: String,
    paused: bool,
    stopped: bool,
    terminated: bool,
}

/// A tape model with its head rewound to cell 0.
pub open spec fn spec_rewound(t: TapeModel) -> TapeModel {
    TapeModel { cells: t.cells, head: 0, extend_on_end: t.extend_on_end }
}

/// The model after `position` right-move attempts from the head at cell 0,
/// each failure ignored: an extending tape ends with its head at `position`,
/// grown with blanks as needed; a bounded tape's head stops at the last cell.
pub open spec fn spec_positioned(t: TapeModel, position: int) -> TapeModel {
    if t.extend_on_end {
        TapeModel {
            cells: if position + 1 > t.cells.len() {
                t.cells + Seq::new((position + 1 - t.cells.len()) as nat, |i: int| BLANK)
            } else {
                t.cells
            },
            head: position,
            extend_on_end: t.extend_on_end,
        }
    } else {
        TapeModel {
            cells: t.cells,
            head: if position < t.cells.len() - 1 {
                position
            } else {
                t.cells.len() - 1
            },
            extend_on_end: t.extend_on_end,
        }
    }
}

/// Positioning is reached one right move at a time.
proof fn lemma_positioned_step(t: TapeModel, k: int)
    requires
        t.head == 0,
        t.cells.len() >= 1,
        k >= 0,
    ensures
        spec_positioned(t, 0) == t,
        spec_move_right(spec_positioned(t, k)).0 == spec_positioned(t, k + 1),
{
    assert(spec_positioned(t, 0).cells =~= t.cells);
    let mid = spec_positioned(t, k);
    let next = spec_positioned(t, k + 1);
    if t.extend_on_end {
        if k + 1 >= t.cells.len() {
            assert(mid.head == mid.cells.len() - 1);
            assert(spec_move_right(mid).0.cells =~= next.cells);
        } else {
            assert(mid.head < mid.cells.len() - 1);
            assert(spec_move_right(mid).0.cells =~= next.cells);
        }
    } else {
        if k < t.cells.len() - 1 {
            assert(spec_move_right(mid).0 == next);
        } else {
            assert(mid.head == mid.cells.len() - 1);
            assert(spec_move_right(mid).0 == next);
        }
    }
}

/// The model after writing `codes` cell by cell from the head at cell 0,
/// advancing after each cell: the written prefix holds `codes`, the head
/// ends just past it, and an extending tape grows with blanks as needed.
pub open spec fn spec_written(t: TapeModel, codes: Seq<u8>) -> TapeModel {
    TapeModel {
        cells: Seq::new(
            if codes.len() + 1 > t.cells.len() {
                (codes.len() + 1) as nat
            } else {
                t.cells.len()
            },
            |p: int|
                if p < codes.len() {
                    codes[p]
                } else if p < t.cells.len() {
                    t.cells[p]
                } else {
                    BLANK
                },
        ),
        head: codes.len() as int,
        extend_on_end: t.extend_on_end,
    }
}

/// Writing is reached one cell at a time: writing under the head and moving
/// right turns the state for a prefix into the state for the next prefix.
proof fn lemma_written_step(t: TapeModel, codes: Seq<u8>, j: int)
    requires
        t.head == 0,
        t.cells.len() >= 1,
        0 <= j < codes.len(),
        t.extend_on_end || t.cells.len() >= codes.len() + 1,
    ensures
        ({
            let mid = spec_written(t, codes.take(j));
            let wrote = TapeModel {
                cells: mid.cells.update(mid.head, codes[j]),
                head: mid.head,
                extend_on_end: mid.extend_on_end,
            };
            &&& 0 <= mid.head < mid.cells.len()
            &&& spec_move_right(wrote).1
            &&& spec_move_right(wrote).0 == spec_written(t, codes.take(j + 1))
        }),
{
    let mid = spec_written(t, codes.take(j));
    let wrote = TapeModel {
        cells: mid.cells.update(mid.head, codes[j]),
        head: mid.head,
        extend_on_end: mid.extend_on_end,
    };
    let next = spec_written(t, codes.take(j + 1));
    if wrote.head == wrote.cells.len() - 1 {
        assert(t.extend_on_end);
        assert(spec_move_right(wrote).0.cells =~= next.cells);
    } else {
        assert(spec_move_right(wrote).0.cells =~= next.cells);
    }
}

/// Writing nothing leaves a rewound tape as it is.
proof fn lemma_written_empty(t: TapeModel, codes: Seq<u8>)
    requires
        t.head == 0,
        t.cells.len() >= 1,
    ensures
        spec_written(t, codes.take(0)) == t,
{
    assert(spec_written(t, codes.take(0)).cells =~= t.cells);
}

/// Rewind the head to cell 0, leaving the cells untouched.
fn rewind_tape(t: &mut Tape)
    requires
        old(t).wf(),
    ensures
        final(t).wf(),
        final(t)@ == spec_rewound(old(t)@),
{
    let ghost t0 = t@;
    while t.head_position() > 0
        invariant
            t.wf(),
            t@.cells == t0.cells,
            t@.extend_on_end == t0.extend_on_end,
        decreases t@.head,
    {
        let _ = t.move_sx();
    }
}

/// From cell 0, attempt `position` right moves, ignoring failures.
fn advance_tape(t: &mut Tape, position: usize)
    requires
        old(t).wf(),
        old(t)@.head == 0,
    ensures
        final(t).wf(),
        final(t)@ == spec_positioned(old(t)@, position as int),
{
    let ghost t0 = t@;
    proof {
        lemma_positioned_step(t0, 0);
    }
    let mut k: usize = 0;
    while k < position
        invariant
            t.wf(),
            t0.head == 0,
            t0.cells.len() >= 1,
            k <= position,
            t@ == spec_positioned(t0, k as int),
        decreases position - k,
    {
        proof {
            lemma_positioned_step(t0, k as int);
        }
        let _ = t.move_dx();
        k = k + 1;
    }
}

/// From cell 0, write `codes` cell by cell, moving right after each cell.
fn write_codes_on_tape(t: &mut Tape, codes: &Vec<u8>)
    requires
        old(t).wf(),
        old(t)@.head == 0,
        old(t)@.extend_on_end || old(t)@.cells.len() >= codes@.len() + 1,
    ensures
        final(t).wf(),
        final(t)@ == spec_written(old(t)@, codes@),
{
    let ghost t0 = t@;
    proof {
        lemma_written_empty(t0, codes@);
    }
    let mut j: usize = 0;
    while j < codes.len()
        invariant
            t.wf(),
            t0.head == 0,
            t0.cells.len() >= 1,
            t0.extend_on_end || t0.cells.len() >= codes@.len() + 1,
            j <= codes@.len(),
            t@ == spec_written(t0, codes@.take(j as int)),
        decreases codes@.len() - j,
    {
        proof {
            lemma_written_step(t0, codes@, j as int);
        }
        t.write(codes[j]);
        let _ = t.move_dx();
        j = j + 1;
    }
    proof {
        assert(codes@.take(codes@.len() as int) =~= codes@);
    }
}

/// Whether every character of `w` is registered in `a`.
pub open spec fn input_in_alphabet(a: Alphabet, w: Seq<char>) -> bool {
    forall|j: int| 0 <= j < w.len() ==> a.has_symbol(#[trigger] w[j])
}

/// The internal codes of `w` under `a`, in order; meaningful only when every
/// character is registered.
pub open spec fn spec_encoded(a: Alphabet, w: Seq<char>) -> Seq<u8> {
    Seq::new(w.len(), |j: int| a.code_index(w[j]) as u8)
}

/// A sequence of `n` blank codes.
pub open spec fn spec_blank_codes(n: int) -> Seq<u8> {
    Seq::new(n as nat, |j: int| BLANK)
}

/// Whether every tape can take `n` written cells plus the head resting just
/// past them: it extends, or already has at least `n + 1` cells.
pub open spec fn input_fits(ts: Seq<Tape>, n: int) -> bool {
    forall|i: int| 0 <= i < ts.len() ==> ((#[trigger] ts[i])@.extend_on_end || ts[i]@.cells.len()
        >= n + 1)
}

/// Every tape of `b` is the corresponding tape of `a` with its head rewound
/// to cell 0; without a tape bank there is nothing to rewind.
pub open spec fn tapes_rewound(a: Computation, b: Computation) -> bool {
    match a.spec_tapes() {
        None => b.spec_tapes() is None,
        Some(ts) => b.spec_tapes() matches Some(ts2) && ts2.len() == ts.len() && (forall|i: int|
            0 <= i < ts.len() ==> (#[trigger] ts2[i])@ == spec_rewound(ts[i]@)),
    }
}

/// The symbols under the heads, one per tape.
pub open spec fn spec_read_tuple(ts: Seq<Tape>) -> Seq<u8> {
    Seq::new(ts.len(), |i: int| ts[i]@.cells[ts[i]@.head])
}

/// Whether the action code `a` can be performed on tape `t`: a move sentinel
/// applies only where the move succeeds; a literal write always applies.
pub open spec fn action_applicable(t: TapeModel, a: u8, m: TuringMachine) -> bool {
    if a as int == m.spec_dx() {
        spec_move_right(t).1
    } else if a as int == m.spec_sx() {
        spec_move_left(t).1
    } else {
        true
    }
}

/// The tape after performing action code `a`: move right, move left, or
/// overwrite the cell under the head with the literal symbol.
pub open spec fn apply_action(t: TapeModel, a: u8, m: TuringMachine) -> TapeModel {
    if a as int == m.spec_dx() {
        spec_move_right(t).0
    } else if a as int == m.spec_sx() {
        spec_move_left(t).0
    } else {
        TapeModel { cells: t.cells.update(t.head, a), head: t.head, extend_on_end: t.extend_on_end }
    }
}

/// Raising the stop flag always releases a parked run loop, even one that
/// was paused first and never resumed: once a computation is stopped, the
/// loop's wait predicate is false and its exit predicate is true, so the
/// loop wakes, skips the step, and exits rather than deadlocking.
pub proof fn lemma_stop_releases_wait(c: Computation)
    requires
        c.spec_stopped(),
    ensures
        !(c.spec_paused() && !c.spec_stopped() && !c.spec_terminated()),
        c.spec_stopped() || c.spec_terminated(),
{
}

/// Writing an input and reading it back through the symbol table reproduces
/// it: at every position of an input whose characters are all registered,
/// the external symbol of the code written onto tape 0 is exactly the
/// input's character at that position.
pub proof fn lemma_encoded_round_trip(a: Alphabet, w: Seq<char>, j: int)
    requires
        a.wf(),
        input_in_alphabet(a, w),
        0 <= j < w.len(),
    ensures
        a.spec_symbol_of(spec_encoded(a, w)[j]) == Some(w[j]),
{
    assert(a.has_symbol(w[j]));
    let ci = a.code_index(w[j]);
    assert(0 <= ci < a@.len() && a@[ci] == w[j]);
}

/// The display form of one tape: each cell's external symbol (the blank
/// symbol where a code has none), an ellipsis, a newline, and a caret under
/// the head's column.
pub open spec fn spec_rendered_tape(a: Alphabet, t: TapeModel) -> Seq<char> {
    Seq::new(
        t.cells.len(),
        |p: int|
            if t.cells[p] < a@.len() {
                a@[t.cells[p] as int]
            } else {
                a.spec_blank()
            },
    ) + seq!['.', '.', '.', '\n'] + Seq::new(t.head as nat, |p: int| ' ') + seq!['^']
}

/// The display form of the tapes with index at least `i`, highest index
/// first, each followed by a newline.
pub open spec fn spec_rendered_all_from(a: Alphabet, ts: Seq<Tape>, i: int) -> Seq<char>
    decreases ts.len() - i,
{
    if i >= ts.len() {
        Seq::<char>::empty()
    } else {
        spec_rendered_all_from(a, ts, i + 1) + spec_rendered_tape(a, ts[i]@) + seq!['\n']
    }
}

/// Render one tape into its display characters.
fn render_tape_chars(a: &Alphabet, t: &Tape) -> (r: Vec<char>)
    requires
        a.wf(),
        t.wf(),
    ensures
        r@ == spec_rendered_tape(*a, t@),
{
    let mut out: Vec<char> = Vec::new();
    let cells = t.content();
    let default = a.default_blank();
    let mut p: usize = 0;
    while p < cells.len()
        invariant
            a.wf(),
            cells@ == t@.cells,
            default == a.spec_blank(),
            p <= cells@.len(),
            out@.len() == p,
            forall|q: int|
                0 <= q < p ==> out@[q] == (if t@.cells[q] < a@.len() {
                    a@[t@.cells[q] as int]
                } else {
                    a.spec_blank()
                }),
        decreases cells@.len() - p,
    {
        let cell = cells[p];
        match a.get_r_symbol(&cell) {
            Some(c) => out.push(c),
            None => out.push(default),
        }
        p = p + 1;
    }
    out.push('.');
    out.push('.');
    out.push('.');
    out.push('\n');
    let ghost mid = out@;
    let h = t.head_position();
    let mut q: usize = 0;
    while q < h
        invariant
            q <= h,
            out@ == mid + Seq::new(q as nat, |j: int| ' '),
        decreases h - q,
    {
        proof {
            assert((mid + Seq::new(q as nat, |j: int| ' ')).push(' ') =~= mid + Seq::new(
                (q + 1) as nat,
                |j: int| ' ',
            ));
        }
        out.push(' ');
        q = q + 1;
    }
    out.push('^');
    proof {
        assert(mid =~= mid + Seq::new(0nat, |j: int| ' '));
        assert(out@ =~= spec_rendered_tape(*a, t@));
    }
    out
}

/// The same symbol table, transition table, tape bank and tape count on both
/// sides.
pub open spec fn same_components(a: Computation, b: Computation) -> bool {
    &&& b.spec_alphabet() == a.spec_alphabet()
    &&& b.spec_machine() == a.spec_machine()
    &&& b.spec_tapes() == a.spec_tapes()
    &&& b.spec_tape_count() == a.spec_tape_count()
}

/// The same current state and step counter on both sides.
pub open spec fn same_control(a: Computation, b: Computation) -> bool {
    &&& b.spec_current() == a.spec_current()
    &&& b.spec_count() == a.spec_count()
}

/// The same three control flags on both sides.
pub open spec fn same_flags(a: Computation, b: Computation) -> bool {
    &&& b.spec_paused() == a.spec_paused()
    &&& b.spec_stopped() == a.spec_stopped()
    &&& b.spec_terminated() == a.spec_terminated()
}

/// The same input string on both sides.
pub open spec fn same_input(a: Computation, b: Computation) -> bool {
    b.spec_input() == a.spec_input()
}

impl Computation {
    /// The symbol table, once attached.
    pub closed spec fn spec_alphabet(self) -> Option<Alphabet> {
        self.alphabet
    }

    /// The transition table, once attached.
    pub closed spec fn spec_machine(self) -> Option<TuringMachine> {
        self.m
    }

    /// The tape bank, once attached.
    pub closed spec fn spec_tapes(self) -> Option<Seq<Tape>> {
        match self.tapes {
            Some(ts) => Some(ts@),
            None => None,
        }
    }

    /// How many tapes this computation drives.
    pub closed spec fn spec_tape_count(self) -> int {
        self.tape_count as int
    }

    /// The current state register.
    pub closed spec fn spec_current(self) -> u8 {
        self.current
    }

    /// How many completed, non-halting steps the run has taken.
    pub closed spec fn spec_count(self) -> int {
        self.transition_count as int
    }

    /// The input string to be written onto tape 0.
    pub closed spec fn spec_input(self) -> Seq<char> {
        self.w@
    }

    pub closed spec fn spec_paused(self) -> bool {
        self.paused
    }

    pub closed spec fn spec_stopped(self) -> bool {
        self.stopped
    }

    pub closed spec fn spec_terminated(self) -> bool {
        self.terminated
    }

    /// Whether both a transition table and a tape bank are attached, so that
    /// a step can look a rule up.
    pub open spec fn step_ready(self) -> bool {
        self.spec_machine() is Some && self.spec_tapes() is Some
    }

    /// The rule the next step would use, if any: `None` both when no rule is
    /// mapped for the current state and the symbols under the heads, and
    /// when that key fails the table's validation — either way the machine
    /// halts. Meaningful only when `step_ready` holds.
    pub open spec fn step_rule(self) -> Option<(u8, Seq<u8>)> {
        let m = self.spec_machine().unwrap();
        let x = spec_read_tuple(self.spec_tapes().unwrap());
        if self.spec_current() > m.spec_biggest_state() || !(forall|i: int|
            0 <= i < x.len() ==> (#[trigger] x[i]) as int <= m.spec_sx()) {
            None
        } else {
            m.spec_lookup(self.spec_current(), x)
        }
    }

    /// Whether every action of the rule the next step would use can be
    /// performed on its tape. Meaningful only when `step_rule` is `Some`.
    pub open spec fn step_actions_apply(self) -> bool {
        let m = self.spec_machine().unwrap();
        let ts = self.spec_tapes().unwrap();
        let acts = self.step_rule().unwrap().1;
        forall|i: int| 0 <= i < ts.len() ==> action_applicable((#[trigger] ts[i])@, acts[i], m)
    }

    /// Attached components are well formed and sized for this computation's
    /// tape count.
    pub open spec fn wf(self) -> bool {
        &&& (self.spec_alphabet() matches Some(a) ==> a.wf())
        &&& (self.spec_machine() matches Some(m) ==> m.wf() && m.spec_tape_count()
            == self.spec_tape_count())
        &&& (self.spec_tapes() matches Some(ts) ==> ts.len() == self.spec_tape_count() && (forall|
            i: int,
        | 0 <= i < ts.len() ==> (#[trigger] ts[i]).wf()))
    }

    /// A bare computation over `tape_count` tapes: no components, state 0, an
    /// empty input, a zero counter and all flags down.
    pub fn new(tape_count: usize) -> (c: Computation)
        ensures
            c.wf(),
            c.spec_alphabet() is None,
            c.spec_machine() is None,
            c.spec_tapes() is None,
            c.spec_tape_count() == tape_count,
            c.spec_current() == 0,
            c.spec_count() == 0,
            c.spec_input() == Seq::<char>::empty(),
            !c.spec_paused(),
            !c.spec_stopped(),
            !c.spec_terminated(),
    {
        let c = Computation {
            alphabet: None,
            tapes: None,
            m: None,
            tape_count,
            current: 0,
            transition_count: 0,
            w: String::new(),
            paused: false,
            stopped: false,
            terminated: false,
        };
        proof {
            assert(c.spec_input() =~= Seq::<char>::empty());
        }
        c
    }

    /// Attach the symbol table; everything else is untouched.
    pub fn use_alphabet(&mut self, alpha: Alphabet)
        requires
            old(self).wf(),
            alpha.wf(),
        ensures
            final(self).wf(),
            final(self).spec_alphabet() == Some(alpha),
            final(self).spec_machine() == old(self).spec_machine(),
            final(self).spec_tapes() == old(self).spec_tapes(),
            final(self).spec_tape_count() == old(self).spec_tape_count(),
            same_control(*old(self), *final(self)),
            same_flags(*old(self), *final(self)),
            same_input(*old(self), *final(self)),
    {
        self.alphabet = Some(alpha);
    }

    /// Attach the transition table, which must cover this computation's tape
    /// count; everything else is untouched.
    pub fn use_machine(&mut self, m: TuringMachine)
        requires
            old(self).wf(),
            m.wf(),
            m.spec_tape_count() == old(self).spec_tape_count(),
        ensures
            final(self).wf(),
            final(self).spec_machine() == Some(m),
            final(self).spec_alphabet() == old(self).spec_alphabet(),
            final(self).spec_tapes() == old(self).spec_tapes(),
            final(self).spec_tape_count() == old(self).spec_tape_count(),
            same_control(*old(self), *final(self)),
            same_flags(*old(self), *final(self)),
            same_input(*old(self), *final(self)),
    {
        self.m = Some(m);
    }

    /// Replace the tape at `idx`, if a tape bank is attached; without one
    /// this does nothing. Everything else is untouched.
    pub fn use_tape(&mut self, t: Tape, idx: usize)
        requires
            old(self).wf(),
            t.wf(),
            idx < old(self).spec_tape_count(),
        ensures
            final(self).wf(),
            ({
                match old(self).spec_tapes() {
                    Some(ts) => final(self).spec_tapes() == Some(ts.update(idx as int, t)),
                    None => final(self).spec_tapes() == old(self).spec_tapes(),
                }
            }),
            final(self).spec_alphabet() == old(self).spec_alphabet(),
            final(self).spec_machine() == old(self).spec_machine(),
            final(self).spec_tape_count() == old(self).spec_tape_count(),
            same_control(*old(self), *final(self)),
            same_flags(*old(self), *final(self)),
            same_input(*old(self), *final(self)),
    {
        if let Some(tapes) = &mut self.tapes {
            tapes.set(idx, t);
        }
    }

    /// Attach a bank of one well-formed tape per lane; everything else is
    /// untouched.
    pub fn use_tapes(&mut self, tapes: Vec<Tape>)
        requires
            old(self).wf(),
            tapes@.len() == old(self).spec_tape_count(),
            forall|i: int| 0 <= i < tapes@.len() ==> (#[trigger] tapes@[i]).wf(),
        ensures
            final(self).wf(),
            final(self).spec_tapes() == Some(tapes@),
            final(self).spec_alphabet() == old(self).spec_alphabet(),
            final(self).spec_machine() == old(self).spec_machine(),
            final(self).spec_tape_count() == old(self).spec_tape_count(),
            same_control(*old(self), *final(self)),
            same_flags(*old(self), *final(self)),
            same_input(*old(self), *final(self)),
    {
        self.tapes = Some(tapes);
    }

    /// Rewind the head of tape `tape` to cell 0, then advance it `position`
    /// cells, stopping at the last cell of a bounded tape; without a tape
    /// bank this does nothing. Everything else is untouched.
    pub fn shift_head(&mut self, position: usize, tape: usize)
        requires
            old(self).wf(),
            tape < old(self).spec_tape_count(),
        ensures
            final(self).wf(),
            final(self).spec_alphabet() == old(self).spec_alphabet(),
            final(self).spec_machine() == old(self).spec_machine(),
            final(self).spec_tape_count() == old(self).spec_tape_count(),
            same_control(*old(self), *final(self)),
            same_flags(*old(self), *final(self)),
            same_input(*old(self), *final(self)),
            ({
                match old(self).spec_tapes() {
                    None => final(self).spec_tapes() is None,
                    Some(ts) => final(self).spec_tapes() matches Some(ts2) && ts2.len() == ts.len()
                        && (forall|j: int|
                        0 <= j < ts.len() && j != tape ==> ts2[j] == ts[j]) && ts2[tape as int]@
                        == spec_positioned(spec_rewound(ts[tape as int]@), position as int),
                }
            }),
    {
        if let Some(tapes) = &mut self.tapes {
            rewind_tape(&mut tapes[tape]);
            advance_tape(&mut tapes[tape], position);
        }
    }

    /// Remember the input string to write onto tape 0; rejected until a
    /// symbol table is attached.
    pub fn set_input_string(&mut self, w: String) -> (r: Result<(), String>)
        requires
            old(self).wf(),
        ensures
            final(self).wf(),
            same_components(*old(self), *final(self)),
            same_control(*old(self), *final(self)),
            same_flags(*old(self), *final(self)),
            ({
                if old(self).spec_alphabet() is None {
                    (r matches Err(e) && e@ == "An alphabet is needed"@) && same_input(
                        *old(self),
                        *final(self),
                    )
                } else {
                    r == Ok::<(), String>(()) && final(self).spec_input() == w@
                }
            }),
    {
        if self.alphabet.is_none() {
            Err("An alphabet is needed".to_owned())
        } else {
            self.w = w;
            Ok(())
        }
    }

    /// Rewind every tape head to cell 0, then encode the input string onto
    /// tape 0, writing a blank onto the other tapes for each column and
    /// advancing every head by one per character. Fails, after the rewind and
    /// without writing, when no symbol table or no tape bank is attached,
    /// when a character of the input is not in the alphabet, or when a
    /// bounded tape is too short for the input.
    pub fn write_input_on_tape(&mut self) -> (r: Result<(), String>)
        requires
            old(self).wf(),
        ensures
            final(self).wf(),
            final(self).spec_alphabet() == old(self).spec_alphabet(),
            final(self).spec_machine() == old(self).spec_machine(),
            final(self).spec_tape_count() == old(self).spec_tape_count(),
            same_control(*old(self), *final(self)),
            same_flags(*old(self), *final(self)),
            same_input(*old(self), *final(self)),
            ({
                let w = old(self).spec_input();
                if old(self).spec_alphabet() is None {
                    (r matches Err(e) && e@ == "An alphabet is needed"@) && tapes_rewound(
                        *old(self),
                        *final(self),
                    )
                } else if old(self).spec_tapes() is None {
                    (r matches Err(e) && e@ == "Tapes are needed"@) && final(self).spec_tapes() is None
                } else if !input_in_alphabet(old(self).spec_alphabet().unwrap(), w) {
                    (r matches Err(e) && e@ == "A symbol of the input is not in the alphabet"@)
                        && tapes_rewound(*old(self), *final(self))
                } else if !input_fits(old(self).spec_tapes().unwrap(), w.len() as int) {
                    (r matches Err(e) && e@ == "The input does not fit on a tape"@)
                        && tapes_rewound(*old(self), *final(self))
                } else {
                    let a = old(self).spec_alphabet().unwrap();
                    let ts = old(self).spec_tapes().unwrap();
                    r == Ok::<(), String>(()) && (final(self).spec_tapes() matches Some(ts2)
                        && ts2.len() == ts.len() && (forall|i: int|
                        0 <= i < ts.len() ==> (#[trigger] ts2[i])@ == spec_written(
                            spec_rewound(ts[i]@),
                            if i == 0 {
                                spec_encoded(a, w)
                            } else {
                                spec_blank_codes(w.len() as int)
                            },
                        )))
                }
            }),
    {
        let ghost ts0 = self.spec_tapes();
        // Rewind every head first, as a fresh run expects.
        if let Some(tapes) = &mut self.tapes {
            let mut i: usize = 0;
            while i < tapes.len()
                invariant
                    ts0 matches Some(ts) && tapes@.len() == ts.len() && i <= ts.len() && (forall|
                        j: int,
                    |
                        0 <= j < i ==> (#[trigger] tapes@[j])@ == spec_rewound(ts[j]@)) && (forall|
                        j: int,
                    | i <= j < ts.len() ==> #[trigger] tapes@[j] == ts[j]) && (forall|j: int|
                        0 <= j < tapes@.len() ==> (#[trigger] tapes@[j]).wf()),
                decreases tapes@.len() - i,
            {
                rewind_tape(&mut tapes[i]);
                i = i + 1;
            }
        }
        proof {
            assert(tapes_rewound(*old(self), *self));
        }
        if self.alphabet.is_none() {
            return Err("An alphabet is needed".to_owned());
        }
        if self.tapes.is_none() {
            return Err("Tapes are needed".to_owned());
        }
        let cs = text::chars_of(&self.w);
        // Encode the whole input before touching any cell, so a rejected
        // input leaves the tapes rewound but unwritten.
        let mut codes: Vec<u8> = Vec::new();
        match &self.alphabet {
            None => {
                return Err("An alphabet is needed".to_owned());
            },
            Some(alpha) => {
                let mut j: usize = 0;
                while j < cs.len()
                    invariant
                        self.wf(),
                        alpha == self.spec_alphabet().unwrap(),
                        self.spec_alphabet() == old(self).spec_alphabet(),
                        self.spec_machine() == old(self).spec_machine(),
                        self.spec_tape_count() == old(self).spec_tape_count(),
                        old(self).spec_alphabet() is Some,
                        self.spec_tapes() is Some,
                        same_control(*old(self), *self),
                        same_flags(*old(self), *self),
                        same_input(*old(self), *self),
                        tapes_rewound(*old(self), *self),
                        alpha.wf(),
                        cs@ == old(self).spec_input(),
                        j <= cs@.len(),
                        codes@.len() == j,
                        forall|p: int|
                            0 <= p < j ==> alpha.has_symbol(#[trigger] cs@[p]) && codes@[p]
                                == alpha.code_index(cs@[p]) as u8,
                    decreases cs@.len() - j,
                {
                    match alpha.get_l_symbol(&cs[j]) {
                        None => {
                            proof {
                                assert(!alpha.has_symbol(cs@[j as int]));
                                assert(!input_in_alphabet(*alpha, old(self).spec_input()));
                            }
                            return Err("A symbol of the input is not in the alphabet".to_owned());
                        },
                        Some(code) => {
                            codes.push(code);
                        },
                    }
                    j = j + 1;
                }
                proof {
                    assert(codes@ =~= spec_encoded(*alpha, cs@));
                }
            },
        }
        // Check that every bounded tape has room for the input and the head
        // resting just past it.
        match &self.tapes {
            None => {
                return Err("Tapes are needed".to_owned());
            },
            Some(tapes) => {
                let mut i: usize = 0;
                while i < tapes.len()
                    invariant
                        self.wf(),
                        tapes@ == self.spec_tapes().unwrap(),
                        self.spec_alphabet() == old(self).spec_alphabet(),
                        self.spec_machine() == old(self).spec_machine(),
                        self.spec_tape_count() == old(self).spec_tape_count(),
                        old(self).spec_alphabet() is Some,
                        old(self).spec_tapes() is Some,
                        self.spec_tapes() is Some,
                        same_control(*old(self), *self),
                        same_flags(*old(self), *self),
                        same_input(*old(self), *self),
                        tapes_rewound(*old(self), *self),
                        input_in_alphabet(
                            old(self).spec_alphabet().unwrap(),
                            old(self).spec_input(),
                        ),
                        codes@.len() == old(self).spec_input().len(),
                        i <= tapes@.len(),
                        forall|j: int| 0 <= j < tapes@.len() ==> (#[trigger] tapes@[j]).wf(),
                        forall|j: int|
                            0 <= j < i ==> ((#[trigger] tapes@[j])@.extend_on_end
                                || tapes@[j]@.cells.len() >= codes@.len() + 1),
                    decreases tapes@.len() - i,
                {
                    if !tapes[i].does_extend_on_end() && tapes[i].size() - 1 < codes.len() {
                        proof {
                            let ts_old = old(self).spec_tapes().unwrap();
                            assert(tapes@[i as int]@ == spec_rewound(ts_old[i as int]@));
                            assert(!(ts_old[i as int]@.extend_on_end || ts_old[i as int]@.cells.len()
                                >= codes@.len() + 1));
                            assert(!input_fits(ts_old, old(self).spec_input().len() as int));
                        }
                        return Err("The input does not fit on a tape".to_owned());
                    }
                    i = i + 1;
                }
            },
        }
        proof {
            let a = old(self).spec_alphabet().unwrap();
            let w = old(self).spec_input();
            let ts_old = old(self).spec_tapes().unwrap();
            let ts_now = self.spec_tapes().unwrap();
            assert(input_in_alphabet(a, w));
            assert forall|i: int| 0 <= i < ts_old.len() implies ((#[trigger] ts_old[i])@.extend_on_end
                || ts_old[i]@.cells.len() >= w.len() + 1) by {
                assert(ts_now[i]@ == spec_rewound(ts_old[i]@));
                assert(ts_now[i]@.extend_on_end || ts_now[i]@.cells.len() >= codes@.len() + 1);
            }
            assert(input_fits(ts_old, w.len() as int));
        }
        // One blank per column for the tapes beyond tape 0.
        let mut blanks: Vec<u8> = Vec::new();
        let mut j: usize = 0;
        while j < codes.len()
            invariant
                j <= codes@.len(),
                blanks@.len() == j,
                forall|p: int| 0 <= p < j ==> blanks@[p] == BLANK,
            decreases codes@.len() - j,
        {
            blanks.push(BLANK);
            j = j + 1;
        }
        proof {
            assert(blanks@ =~= spec_blank_codes(codes@.len() as int));
        }
        let ghost rewound = self.spec_tapes().unwrap();
        proof {
            let ts_old = old(self).spec_tapes().unwrap();
            assert(rewound.len() == ts_old.len());
            assert forall|j2: int| 0 <= j2 < rewound.len() implies (#[trigger] rewound[j2]).wf()
                && rewound[j2]@.head == 0 && (rewound[j2]@.extend_on_end
                || rewound[j2]@.cells.len() >= codes@.len() + 1) by {
                assert(rewound[j2]@ == spec_rewound(ts_old[j2]@));
            }
        }
        if let Some(tapes) = &mut self.tapes {
            let mut i: usize = 0;
            while i < tapes.len()
                invariant
                    tapes@.len() == rewound.len(),
                    i <= tapes@.len(),
                    codes@ == spec_encoded(old(self).spec_alphabet().unwrap(), old(self).spec_input()),
                    blanks@ == spec_blank_codes(codes@.len() as int),
                    forall|j2: int|
                        0 <= j2 < rewound.len() ==> (#[trigger] rewound[j2]).wf()
                            && rewound[j2]@.head == 0 && (rewound[j2]@.extend_on_end
                            || rewound[j2]@.cells.len() >= codes@.len() + 1),
                    forall|j2: int|
                        0 <= j2 < i ==> (#[trigger] tapes@[j2])@ == spec_written(
                            rewound[j2]@,
                            if j2 == 0 {
                                codes@
                            } else {
                                blanks@
                            },
                        ),
                    forall|j2: int| i <= j2 < rewound.len() ==> #[trigger] tapes@[j2] == rewound[j2],
                    forall|j2: int| 0 <= j2 < tapes@.len() ==> (#[trigger] tapes@[j2]).wf(),
                decreases tapes@.len() - i,
            {
                if i == 0 {
                    write_codes_on_tape(&mut tapes[i], &codes);
                } else {
                    write_codes_on_tape(&mut tapes[i], &blanks);
                }
                i = i + 1;
            }
        }
        proof {
            let a = old(self).spec_alphabet().unwrap();
            let w = old(self).spec_input();
            let ts_old = old(self).spec_tapes().unwrap();
            let ts2 = self.spec_tapes().unwrap();
            assert(ts2.len() == ts_old.len());
            assert forall|i: int| 0 <= i < ts_old.len() implies (#[trigger] ts2[i])@
                == spec_written(
                spec_rewound(ts_old[i]@),
                if i == 0 {
                    spec_encoded(a, w)
                } else {
                    spec_blank_codes(w.len() as int)
                },
            ) by {
                assert(ts2[i]@ == spec_written(
                    rewound[i]@,
                    if i == 0 {
                        codes@
                    } else {
                        blanks@
                    },
                ));
                assert(rewound[i]@ == spec_rewound(ts_old[i]@));
            }
        }
        Ok(())
    }

    /// Raise the pause flag, unless the run is already stopped or terminated,
    /// in which case nothing happens.
    pub fn pause(&mut self)
        requires
            old(self).wf(),
        ensures
            final(self).wf(),
            same_components(*old(self), *final(self)),
            same_control(*old(self), *final(self)),
            same_input(*old(self), *final(self)),
            final(self).spec_stopped() == old(self).spec_stopped(),
            final(self).spec_terminated() == old(self).spec_terminated(),
            final(self).spec_paused() == (if old(self).spec_stopped() || old(
                self,
            ).spec_terminated() {
                old(self).spec_paused()
            } else {
                true
            }),
    {
        if self.terminated || self.stopped {
            return ;
        }
        self.paused = true;
    }

    /// Clear the pause flag, but only on a run that is paused and neither
    /// stopped nor terminated; otherwise nothing happens. The caller that
    /// parked a waiting thread is responsible for waking it.
    pub fn resume(&mut self)
        requires
            old(self).wf(),
        ensures
            final(self).wf(),
            same_components(*old(self), *final(self)),
            same_control(*old(self), *final(self)),
            same_input(*old(self), *final(self)),
            final(self).spec_stopped() == old(self).spec_stopped(),
            final(self).spec_terminated() == old(self).spec_terminated(),
            final(self).spec_paused() == (if !old(self).spec_paused() || old(self).spec_stopped()
                || old(self).spec_terminated() {
                old(self).spec_paused()
            } else {
                false
            }),
    {
        if !self.paused || self.stopped || self.terminated {
            return ;
        }
        self.paused = false;
    }

    /// Raise the stop flag: a cooperative cancellation, observed by the run
    /// loop at its next check, never mid-step.
    pub fn stop(&mut self)
        requires
            old(self).wf(),
        ensures
            final(self).wf(),
            same_components(*old(self), *final(self)),
            same_control(*old(self), *final(self)),
            same_input(*old(self), *final(self)),
            final(self).spec_paused() == old(self).spec_paused(),
            final(self).spec_terminated() == old(self).spec_terminated(),
            final(self).spec_stopped(),
    {
        self.stopped = true;
    }

    /// The input string that will be written onto tape 0.
    pub fn input_string(&self) -> (r: &String)
        ensures
            r@ == self.spec_input(),
    {
        &self.w
    }

    /// How many tapes this computation drives.
    pub fn tape_count(&self) -> (r: usize)
        ensures
            r == self.spec_tape_count(),
    {
        self.tape_count
    }

    /// How many completed, non-halting steps the run has taken.
    pub fn transition_count(&self) -> (r: usize)
        ensures
            r == self.spec_count(),
    {
        self.transition_count
    }

    /// The current state register.
    pub fn current_state(&self) -> (r: u8)
        ensures
            r == self.spec_current(),
    {
        self.current
    }

    pub fn is_paused(&self) -> (r: bool)
        ensures
            r == self.spec_paused(),
    {
        self.paused
    }

    pub fn is_stopped(&self) -> (r: bool)
        ensures
            r == self.spec_stopped(),
    {
        self.stopped
    }

    pub fn is_terminated(&self) -> (r: bool)
        ensures
            r == self.spec_terminated(),
    {
        self.terminated
    }

    /// Whether a run loop should park before its next step: paused, and
    /// neither stopped nor terminated. Raising the stop flag therefore always
    /// releases a parked loop, even one paused first.
    pub fn should_wait(&self) -> (r: bool)
        ensures
            r == (self.spec_paused() && !self.spec_stopped() && !self.spec_terminated()),
    {
        self.paused && !self.stopped && !self.terminated
    }

    /// Whether a run loop must exit instead of taking another step.
    pub fn should_exit(&self) -> (r: bool)
        ensures
            r == (self.spec_stopped() || self.spec_terminated()),
    {
        self.stopped || self.terminated
    }

    /// Render tape `idx` for display: its cells as external symbols (the
    /// blank symbol standing in for an unmapped code), an ellipsis, and a
    /// caret line marking the head's column.
    pub fn output(&self, idx: usize) -> (r: Result<String, String>)
        requires
            self.wf(),
        ensures
            ({
                if idx >= self.spec_tape_count() {
                    r matches Err(e) && e@ == "Index out of bounds"@
                } else if self.spec_alphabet() is None {
                    r matches Err(e) && e@ == "No alphabet"@
                } else if self.spec_tapes() is None {
                    r matches Err(e) && e@ == "No tape"@
                } else {
                    r matches Ok(s) && s@ == spec_rendered_tape(
                        self.spec_alphabet().unwrap(),
                        self.spec_tapes().unwrap()[idx as int]@,
                    )
                }
            }),
    {
        if idx >= self.tape_count {
            return Err("Index out of bounds".to_owned());
        }
        match &self.alphabet {
            None => Err("No alphabet".to_owned()),
            Some(alpha) => {
                match &self.tapes {
                    None => Err("No tape".to_owned()),
                    Some(tapes) => {
                        let chars = render_tape_chars(alpha, &tapes[idx]);
                        Ok(text::string_from_chars(&chars))
                    },
                }
            },
        }
    }

    /// Render every tape for display, highest index first, separated by
    /// newlines.
    pub fn output_all(&self) -> (r: Result<String, String>)
        requires
            self.wf(),
        ensures
            ({
                if self.spec_tapes() is None {
                    r matches Err(e) && e@ == "No tapes"@
                } else if self.spec_tape_count() > 0 && self.spec_alphabet() is None {
                    r matches Err(e) && e@ == "No alphabet"@
                } else if self.spec_tape_count() == 0 {
                    r matches Ok(s) && s@ == Seq::<char>::empty()
                } else {
                    r matches Ok(s) && s@ == spec_rendered_all_from(
                        self.spec_alphabet().unwrap(),
                        self.spec_tapes().unwrap(),
                        0,
                    ).drop_last()
                }
            }),
    {
        match &self.tapes {
            None => Err("No tapes".to_owned()),
            Some(tapes) => {
                if tapes.len() == 0 {
                    let empty: Vec<char> = Vec::new();
                    return Ok(text::string_from_chars(&empty));
                }
                match &self.alphabet {
                    None => Err("No alphabet".to_owned()),
                    Some(alpha) => {
                        let mut out: Vec<char> = Vec::new();
                        let mut i: usize = tapes.len();
                        proof {
                            assert(out@ =~= spec_rendered_all_from(*alpha, tapes@, i as int));
                        }
                        while i > 0
                            invariant
                                alpha.wf(),
                                forall|j: int| 0 <= j < tapes@.len() ==> (#[trigger] tapes@[j]).wf(),
                                i <= tapes@.len(),
                                out@ == spec_rendered_all_from(*alpha, tapes@, i as int),
                            decreases i,
                        {
                            i = i - 1;
                            let ghost base = out@;
                            let chunk = render_tape_chars(alpha, &tapes[i]);
                            let mut k: usize = 0;
                            while k < chunk.len()
                                invariant
                                    k <= chunk@.len(),
                                    out@ == base + chunk@.take(k as int),
                                decreases chunk@.len() - k,
                            {
                                proof {
                                    assert((base + chunk@.take(k as int)).push(chunk@[k as int])
                                        =~= base + chunk@.take(k as int + 1));
                                }
                                out.push(chunk[k]);
                                k = k + 1;
                            }
                            out.push('\n');
                            proof {
                                assert(chunk@.take(chunk@.len() as int) =~= chunk@);
                                assert((base + chunk@).push('\n') =~= base + chunk@ + seq!['\n']);
                            }
                        }
                        proof {
                            assert(out@.len() > 0);
                        }
                        let _ = out.pop();
                        Ok(text::string_from_chars(&out))
                    },
                }
            },
        }
    }

    /// Whether the machine, halted in its current state, accepts: the current
    /// state is a member of the accepting set. Without a transition table, or
    /// with a current state the table rejects, this is `false`.
    pub fn is_on_final_state(&self) -> (r: bool)
        requires
            self.wf(),
        ensures
            r == (self.spec_machine() matches Some(m) && m.spec_is_final(self.spec_current())),
    {
        match &self.m {
            None => false,
            Some(machine) => {
                match machine.is_final_state(self.current) {
                    Ok(b) => b,
                    Err(_) => {
                        proof {
                            if machine.spec_is_final(self.current) {
                                let i = choose|i: int|
                                    0 <= i < machine.spec_finals().len()
                                        && machine.spec_finals()[i] == self.current;
                                assert(machine.spec_finals()[i] <= machine.spec_biggest_state());
                            }
                        }
                        false
                    },
                }
            },
        }
    }

    /// One step of the read-decide-act loop: read the symbol under every
    /// head, look the rule for (current state, symbols) up, and either halt
    /// (`NeedToStop`, when no rule applies), or perform every action and move
    /// to the rule's next state (`CanContinue`). A rule whose move runs off a
    /// tape boundary is an error and changes nothing; the step counter is
    /// never touched here.
    pub fn step(&mut self) -> (r: Result<StepFeedback, String>)
        requires
            old(self).wf(),
        ensures
            final(self).wf(),
            final(self).spec_alphabet() == old(self).spec_alphabet(),
            final(self).spec_machine() == old(self).spec_machine(),
            final(self).spec_tape_count() == old(self).spec_tape_count(),
            final(self).spec_count() == old(self).spec_count(),
            same_flags(*old(self), *final(self)),
            same_input(*old(self), *final(self)),
            ({
                if old(self).spec_machine() is None {
                    (r matches Err(e) && e@ == "No machine"@) && final(self).spec_tapes() == old(
                        self,
                    ).spec_tapes() && final(self).spec_current() == old(self).spec_current()
                } else if old(self).spec_tapes() is None {
                    (r matches Err(e) && e@ == "No tapes"@) && final(self).spec_tapes() == old(
                        self,
                    ).spec_tapes() && final(self).spec_current() == old(self).spec_current()
                } else if old(self).step_rule() is None {
                    r == Ok::<StepFeedback, String>(StepFeedback::NeedToStop) && final(self).spec_tapes() == old(self).spec_tapes() && final(self).spec_current() == old(
                        self,
                    ).spec_current()
                } else if !old(self).step_actions_apply() {
                    let m = old(self).spec_machine().unwrap();
                    let ts = old(self).spec_tapes().unwrap();
                    let acts = old(self).step_rule().unwrap().1;
                    (r matches Err(e) && ((e@ == "Could not move right"@ && (exists|i: int|
                        0 <= i < ts.len() && (#[trigger] acts[i]) as int == m.spec_dx()
                            && !spec_move_right(ts[i]@).1)) || (e@ == "Could not move left"@ && (
                    exists|i: int|
                        0 <= i < ts.len() && (#[trigger] acts[i]) as int == m.spec_sx()
                            && !spec_move_left(ts[i]@).1)))) && final(self).spec_tapes() == old(
                        self,
                    ).spec_tapes() && final(self).spec_current() == old(self).spec_current()
                } else {
                    let m = old(self).spec_machine().unwrap();
                    let ts = old(self).spec_tapes().unwrap();
                    let rule = old(self).step_rule().unwrap();
                    r == Ok::<StepFeedback, String>(StepFeedback::CanContinue) && final(self).spec_current() == rule.0 && (final(self).spec_tapes() matches Some(ts2)
                        && ts2.len() == ts.len() && (forall|i: int|
                        0 <= i < ts.len() ==> (#[trigger] ts2[i])@ == apply_action(
                            ts[i]@,
                            rule.1[i],
                            m,
                        )))
                }
            }),
    {
        if self.m.is_none() {
            return Err("No machine".to_owned());
        }
        if self.tapes.is_none() {
            return Err("No tapes".to_owned());
        }
        // Read the symbol under every head.
        let mut x: Vec<u8> = Vec::new();
        match &self.tapes {
            None => {
                return Err("No tapes".to_owned());
            },
            Some(tapes) => {
                let mut i: usize = 0;
                while i < tapes.len()
                    invariant
                        tapes@ == self.spec_tapes().unwrap(),
                        self.spec_tapes() is Some,
                        forall|j: int| 0 <= j < tapes@.len() ==> (#[trigger] tapes@[j]).wf(),
                        i <= tapes@.len(),
                        x@.len() == i,
                        forall|j: int|
                            0 <= j < i ==> x@[j] == (#[trigger] tapes@[j])@.cells[tapes@[j]@.head],
                    decreases tapes@.len() - i,
                {
                    x.push(tapes[i].read());
                    i = i + 1;
                }
                proof {
                    assert(x@ =~= spec_read_tuple(tapes@));
                }
            },
        }
        // Look the rule up; any failure is the halt signal.
        let looked = match &self.m {
            None => {
                return Err("No machine".to_owned());
            },
            Some(machine) => machine.get_transition(self.current, &x),
        };
        let (next, acts) = match looked {
            Err(_) => {
                return Ok(StepFeedback::NeedToStop);
            },
            Ok(out) => out,
        };
        let (dx, sx) = match &self.m {
            None => {
                return Err("No machine".to_owned());
            },
            Some(machine) => (machine.dx(), machine.sx()),
        };
        // Check every action against its tape before performing any, so a
        // blocked move changes nothing.
        match &self.tapes {
            None => {
                return Err("No tapes".to_owned());
            },
            Some(tapes) => {
                let mut i: usize = 0;
                while i < tapes.len()
                    invariant
                        self.wf(),
                        tapes@ == self.spec_tapes().unwrap(),
                        self.spec_tapes() is Some,
                        self.spec_machine() is Some,
                        self.spec_alphabet() == old(self).spec_alphabet(),
                        self.spec_machine() == old(self).spec_machine(),
                        self.spec_tapes() == old(self).spec_tapes(),
                        self.spec_tape_count() == old(self).spec_tape_count(),
                        same_control(*old(self), *self),
                        same_flags(*old(self), *self),
                        same_input(*old(self), *self),
                        old(self).step_rule() == Some((next, acts@)),
                        dx as int == self.spec_machine().unwrap().spec_dx(),
                        sx as int == self.spec_machine().unwrap().spec_sx(),
                        acts@.len() == tapes@.len(),
                        i <= tapes@.len(),
                        forall|j: int|
                            0 <= j < i ==> action_applicable(
                                (#[trigger] tapes@[j])@,
                                acts@[j],
                                self.spec_machine().unwrap(),
                            ),
                    decreases tapes@.len() - i,
                {
                    let act = acts[i];
                    if act == dx {
                        if !tapes[i].does_extend_on_end() && tapes[i].head_position()
                            == tapes[i].size() - 1 {
                            proof {
                                let ts = old(self).spec_tapes().unwrap();
                                let m = old(self).spec_machine().unwrap();
                                let racts = old(self).step_rule().unwrap().1;
                                assert(racts[i as int] as int == m.spec_dx());
                                assert(!spec_move_right(ts[i as int]@).1);
                                assert(!action_applicable(ts[i as int]@, racts[i as int], m));
                                assert(!old(self).step_actions_apply());
                                assert(exists|i2: int|
                                    0 <= i2 < ts.len() && (#[trigger] racts[i2]) as int
                                        == m.spec_dx() && !spec_move_right(ts[i2]@).1);
                            }
                            return Err("Could not move right".to_owned());
                        }
                    } else if act == sx {
                        if tapes[i].head_position() == 0 {
                            proof {
                                let ts = old(self).spec_tapes().unwrap();
                                let m = old(self).spec_machine().unwrap();
                                let racts = old(self).step_rule().unwrap().1;
                                assert(racts[i as int] as int == m.spec_sx());
                                assert(!spec_move_left(ts[i as int]@).1);
                                assert(!action_applicable(ts[i as int]@, racts[i as int], m));
                                assert(!old(self).step_actions_apply());
                                assert(exists|i2: int|
                                    0 <= i2 < ts.len() && (#[trigger] racts[i2]) as int
                                        == m.spec_sx() && !spec_move_left(ts[i2]@).1);
                            }
                            return Err("Could not move left".to_owned());
                        }
                    }
                    i = i + 1;
                }
            },
        }
        // Perform the actions.
        let ghost ts0 = self.spec_tapes().unwrap();
        let ghost m0 = self.spec_machine().unwrap();
        if let Some(tapes) = &mut self.tapes {
            let mut i: usize = 0;
            while i < tapes.len()
                invariant
                    tapes@.len() == ts0.len(),
                    acts@.len() == ts0.len(),
                    i <= ts0.len(),
                    dx as int == m0.spec_dx(),
                    sx as int == m0.spec_sx(),
                    forall|j: int| 0 <= j < ts0.len() ==> (#[trigger] ts0[j]).wf(),
                    forall|j: int|
                        0 <= j < ts0.len() ==> action_applicable((#[trigger] ts0[j])@, acts@[j], m0),
                    forall|j: int|
                        0 <= j < i ==> (#[trigger] tapes@[j])@ == apply_action(
                            ts0[j]@,
                            acts@[j],
                            m0,
                        ),
                    forall|j: int| i <= j < ts0.len() ==> #[trigger] tapes@[j] == ts0[j],
                    forall|j: int| 0 <= j < tapes@.len() ==> (#[trigger] tapes@[j]).wf(),
                decreases ts0.len() - i,
            {
                let act = acts[i];
                if act == dx {
                    let _ = tapes[i].move_dx();
                } else if act == sx {
                    let _ = tapes[i].move_sx();
                } else {
                    tapes[i].write(act);
                }
                i = i + 1;
            }
        }
        self.current = next;
        Ok(StepFeedback::CanContinue)
    }

    /// One tick of a run loop: take one step; a `CanContinue` advances the
    /// step counter and asks for another tick, while a halt or a step error
    /// raises the terminated flag and ends the run.
    pub fn run_step(&mut self) -> (cont: bool)
        requires
            old(self).wf(),
            old(self).spec_count() < usize::MAX,
        ensures
            final(self).wf(),
            final(self).spec_alphabet() == old(self).spec_alphabet(),
            final(self).spec_machine() == old(self).spec_machine(),
            final(self).spec_tape_count() == old(self).spec_tape_count(),
            same_input(*old(self), *final(self)),
            final(self).spec_paused() == old(self).spec_paused(),
            final(self).spec_stopped() == old(self).spec_stopped(),
            ({
                if old(self).step_ready() && old(self).step_rule() is Some && old(
                    self,
                ).step_actions_apply() {
                    let m = old(self).spec_machine().unwrap();
                    let ts = old(self).spec_tapes().unwrap();
                    let rule = old(self).step_rule().unwrap();
                    cont && final(self).spec_count() == old(self).spec_count() + 1 && final(self).spec_terminated() == old(self).spec_terminated() && final(self).spec_current()
                        == rule.0 && (final(self).spec_tapes() matches Some(ts2) && ts2.len()
                        == ts.len() && (forall|i: int|
                        0 <= i < ts.len() ==> (#[trigger] ts2[i])@ == apply_action(
                            ts[i]@,
                            rule.1[i],
                            m,
                        )))
                } else {
                    !cont && final(self).spec_terminated() && final(self).spec_tapes() == old(
                        self,
                    ).spec_tapes() && final(self).spec_current() == old(self).spec_current()
                        && final(self).spec_count() == old(self).spec_count()
                }
            }),
    {
        match self.step() {
            Ok(StepFeedback::CanContinue) => {
                self.transition_count = self.transition_count + 1;
                true
            },
            Ok(StepFeedback::NeedToStop) => {
                self.terminated = true;
                false
            },
            Err(_) => {
                self.terminated = true;
                false
            },
        }
    }

    /// Return the step counter, the current state and the three flags to
    /// their initial values. Tape contents, the attached components and the
    /// input string are untouched.
    pub fn reset(&mut self)
        requires
            old(self).wf(),
        ensures
            final(self).wf(),
            same_components(*old(self), *final(self)),
            same_input(*old(self), *final(self)),
            final(self).spec_count() == 0,
            final(self).spec_current() == 0,
            !final(self).spec_paused(),
            !final(self).spec_stopped(),
            !final(self).spec_terminated(),
    {
        self.transition_count = 0;
        self.current = 0;
        self.paused = false;
        self.stopped = false;
        self.terminated = false;
    }
}

} // verus!
