//! The machine's program: a validated, partial transition function keyed by
//! (state, tuple of symbols read) together with the set of accepting states.
//!
//! States are byte labels in `[0, state_count)`. Symbol codes are bytes in
//! `[0, symbol_count)`; the two codes just above the largest symbol are the
//! move sentinels, consumed as actions, never stored on a tape.

use vstd::prelude::*;

use crate::text;

verus! {

/// The decimal digit character for `d` in `[0, 10)`.
pub open spec fn spec_digit_char(d: int) -> char {
    if d == 0 {
        '0'
    } else if d == 1 {
        '1'
    } else if d == 2 {
        '2'
    } else if d == 3 {
        '3'
    } else if d == 4 {
        '4'
    } else if d == 5 {
        '5'
    } else if d == 6 {
        '6'
    } else if d == 7 {
        '7'
    } else if d == 8 {
        '8'
    } else {
        '9'
    }
}

/// The decimal rendering of a non-negative number, most significant digit
/// first, with no leading zeros except for the number 0 itself.
pub open spec fn spec_decimal(n: int) -> Seq<char>
    decreases n,
{
    if n < 10 {
        seq![spec_digit_char(n)]
    } else {
        spec_decimal(n / 10).push(spec_digit_char(n % 10))
    }
}

/// Append the decimal rendering of `n`.
fn push_decimal(out: &mut Vec<char>, n: usize)
    ensures
        final(out)@ == old(out)@ + spec_decimal(n as int),
{
    let ghost base = out@;
    let mut digits_rev: Vec<char> = Vec::new();
    let mut m: usize = n;
    if m == 0 {
        proof {
            assert(base.push('0') =~= base + spec_decimal(0));
        }
        out.push('0');
        return ;
    }
    while m > 0
        invariant
            m >= 0,
            m > 0 ==> spec_decimal(n as int) == spec_decimal(m as int) + digits_rev@.reverse(),
            m == 0 ==> spec_decimal(n as int) == digits_rev@.reverse(),
        decreases m,
    {
        let d = m % 10;
        let c = if d == 0 {
            '0'
        } else if d == 1 {
            '1'
        } else if d == 2 {
            '2'
        } else if d == 3 {
            '3'
        } else if d == 4 {
            '4'
        } else if d == 5 {
            '5'
        } else if d == 6 {
            '6'
        } else if d == 7 {
            '7'
        } else if d == 8 {
            '8'
        } else {
            '9'
        };
        proof {
            assert(c == spec_digit_char(m as int % 10));
            if m < 10 {
                assert(spec_decimal(m as int) == seq![spec_digit_char(m as int)]);
                assert(seq![spec_digit_char(m as int)] + digits_rev@.reverse()
                    =~= digits_rev@.push(c).reverse());
            } else {
                assert(spec_decimal(m as int) == spec_decimal(m as int / 10).push(
                    spec_digit_char(m as int % 10),
                ));
                assert(spec_decimal(m as int / 10).push(c) + digits_rev@.reverse()
                    =~= spec_decimal(m as int / 10) + digits_rev@.push(c).reverse());
                assert(spec_decimal(m as int) + digits_rev@.reverse() =~= spec_decimal(
                    m as int / 10,
                ) + digits_rev@.push(c).reverse());
            }
        }
        digits_rev.push(c);
        m = m / 10;
    }
    let mut k: usize = digits_rev.len();
    while k > 0
        invariant
            k <= digits_rev@.len(),
            out@ == base + digits_rev@.reverse().take(digits_rev@.len() - k),
        decreases k,
    {
        k = k - 1;
        proof {
            let rev = digits_rev@.reverse();
            let done = digits_rev@.len() - k - 1;
            assert(rev[done] == digits_rev@[k as int]);
            assert(rev.take(done).push(rev[done]) =~= rev.take(done + 1));
        }
        out.push(digits_rev[k]);
    }
    proof {
        assert(digits_rev@.reverse().take(digits_rev@.len() as int) =~= digits_rev@.reverse());
        assert(out@ =~= base + spec_decimal(n as int));
    }
}

/// Everything a table operation can reject: out-of-range counts at
/// construction, out-of-range states or symbols, and insertions or removals
/// whose key is already present or absent.
#[derive(Debug, Clone, Copy, PartialEq, Eq, Structural)]
pub enum Error {
    StateTooSmall,
    StateTooBig,
    SymbolTooSmall,
    SymbolTooBig,
    TransitionExists,
    TransitionDidNotExist,
    AlreadyFinal,
    WasNotFinal,
}

/// One rule: in state `state`, reading `read` (one symbol per tape), go to
/// state `next` and perform `write` (a literal symbol to write, or a move
/// sentinel, per tape).
pub struct Transition {
    pub state: u8,
    pub read: Vec<u8>,
    pub write: Vec<u8>,
    pub next: u8,
}

/// Whether a rule is keyed by state `q` reading exactly `x`.
pub open spec fn matches_key(t: Transition, q: u8, x: Seq<u8>) -> bool {
    t.state == q && t.read@ == x
}

/// Whether one rule respects the table's bounds: states in range, one read
/// and one write symbol per tape, and every symbol no larger than the left
/// move sentinel (the largest symbol index plus two).
pub open spec fn transition_wf(t: Transition, bs: u8, bsym: u8, k: int) -> bool {
    &&& t.state <= bs
    &&& t.next <= bs
    &&& t.read@.len() == k
    &&& t.write@.len() == k
    &&& forall|i: int| 0 <= i < t.read@.len() ==> t.read@[i] <= bsym + 2
    &&& forall|i: int| 0 <= i < t.write@.len() ==> t.write@[i] <= bsym + 2
}

/// The labels `q0, q1, ...` of the states below `n`, comma separated.
pub open spec fn spec_states_list(n: int) -> Seq<char>
    decreases n,
{
    if n <= 0 {
        Seq::<char>::empty()
    } else if n == 1 {
        seq!['q'] + spec_decimal(0)
    } else {
        spec_states_list(n - 1) + seq![',', ' ', 'q'] + spec_decimal(n - 1)
    }
}

/// The labels of the first `i` accepting states, comma separated.
pub open spec fn spec_finals_list(fs: Seq<u8>, i: int) -> Seq<char>
    decreases i,
{
    if i <= 0 {
        Seq::<char>::empty()
    } else if i == 1 {
        seq!['q'] + spec_decimal(fs[0] as int)
    } else {
        spec_finals_list(fs, i - 1) + seq![',', ' ', 'q'] + spec_decimal(fs[i - 1] as int)
    }
}

/// The first `i` symbol codes of a tuple, comma separated.
pub open spec fn spec_codes_list(xs: Seq<u8>, i: int) -> Seq<char>
    decreases i,
{
    if i <= 0 {
        Seq::<char>::empty()
    } else if i == 1 {
        spec_decimal(xs[0] as int)
    } else {
        spec_codes_list(xs, i - 1) + seq![',', ' '] + spec_decimal(xs[i - 1] as int)
    }
}

/// One rule's line: state, read tuple, write tuple, next state.
pub open spec fn spec_transition_line(t: Transition) -> Seq<char> {
    spec_decimal(t.state as int) + seq![' ', '('] + spec_codes_list(t.read@, t.read@.len() as int)
        + seq![')', ' ', '('] + spec_codes_list(t.write@, t.write@.len() as int) + seq![')', ' ']
        + spec_decimal(t.next as int) + seq!['\n']
}

/// The lines of the first `i` rules.
pub open spec fn spec_transition_lines(ts: Seq<Transition>, i: int) -> Seq<char>
    decreases i,
{
    if i <= 0 {
        Seq::<char>::empty()
    } else {
        spec_transition_lines(ts, i - 1) + spec_transition_line(ts[i - 1])
    }
}

/// The whole textual dump of a table: states, accepting states, symbol and
/// move-sentinel codes, tape count, and one line per rule.
pub open spec fn spec_description(m: TuringMachine) -> Seq<char> {
    "States Q = {"@ + spec_states_list(m.spec_biggest_state() + 1) + "}\n|Q| = "@ + spec_decimal(
        m.spec_biggest_state() + 1,
    ) + "\n\nFinal States F = {"@ + spec_finals_list(m.spec_finals(), m.spec_finals().len() as int)
        + "}\n\nNumber of symbols |S| = "@ + spec_decimal(m.spec_biggest_symbol() + 1)
        + "\nRight (R): "@ + spec_decimal(m.spec_dx()) + "\nLeft (L): "@ + spec_decimal(
        m.spec_sx(),
    ) + "\n\nNumber of tapes: "@ + spec_decimal(m.spec_tape_count()) + "\n\nTransitions:\n"@
        + spec_transition_lines(m.spec_transitions(), m.spec_transitions().len() as int)
}

/// The accepting-state half of `wf` carries over to a table that agrees on
/// the accepting states and the largest state label.
proof fn lemma_finals_part_transfer(a: TuringMachine, b: TuringMachine)
    requires
        a.wf(),
        b.spec_finals() == a.spec_finals(),
        b.spec_biggest_state() == a.spec_biggest_state(),
    ensures
        forall|i: int, j: int| 0 <= i < j < b.spec_finals().len()
            ==> b.spec_finals()[i] != b.spec_finals()[j],
        forall|i: int| 0 <= i < b.spec_finals().len()
            ==> b.spec_finals()[i] <= b.spec_biggest_state(),
{
    assert forall|i: int, j: int| 0 <= i < j < b.spec_finals().len() implies b.spec_finals()[i]
        != b.spec_finals()[j] by {
        assert(b.spec_finals()[i] == a.spec_finals()[i]);
        assert(b.spec_finals()[j] == a.spec_finals()[j]);
    }
    assert forall|i: int| 0 <= i < b.spec_finals().len() implies b.spec_finals()[i]
        <= b.spec_biggest_state() by {
        assert(b.spec_finals()[i] == a.spec_finals()[i]);
    }
}

/// The rule half of `wf` carries over to a table that agrees on the rules and
/// the bounds.
proof fn lemma_transitions_part_transfer(a: TuringMachine, b: TuringMachine)
    requires
        a.wf(),
        b.spec_transitions() == a.spec_transitions(),
        b.spec_biggest_state() == a.spec_biggest_state(),
        b.spec_biggest_symbol() == a.spec_biggest_symbol(),
        b.spec_tape_count() == a.spec_tape_count(),
    ensures
        forall|i: int| 0 <= i < b.spec_transitions().len() ==> transition_wf(
            #[trigger] b.spec_transitions()[i],
            b.spec_biggest_state(),
            b.spec_biggest_symbol(),
            b.spec_tape_count(),
        ),
        forall|i: int, j: int| 0 <= i < j < b.spec_transitions().len() ==> !(
        b.spec_transitions()[i].state == b.spec_transitions()[j].state
            && b.spec_transitions()[i].read@ == b.spec_transitions()[j].read@),
{
    assert forall|i: int| 0 <= i < b.spec_transitions().len() implies transition_wf(
        #[trigger] b.spec_transitions()[i],
        b.spec_biggest_state(),
        b.spec_biggest_symbol(),
        b.spec_tape_count(),
    ) by {
        assert(b.spec_transitions()[i] == a.spec_transitions()[i]);
    }
    assert forall|i: int, j: int| 0 <= i < j < b.spec_transitions().len() implies !(
    b.spec_transitions()[i].state == b.spec_transitions()[j].state && b.spec_transitions()[i].read@
        == b.spec_transitions()[j].read@) by {
        assert(b.spec_transitions()[i] == a.spec_transitions()[i]);
        assert(b.spec_transitions()[j] == a.spec_transitions()[j]);
    }
}

/// A transition table for machines with `tape_count` tapes.
pub struct TuringMachine {
    biggest_state_index: u8,
    biggest_symbol_index: u8,
    tape_count: usize,
    final_states: Vec<u8>,
    transitions: Vec<Transition>,
}

impl TuringMachine {
    /// The largest valid state label (`state_count - 1`).
    pub closed spec fn spec_biggest_state(self) -> u8 {
        self.biggest_state_index
    }

    /// The largest symbol code that can rest on a tape (`symbol_count - 1`).
    pub closed spec fn spec_biggest_symbol(self) -> u8 {
        self.biggest_symbol_index
    }

    /// How many tapes each rule covers.
    pub closed spec fn spec_tape_count(self) -> int {
        self.tape_count as int
    }

    /// The accepting states, in insertion order, without repetition.
    pub closed spec fn spec_finals(self) -> Seq<u8> {
        self.final_states@
    }

    /// The rules, in insertion order, with pairwise distinct keys.
    pub closed spec fn spec_transitions(self) -> Seq<Transition> {
        self.transitions@
    }

    /// The sentinel code meaning "move right": one above the largest symbol.
    pub open spec fn spec_dx(self) -> int {
        self.spec_biggest_symbol() + 1
    }

    /// The sentinel code meaning "move left": two above the largest symbol.
    pub open spec fn spec_sx(self) -> int {
        self.spec_biggest_symbol() + 2
    }

    pub open spec fn wf(self) -> bool {
        &&& self.spec_biggest_symbol() <= 253
        &&& forall|i: int, j: int| 0 <= i < j < self.spec_finals().len()
            ==> self.spec_finals()[i] != self.spec_finals()[j]
        &&& forall|i: int| 0 <= i < self.spec_finals().len()
            ==> self.spec_finals()[i] <= self.spec_biggest_state()
        &&& forall|i: int| 0 <= i < self.spec_transitions().len() ==> transition_wf(
            #[trigger] self.spec_transitions()[i],
            self.spec_biggest_state(),
            self.spec_biggest_symbol(),
            self.spec_tape_count(),
        )
        &&& forall|i: int, j: int| 0 <= i < j < self.spec_transitions().len() ==> !(
        self.spec_transitions()[i].state == self.spec_transitions()[j].state
            && self.spec_transitions()[i].read@ == self.spec_transitions()[j].read@)
    }

    /// Whether some rule is keyed by `(q, x)`.
    pub open spec fn has_transition(self, q: u8, x: Seq<u8>) -> bool {
        exists|i: int| 0 <= i < self.spec_transitions().len() && matches_key(
            #[trigger] self.spec_transitions()[i],
            q,
            x,
        )
    }

    /// The position of the rule keyed by `(q, x)`; meaningful only when
    /// `has_transition` holds, in which case distinct keys make it unique.
    pub open spec fn transition_index(self, q: u8, x: Seq<u8>) -> int {
        choose|i: int| 0 <= i < self.spec_transitions().len() && matches_key(
            #[trigger] self.spec_transitions()[i],
            q,
            x,
        )
    }

    /// The value of the partial transition function at `(q, x)`: the next
    /// state and the actions, or `None` where no rule applies.
    pub open spec fn spec_lookup(self, q: u8, x: Seq<u8>) -> Option<(u8, Seq<u8>)> {
        if self.has_transition(q, x) {
            Some(
                (
                    self.spec_transitions()[self.transition_index(q, x)].next,
                    self.spec_transitions()[self.transition_index(q, x)].write@,
                ),
            )
        } else {
            None
        }
    }

    /// Whether `state` is accepting.
    pub open spec fn spec_is_final(self, state: u8) -> bool {
        exists|i: int| 0 <= i < self.spec_finals().len() && self.spec_finals()[i] == state
    }

    /// An empty table for machines of `state_count` states, `symbol_count`
    /// symbols and `tape_count` tapes. States must fit in a byte and two
    /// symbol codes are reserved for the move sentinels, so at most 256
    /// states and 254 symbols are accepted; neither count may be zero.
    pub fn new(state_count: usize, symbol_count: usize, tape_count: usize) -> (r: Result<
        TuringMachine,
        Error,
    >)
        ensures
            ({
                if state_count == 0 {
                    r == Err::<TuringMachine, Error>(Error::StateTooSmall)
                } else if state_count > 256 {
                    r == Err::<TuringMachine, Error>(Error::StateTooBig)
                } else if symbol_count == 0 {
                    r == Err::<TuringMachine, Error>(Error::SymbolTooSmall)
                } else if symbol_count > 254 {
                    r == Err::<TuringMachine, Error>(Error::SymbolTooBig)
                } else {
                    r matches Ok(m) && m.wf() && m.spec_biggest_state() == state_count - 1
                        && m.spec_biggest_symbol() == symbol_count - 1 && m.spec_tape_count()
                        == tape_count && m.spec_finals() == Seq::<u8>::empty()
                        && m.spec_transitions() == Seq::<Transition>::empty()
                }
            }),
    {
        if state_count == 0 {
            return Err(Error::StateTooSmall);
        }
        if state_count > 256 {
            return Err(Error::StateTooBig);
        }
        if symbol_count == 0 {
            return Err(Error::SymbolTooSmall);
        }
        if symbol_count > 254 {
            return Err(Error::SymbolTooBig);
        }
        Ok(
            TuringMachine {
                biggest_state_index: (state_count - 1) as u8,
                biggest_symbol_index: (symbol_count - 1) as u8,
                tape_count,
                final_states: Vec::new(),
                transitions: Vec::new(),
            },
        )
    }

    /// Whether every symbol of `x` is at most the left move sentinel.
    fn symbols_in_range(&self, x: &Vec<u8>) -> (r: bool)
        requires
            self.wf(),
        ensures
            r == forall|i: int| 0 <= i < x@.len() ==> x@[i] <= self.spec_sx(),
    {
        let limit = self.biggest_symbol_index + 2;
        let mut i: usize = 0;
        while i < x.len()
            invariant
                self.wf(),
                i <= x@.len(),
                limit == self.spec_sx(),
                forall|j: int| 0 <= j < i ==> x@[j] <= self.spec_sx(),
            decreases x@.len() - i,
        {
            if x[i] > limit {
                return false;
            }
            i = i + 1;
        }
        true
    }

    /// Whether the codes `a` and `b` are the same tuple.
    fn codes_equal(a: &Vec<u8>, b: &Vec<u8>) -> (r: bool)
        ensures
            r == (a@ == b@),
    {
        if a.len() != b.len() {
            return false;
        }
        let mut i: usize = 0;
        while i < a.len()
            invariant
                a@.len() == b@.len(),
                i <= a@.len(),
                forall|j: int| 0 <= j < i ==> a@[j] == b@[j],
            decreases a@.len() - i,
        {
            if a[i] != b[i] {
                return false;
            }
            i = i + 1;
        }
        proof {
            assert(a@ =~= b@);
        }
        true
    }

    /// The position of the rule keyed by `(q, x)`, if one exists.
    fn find_transition(&self, q: u8, x: &Vec<u8>) -> (r: Option<usize>)
        requires
            self.wf(),
        ensures
            match r {
                Some(i) => 0 <= i < self.spec_transitions().len() && matches_key(
                    self.spec_transitions()[i as int],
                    q,
                    x@,
                ) && i == self.transition_index(q, x@),
                None => !self.has_transition(q, x@),
            },
    {
        let mut i: usize = 0;
        while i < self.transitions.len()
            invariant
                self.wf(),
                i <= self.spec_transitions().len(),
                forall|j: int| 0 <= j < i ==> !matches_key(
                    #[trigger] self.spec_transitions()[j],
                    q,
                    x@,
                ),
            decreases self.spec_transitions().len() - i,
        {
            let e = &self.transitions[i];
            if e.state == q && Self::codes_equal(&e.read, x) {
                proof {
                    assert(self.has_transition(q, x@));
                    let ci = self.transition_index(q, x@);
                    assert(0 <= ci < self.spec_transitions().len() && matches_key(
                        self.spec_transitions()[ci],
                        q,
                        x@,
                    ));
                    assert(ci == i as int);
                }
                return Some(i);
            }
            i = i + 1;
        }
        None
    }

    /// Insert the rule `(q, x) -> (t, a)`. Rejects a state beyond the largest
    /// state label, a symbol beyond the left move sentinel, and a key already
    /// mapped; on any rejection the table is unchanged.
    pub fn add_transition(&mut self, q: u8, x: Vec<u8>, a: Vec<u8>, t: u8) -> (r: Result<
        (),
        Error,
    >)
        requires
            old(self).wf(),
            x@.len() == old(self).spec_tape_count(),
            a@.len() == old(self).spec_tape_count(),
        ensures
            final(self).wf(),
            final(self).spec_biggest_state() == old(self).spec_biggest_state(),
            final(self).spec_biggest_symbol() == old(self).spec_biggest_symbol(),
            final(self).spec_tape_count() == old(self).spec_tape_count(),
            final(self).spec_finals() == old(self).spec_finals(),
            ({
                if q > old(self).spec_biggest_state() || t > old(self).spec_biggest_state() {
                    r == Err::<(), Error>(Error::StateTooBig) && *final(self) == *old(self)
                } else if !(forall|i: int| 0 <= i < x@.len() ==> x@[i] <= old(self).spec_sx())
                    || !(forall|i: int| 0 <= i < a@.len() ==> a@[i] <= old(self).spec_sx()) {
                    r == Err::<(), Error>(Error::SymbolTooBig) && *final(self) == *old(self)
                } else if old(self).has_transition(q, x@) {
                    r == Err::<(), Error>(Error::TransitionExists) && *final(self) == *old(self)
                } else {
                    r == Ok::<(), Error>(()) && final(self).spec_transitions() == old(
                        self,
                    ).spec_transitions().push(
                        (Transition { state: q, read: x, write: a, next: t }),
                    )
                }
            }),
    {
        if q > self.biggest_state_index || t > self.biggest_state_index {
            return Err(Error::StateTooBig);
        }
        if !self.symbols_in_range(&x) || !self.symbols_in_range(&a) {
            return Err(Error::SymbolTooBig);
        }
        if self.find_transition(q, &x).is_some() {
            return Err(Error::TransitionExists);
        }
        let ghost key = x@;
        let ghost pre = self.transitions@;
        self.transitions.push(Transition { state: q, read: x, write: a, next: t });
        proof {
            let post = self.transitions@;
            let n = post.len() - 1;
            assert forall|p: int| 0 <= p < post.len() implies transition_wf(
                #[trigger] post[p],
                self.spec_biggest_state(),
                self.spec_biggest_symbol(),
                self.spec_tape_count(),
            ) by {
                if p < n {
                    assert(post[p] == pre[p]);
                } else {
                    assert(post[p].read@ == key);
                }
            }
            assert forall|p: int, s: int| 0 <= p < s < post.len() implies !(post[p].state
                == post[s].state && post[p].read@ == post[s].read@) by {
                if s < n {
                    assert(post[p] == pre[p] && post[s] == pre[s]);
                } else {
                    assert(post[p] == pre[p]);
                    if post[p].state == q && post[p].read@ == key {
                        assert(matches_key(pre[p], q, key));
                        assert(old(self).has_transition(q, key));
                    }
                }
            }
            lemma_finals_part_transfer(*old(self), *self);
        }
        Ok(())
    }

    /// Look the partial transition function up at `(q, x)`. Validation
    /// failures are reported as with insertion; an unmapped, valid key is
    /// `TransitionDidNotExist`, the machine's halt signal.
    pub fn get_transition(&self, q: u8, x: &Vec<u8>) -> (r: Result<(u8, Vec<u8>), Error>)
        requires
            self.wf(),
        ensures
            ({
                if q > self.spec_biggest_state() {
                    r == Err::<(u8, Vec<u8>), Error>(Error::StateTooBig)
                } else if !(forall|i: int| 0 <= i < x@.len() ==> x@[i] <= self.spec_sx()) {
                    r == Err::<(u8, Vec<u8>), Error>(Error::SymbolTooBig)
                } else {
                    match self.spec_lookup(q, x@) {
                        Some(out) => r matches Ok(v) && v.0 == out.0 && v.1@ == out.1
                            && v.0 <= self.spec_biggest_state() && v.1@.len()
                            == self.spec_tape_count() && (forall|i: int|
                            0 <= i < v.1@.len() ==> v.1@[i] <= self.spec_sx()),
                        None => r == Err::<(u8, Vec<u8>), Error>(Error::TransitionDidNotExist),
                    }
                }
            }),
    {
        if q > self.biggest_state_index {
            return Err(Error::StateTooBig);
        }
        if !self.symbols_in_range(x) {
            return Err(Error::SymbolTooBig);
        }
        match self.find_transition(q, x) {
            None => Err(Error::TransitionDidNotExist),
            Some(i) => {
                let e = &self.transitions[i];
                let mut out: Vec<u8> = Vec::new();
                let mut j: usize = 0;
                while j < e.write.len()
                    invariant
                        0 <= i < self.spec_transitions().len(),
                        e == self.spec_transitions()[i as int],
                        j <= e.write@.len(),
                        out@.len() == j,
                        forall|p: int| 0 <= p < j ==> out@[p] == e.write@[p],
                    decreases e.write@.len() - j,
                {
                    out.push(e.write[j]);
                    j = j + 1;
                }
                proof {
                    assert(out@ =~= e.write@);
                }
                Ok((e.next, out))
            },
        }
    }

    /// Remove the rule keyed by `(q, x)`, if present; the key is not
    /// validated, an absent rule is `TransitionDidNotExist`.
    pub fn remove_transition(&mut self, q: u8, x: &Vec<u8>) -> (r: Result<(), Error>)
        requires
            old(self).wf(),
        ensures
            final(self).wf(),
            final(self).spec_biggest_state() == old(self).spec_biggest_state(),
            final(self).spec_biggest_symbol() == old(self).spec_biggest_symbol(),
            final(self).spec_tape_count() == old(self).spec_tape_count(),
            final(self).spec_finals() == old(self).spec_finals(),
            ({
                if old(self).has_transition(q, x@) {
                    r == Ok::<(), Error>(()) && final(self).spec_transitions() == old(
                        self,
                    ).spec_transitions().remove(old(self).transition_index(q, x@))
                } else {
                    r == Err::<(), Error>(Error::TransitionDidNotExist) && *final(self) == *old(self)
                }
            }),
    {
        match self.find_transition(q, x) {
            None => Err(Error::TransitionDidNotExist),
            Some(i) => {
                let ghost pre = self.transitions@;
                self.transitions.remove(i);
                proof {
                    pre.remove_ensures(i as int);
                    let post = self.transitions@;
                    assert forall|p: int| 0 <= p < post.len() implies transition_wf(
                        #[trigger] post[p],
                        self.spec_biggest_state(),
                        self.spec_biggest_symbol(),
                        self.spec_tape_count(),
                    ) by {
                        if p < i {
                            assert(post[p] == pre[p]);
                        } else {
                            assert(post[p] == pre[p + 1]);
                        }
                    }
                    assert forall|p: int, s: int| 0 <= p < s < post.len() implies !(post[p].state
                        == post[s].state && post[p].read@ == post[s].read@) by {
                        let p0 = if p < i {
                            p
                        } else {
                            p + 1
                        };
                        let s0 = if s < i {
                            s
                        } else {
                            s + 1
                        };
                        assert(post[p] == pre[p0]);
                        assert(post[s] == pre[s0]);
                    }
                    lemma_finals_part_transfer(*old(self), *self);
                }
                Ok(())
            },
        }
    }

    /// The number of states, fixed at construction. A table of 256 states
    /// cannot report its count as a byte, hence the bound.
    pub fn state_count(&self) -> (r: u8)
        requires
            self.spec_biggest_state() < 255,
        ensures
            r == self.spec_biggest_state() + 1,
    {
        self.biggest_state_index + 1
    }

    /// The "move left" sentinel code.
    pub fn sx(&self) -> (r: u8)
        requires
            self.wf(),
        ensures
            r == self.spec_sx(),
    {
        self.biggest_symbol_index + 2
    }

    /// The "move right" sentinel code.
    pub fn dx(&self) -> (r: u8)
        requires
            self.wf(),
        ensures
            r == self.spec_dx(),
    {
        self.biggest_symbol_index + 1
    }

    /// The position of `state` in the accepting set, if present.
    fn find_final(&self, state: u8) -> (r: Option<usize>)
        ensures
            match r {
                Some(i) => 0 <= i < self.spec_finals().len() && self.spec_finals()[i as int]
                    == state,
                None => !self.spec_is_final(state),
            },
    {
        let mut i: usize = 0;
        while i < self.final_states.len()
            invariant
                i <= self.spec_finals().len(),
                forall|j: int| 0 <= j < i ==> self.spec_finals()[j] != state,
            decreases self.spec_finals().len() - i,
        {
            if self.final_states[i] == state {
                return Some(i);
            }
            i = i + 1;
        }
        None
    }

    /// Mark `state` accepting. Rejects an out-of-range state and one already
    /// accepting; on any rejection the table is unchanged.
    pub fn add_final_state(&mut self, state: u8) -> (r: Result<(), Error>)
        requires
            old(self).wf(),
        ensures
            final(self).wf(),
            final(self).spec_biggest_state() == old(self).spec_biggest_state(),
            final(self).spec_biggest_symbol() == old(self).spec_biggest_symbol(),
            final(self).spec_tape_count() == old(self).spec_tape_count(),
            final(self).spec_transitions() == old(self).spec_transitions(),
            ({
                if state > old(self).spec_biggest_state() {
                    r == Err::<(), Error>(Error::StateTooBig) && *final(self) == *old(self)
                } else if old(self).spec_is_final(state) {
                    r == Err::<(), Error>(Error::AlreadyFinal) && *final(self) == *old(self)
                } else {
                    r == Ok::<(), Error>(()) && final(self).spec_finals() == old(
                        self,
                    ).spec_finals().push(state)
                }
            }),
    {
        if state > self.biggest_state_index {
            return Err(Error::StateTooBig);
        }
        match self.find_final(state) {
            Some(_) => Err(Error::AlreadyFinal),
            None => {
                let ghost pre = self.final_states@;
                self.final_states.push(state);
                proof {
                    let post = self.final_states@;
                    assert forall|p: int, s: int| 0 <= p < s < post.len() implies post[p]
                        != post[s] by {
                        if s < post.len() - 1 {
                            assert(post[p] == pre[p] && post[s] == pre[s]);
                        } else {
                            assert(post[p] == pre[p] && post[s] == state);
                        }
                    }
                    assert forall|p: int| 0 <= p < post.len() implies post[p]
                        <= self.spec_biggest_state() by {
                        if p < post.len() - 1 {
                            assert(post[p] == pre[p]);
                        } else {
                            assert(post[p] == state);
                        }
                    }
                    lemma_transitions_part_transfer(*old(self), *self);
                }
                Ok(())
            },
        }
    }

    /// Unmark `state`. Rejects an out-of-range state and one not accepting;
    /// on any rejection the table is unchanged.
    pub fn remove_final_state(&mut self, state: u8) -> (r: Result<(), Error>)
        requires
            old(self).wf(),
        ensures
            final(self).wf(),
            final(self).spec_biggest_state() == old(self).spec_biggest_state(),
            final(self).spec_biggest_symbol() == old(self).spec_biggest_symbol(),
            final(self).spec_tape_count() == old(self).spec_tape_count(),
            final(self).spec_transitions() == old(self).spec_transitions(),
            ({
                if state > old(self).spec_biggest_state() {
                    r == Err::<(), Error>(Error::StateTooBig) && *final(self) == *old(self)
                } else if !old(self).spec_is_final(state) {
                    r == Err::<(), Error>(Error::WasNotFinal) && *final(self) == *old(self)
                } else {
                    r == Ok::<(), Error>(()) && (exists|i: int|
                        0 <= i < old(self).spec_finals().len() && old(self).spec_finals()[i]
                            == state && final(self).spec_finals() == old(
                            self,
                        ).spec_finals().remove(i))
                }
            }),
    {
        if state > self.biggest_state_index {
            return Err(Error::StateTooBig);
        }
        match self.find_final(state) {
            None => Err(Error::WasNotFinal),
            Some(i) => {
                let ghost pre = self.final_states@;
                self.final_states.remove(i);
                proof {
                    pre.remove_ensures(i as int);
                    let post = self.final_states@;
                    assert forall|p: int, s: int| 0 <= p < s < post.len() implies post[p]
                        != post[s] by {
                        let p0 = if p < i {
                            p
                        } else {
                            p + 1
                        };
                        let s0 = if s < i {
                            s
                        } else {
                            s + 1
                        };
                        assert(post[p] == pre[p0]);
                        assert(post[s] == pre[s0]);
                    }
                    assert forall|p: int| 0 <= p < post.len() implies post[p] <= self.spec_biggest_state() by {
                        if p < i {
                            assert(post[p] == pre[p]);
                        } else {
                            assert(post[p] == pre[p + 1]);
                        }
                    }
                    lemma_transitions_part_transfer(*old(self), *self);
                }
                Ok(())
            },
        }
    }

    /// Whether `state` is accepting; an out-of-range state is rejected.
    pub fn is_final_state(&self, state: u8) -> (r: Result<bool, Error>)
        requires
            self.wf(),
        ensures
            ({
                if state > self.spec_biggest_state() {
                    r == Err::<bool, Error>(Error::StateTooBig)
                } else {
                    r == Ok::<bool, Error>(self.spec_is_final(state))
                }
            }),
    {
        if state > self.biggest_state_index {
            return Err(Error::StateTooBig);
        }
        match self.find_final(state) {
            Some(_) => Ok(true),
            None => Ok(false),
        }
    }

    /// Append the comma-separated rendering of a symbol tuple.
    fn push_codes_list(out: &mut Vec<char>, xs: &Vec<u8>)
        ensures
            final(out)@ == old(out)@ + spec_codes_list(xs@, xs@.len() as int),
    {
        let ghost base = out@;
        let mut j: usize = 0;
        while j < xs.len()
            invariant
                j <= xs@.len(),
                out@ == base + spec_codes_list(xs@, j as int),
            decreases xs@.len() - j,
        {
            if j > 0 {
                out.push(',');
                out.push(' ');
            }
            push_decimal(out, xs[j] as usize);
            proof {
                assert(out@ =~= base + spec_codes_list(xs@, j as int + 1));
            }
            j = j + 1;
        }
        proof {
            assert(base + spec_codes_list(xs@, 0) =~= base);
        }
    }

    /// A human-readable dump of the table: its states, accepting states,
    /// symbol and move-sentinel codes, tape count and rules. Diagnostic
    /// only, not a parseable format.
    pub fn to_string(&self) -> (r: String)
        requires
            self.wf(),
        ensures
            r@ == spec_description(*self),
    {
        let mut out: Vec<char> = Vec::new();
        text::push_str_chars(&mut out, "States Q = {");
        let ghost pre1 = out@;
        let count: usize = self.biggest_state_index as usize + 1;
        let mut i: usize = 0;
        while i < count
            invariant
                i <= count,
                out@ == pre1 + spec_states_list(i as int),
            decreases count - i,
        {
            if i > 0 {
                out.push(',');
                out.push(' ');
            }
            out.push('q');
            push_decimal(&mut out, i);
            proof {
                assert(out@ =~= pre1 + spec_states_list(i as int + 1));
            }
            i = i + 1;
        }
        text::push_str_chars(&mut out, "}\n|Q| = ");
        push_decimal(&mut out, count);
        text::push_str_chars(&mut out, "\n\nFinal States F = {");
        let ghost pre2 = out@;
        let mut j: usize = 0;
        while j < self.final_states.len()
            invariant
                j <= self.spec_finals().len(),
                out@ == pre2 + spec_finals_list(self.spec_finals(), j as int),
            decreases self.spec_finals().len() - j,
        {
            if j > 0 {
                out.push(',');
                out.push(' ');
            }
            out.push('q');
            push_decimal(&mut out, self.final_states[j] as usize);
            proof {
                assert(out@ =~= pre2 + spec_finals_list(self.spec_finals(), j as int + 1));
            }
            j = j + 1;
        }
        text::push_str_chars(&mut out, "}\n\nNumber of symbols |S| = ");
        push_decimal(&mut out, self.biggest_symbol_index as usize + 1);
        text::push_str_chars(&mut out, "\nRight (R): ");
        push_decimal(&mut out, self.biggest_symbol_index as usize + 1);
        text::push_str_chars(&mut out, "\nLeft (L): ");
        push_decimal(&mut out, self.biggest_symbol_index as usize + 2);
        text::push_str_chars(&mut out, "\n\nNumber of tapes: ");
        push_decimal(&mut out, self.tape_count);
        text::push_str_chars(&mut out, "\n\nTransitions:\n");
        let ghost pre3 = out@;
        let mut k: usize = 0;
        while k < self.transitions.len()
            invariant
                k <= self.spec_transitions().len(),
                out@ == pre3 + spec_transition_lines(self.spec_transitions(), k as int),
            decreases self.spec_transitions().len() - k,
        {
            let e = &self.transitions[k];
            push_decimal(&mut out, e.state as usize);
            out.push(' ');
            out.push('(');
            Self::push_codes_list(&mut out, &e.read);
            out.push(')');
            out.push(' ');
            out.push('(');
            Self::push_codes_list(&mut out, &e.write);
            out.push(')');
            out.push(' ');
            push_decimal(&mut out, e.next as usize);
            out.push('\n');
            proof {
                assert(out@ =~= pre3 + spec_transition_lines(
                    self.spec_transitions(),
                    k as int + 1,
                ));
            }
            k = k + 1;
        }
        proof {
            assert(out@ =~= spec_description(*self));
        }
        text::string_from_chars(&out)
    }

    /// The accepting states, in insertion order.
    pub fn final_states_reference(&self) -> (r: &Vec<u8>)
        ensures
            r@ == self.spec_finals(),
    {
        &self.final_states
    }

    /// The rules, in insertion order.
    pub fn transitions_reference(&self) -> (r: &Vec<Transition>)
        ensures
            r@ == self.spec_transitions(),
    {
        &self.transitions
    }
}

/// After a rule is inserted under a fresh key, that key resolves to exactly
/// the inserted rule and every other key resolves as before. Together with
/// the insertion contract this pins the duplicate case: an immediately
/// repeated insertion with the identical key is rejected with
/// `TransitionExists` and leaves the table unchanged.
pub proof fn lemma_insert_then_duplicate(pre: TuringMachine, post: TuringMachine, tr: Transition)
    requires
        pre.wf(),
        post.wf(),
        !pre.has_transition(tr.state, tr.read@),
        post.spec_transitions() == pre.spec_transitions().push(tr),
    ensures
        post.has_transition(tr.state, tr.read@),
        post.spec_lookup(tr.state, tr.read@) == Some((tr.next, tr.write@)),
        forall|q2: u8, x2: Seq<u8>|
            !(q2 == tr.state && x2 == tr.read@) ==> post.spec_lookup(q2, x2) == pre.spec_lookup(
                q2,
                x2,
            ),
{
    let n = pre.spec_transitions().len() as int;
    assert(post.spec_transitions()[n] == tr);
    assert(matches_key(post.spec_transitions()[n], tr.state, tr.read@));
    assert(post.has_transition(tr.state, tr.read@));
    let ci = post.transition_index(tr.state, tr.read@);
    assert(0 <= ci <= n && matches_key(post.spec_transitions()[ci], tr.state, tr.read@));
    if ci < n {
        assert(matches_key(pre.spec_transitions()[ci], tr.state, tr.read@));
        assert(false);
    }
    assert forall|q2: u8, x2: Seq<u8>| !(q2 == tr.state && x2 == tr.read@) implies post.spec_lookup(
        q2,
        x2,
    ) == pre.spec_lookup(q2, x2) by {
        if post.has_transition(q2, x2) {
            let cp = post.transition_index(q2, x2);
            assert(0 <= cp <= n && matches_key(post.spec_transitions()[cp], q2, x2));
            assert(cp != n);
            assert(matches_key(pre.spec_transitions()[cp], q2, x2));
            assert(pre.has_transition(q2, x2));
            let cq = pre.transition_index(q2, x2);
            assert(0 <= cq < n && matches_key(pre.spec_transitions()[cq], q2, x2));
            assert(matches_key(post.spec_transitions()[cq], q2, x2));
            if cq < cp {
                assert(false);
            }
            if cp < cq {
                assert(false);
            }
            assert(post.spec_lookup(q2, x2) == pre.spec_lookup(q2, x2));
        } else {
            if pre.has_transition(q2, x2) {
                let cq = pre.transition_index(q2, x2);
                assert(matches_key(post.spec_transitions()[cq], q2, x2));
                assert(false);
            }
        }
    }
}

} // verus!
