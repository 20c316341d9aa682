//! The machine description an editor hands the engine, and its assembly
//! into a ready computation: the engine builds the symbol table and the
//! transition table from the description, attaches one extending tape, and
//! remembers the input string.

use vstd::prelude::*;

use crate::alphabet::{spec_add_all, Alphabet, DEFAULT_BLANK};
use crate::computation::Computation;
use crate::tape::{Tape, BLANK};
use crate::text;
use crate::turing_machine::{Error, TuringMachine};

verus! {

/// A machine description: a state count, the surface alphabet actually used
/// (the movement markers `'R'` and `'L'` are reserved words in transition
/// labels, not alphabet members), the transition quadruples (from state,
/// symbol read, symbol written or move, to state), and the input string.
pub struct TMInfo {
    pub n_states: u8,
    pub alphabet: String,
    pub transitions: Vec<(u8, char, char, u8)>,
    pub input: String,
}

/// The action code a description character stands for once a table is
/// built: `'R'` and `'L'` are the move sentinels, any other character is
/// the literal internal code of that symbol.
pub open spec fn spec_action_code(a: Alphabet, m: TuringMachine, wc: char) -> int {
    if wc == 'R' {
        m.spec_dx()
    } else if wc == 'L' {
        m.spec_sx()
    } else {
        a.code_index(wc)
    }
}

/// Whether a description can be assembled over the symbol sequence `s` that
/// its alphabet induces: at least one state, room for the two move
/// sentinels, every transition within the state bounds, reading a
/// registered symbol and writing a registered symbol or a move, and no two
/// transitions sharing a key.
pub open spec fn spec_info_ok(info: TMInfo, s: Seq<char>) -> bool {
    &&& info.n_states as int >= 1
    &&& s.len() <= 254
    &&& (forall|j: int|
        0 <= j < info.transitions@.len() ==> ({
            let tr = #[trigger] info.transitions@[j];
            &&& (tr.0 as int) < info.n_states as int
            &&& (tr.3 as int) < info.n_states as int
            &&& s.contains(tr.1)
            &&& (tr.2 == 'R' || tr.2 == 'L' || s.contains(tr.2))
        }))
    &&& (forall|i: int, j: int|
        0 <= i < j < info.transitions@.len() ==> !((#[trigger] info.transitions@[i]).0 == (
        #[trigger] info.transitions@[j]).0 && info.transitions@[i].1 == info.transitions@[j].1))
}

/// Assemble a computation from a description: a symbol table over the
/// description's alphabet with the default blank registered first, a
/// transition table of the description's states and rules with no accepting
/// states yet, one blank extending tape, and the description's input string,
/// ready to be written onto tape 0. Exactly the descriptions that
/// `spec_info_ok` admits are assembled; any other is rejected.
pub fn computation_from_info(info: &TMInfo) -> (r: Result<Computation, String>)
    requires
        info.alphabet@.len() <= 255,
    ensures
        ({
            let s = spec_add_all(seq![DEFAULT_BLANK], info.alphabet@);
            if spec_info_ok(*info, s) {
                r matches Ok(c) && c.wf() && c.spec_tape_count() == 1 && c.spec_current() == 0
                    && c.spec_count() == 0 && !c.spec_paused() && !c.spec_stopped()
                    && !c.spec_terminated() && c.spec_input() == info.input@ && (
                c.spec_alphabet() matches Some(a) && a@ == s && a.spec_blank() == DEFAULT_BLANK && (
                c.spec_tapes() matches Some(ts) && ts.len() == 1 && ts[0]@.head == 0
                    && ts[0]@.extend_on_end && (forall|p: int|
                    0 <= p < ts[0]@.cells.len() ==> ts[0]@.cells[p] == BLANK) && (
                c.spec_machine() matches Some(m) && m.spec_biggest_state() == info.n_states - 1
                    && m.spec_biggest_symbol() == s.len() - 1 && m.spec_tape_count() == 1
                    && m.spec_finals() == Seq::<u8>::empty() && m.spec_transitions().len()
                    == info.transitions@.len() && (forall|j: int|
                    0 <= j < info.transitions@.len() ==> ({
                        let tr = info.transitions@[j];
                        let e = #[trigger] m.spec_transitions()[j];
                        &&& e.state == tr.0
                        &&& e.next == tr.3
                        &&& e.read@ == seq![(a.code_index(tr.1) as u8)]
                        &&& e.write@ == seq![(spec_action_code(a, m, tr.2) as u8)]
                    })))))
            } else {
                r is Err
            }
        }),
{
    let ghost s = spec_add_all(seq![DEFAULT_BLANK], info.alphabet@);
    let mut alpha = Alphabet::new(DEFAULT_BLANK);
    let chars = text::chars_of(info.alphabet.as_str());
    let _counts = alpha.add_symbols(chars.as_slice());
    if alpha.len() > 254 {
        return Err("The alphabet has too many symbols".to_owned());
    }
    let m0 = TuringMachine::new(info.n_states as usize, alpha.len(), 1);
    let mut m = match m0 {
        Err(_) => {
            return Err("The state count is out of range".to_owned());
        },
        Ok(m) => m,
    };
    let dx = m.dx();
    let sx = m.sx();
    let mut j: usize = 0;
    while j < info.transitions.len()
        invariant
            alpha.wf(),
            m.wf(),
            s == spec_add_all(seq![DEFAULT_BLANK], info.alphabet@),
            alpha@ == s,
            alpha.spec_blank() == DEFAULT_BLANK,
            1 <= s.len() <= 254,
            info.n_states as int >= 1,
            m.spec_biggest_state() == info.n_states - 1,
            m.spec_biggest_symbol() == s.len() - 1,
            m.spec_tape_count() == 1,
            m.spec_finals() == Seq::<u8>::empty(),
            dx as int == m.spec_dx(),
            sx as int == m.spec_sx(),
            j <= info.transitions@.len(),
            m.spec_transitions().len() == j,
            forall|p: int|
                0 <= p < j ==> ({
                    let tr = info.transitions@[p];
                    let e = #[trigger] m.spec_transitions()[p];
                    &&& e.state == tr.0
                    &&& e.next == tr.3
                    &&& alpha.has_symbol(tr.1)
                    &&& (tr.2 == 'R' || tr.2 == 'L' || alpha.has_symbol(tr.2))
                    &&& e.read@ == seq![(alpha.code_index(tr.1) as u8)]
                    &&& e.write@ == seq![(spec_action_code(alpha, m, tr.2) as u8)]
                }),
        decreases info.transitions@.len() - j,
    {
        let tr = info.transitions[j];
        let rcode = match alpha.get_l_symbol(&tr.1) {
            None => {
                proof {
                    assert(!s.contains(tr.1));
                }
                return Err("A transition reads a symbol that is not in the alphabet".to_owned());
            },
            Some(c) => c,
        };
        let wcode = if tr.2 == 'R' {
            dx
        } else if tr.2 == 'L' {
            sx
        } else {
            match alpha.get_l_symbol(&tr.2) {
                None => {
                    proof {
                        assert(!s.contains(tr.2));
                    }
                    return Err(
                        "A transition writes a symbol that is not in the alphabet".to_owned(),
                    );
                },
                Some(c) => c,
            }
        };
        let mut read: Vec<u8> = Vec::new();
        read.push(rcode);
        let mut write: Vec<u8> = Vec::new();
        write.push(wcode);
        proof {
            assert(read@ =~= seq![rcode]);
            assert(write@ =~= seq![wcode]);
        }
        let ghost m_pre = m;
        match m.add_transition(tr.0, read, write, tr.3) {
            Ok(()) => {
                proof {
                    assert forall|p: int| 0 <= p < j + 1 implies ({
                        let trp = info.transitions@[p];
                        let e = #[trigger] m.spec_transitions()[p];
                        &&& e.state == trp.0
                        &&& e.next == trp.3
                        &&& alpha.has_symbol(trp.1)
                        &&& (trp.2 == 'R' || trp.2 == 'L' || alpha.has_symbol(trp.2))
                        &&& e.read@ == seq![(alpha.code_index(trp.1) as u8)]
                        &&& e.write@ == seq![(spec_action_code(alpha, m, trp.2) as u8)]
                    }) by {
                        let trp = info.transitions@[p];
                        if p < j {
                            assert(m.spec_transitions()[p] == m_pre.spec_transitions()[p]);
                            assert(spec_action_code(alpha, m, trp.2) == spec_action_code(
                                alpha,
                                m_pre,
                                trp.2,
                            ));
                        } else {
                            assert(m.spec_transitions()[p].read@ == seq![rcode]);
                            assert(m.spec_transitions()[p].write@ == seq![wcode]);
                            assert(wcode as int == spec_action_code(alpha, m, trp.2));
                        }
                    }
                }
            },
            Err(e) => {
                proof {
                    if e == Error::TransitionExists {
                        let p = choose|p: int|
                            0 <= p < j && crate::turing_machine::matches_key(
                                #[trigger] m.spec_transitions()[p],
                                tr.0,
                                seq![rcode],
                            );
                        let trp = info.transitions@[p];
                        let ep = m.spec_transitions()[p];
                        assert(ep.read@ == seq![rcode]);
                        assert(ep.read@ == seq![(alpha.code_index(trp.1) as u8)]);
                        assert(ep.read@[0] == rcode);
                        assert(alpha.code_index(trp.1) as u8 == rcode);
                        assert(alpha.has_symbol(tr.1) && rcode == alpha.code_index(tr.1) as u8);
                        assert(0 <= alpha.code_index(trp.1) < alpha@.len());
                        assert(0 <= alpha.code_index(tr.1) < alpha@.len());
                        assert(alpha.code_index(trp.1) == alpha.code_index(tr.1));
                        assert(alpha@[alpha.code_index(trp.1)] == trp.1);
                        assert(alpha@[alpha.code_index(tr.1)] == tr.1);
                        assert(trp.1 == tr.1);
                        assert(!spec_info_ok(*info, s));
                    }
                }
                return Err("The transition table rejected a transition".to_owned());
            },
        }
        j = j + 1;
    }
    proof {
        let n = info.transitions@.len() as int;
        assert forall|p: int| 0 <= p < n implies ({
            let tr = #[trigger] info.transitions@[p];
            &&& (tr.0 as int) < info.n_states as int
            &&& (tr.3 as int) < info.n_states as int
            &&& s.contains(tr.1)
            &&& (tr.2 == 'R' || tr.2 == 'L' || s.contains(tr.2))
        }) by {
            let tr = info.transitions@[p];
            let e = m.spec_transitions()[p];
            assert(e.state == tr.0 && e.next == tr.3);
            assert(e.state <= m.spec_biggest_state() && e.next <= m.spec_biggest_state());
            let c1 = alpha.code_index(tr.1);
            assert(0 <= c1 < s.len() && s[c1] == tr.1);
            assert(s.contains(tr.1));
            if tr.2 != 'R' && tr.2 != 'L' {
                let c2 = alpha.code_index(tr.2);
                assert(0 <= c2 < s.len() && s[c2] == tr.2);
                assert(s.contains(tr.2));
            }
        }
        assert forall|i2: int, j2: int| 0 <= i2 < j2 < info.transitions@.len() implies !((
        #[trigger] info.transitions@[i2]).0 == (#[trigger] info.transitions@[j2]).0
            && info.transitions@[i2].1 == info.transitions@[j2].1) by {
            if info.transitions@[i2].0 == info.transitions@[j2].0 && info.transitions@[i2].1
                == info.transitions@[j2].1 {
                let e1 = m.spec_transitions()[i2];
                let e2 = m.spec_transitions()[j2];
                assert(e1.state == e2.state);
                assert(e1.read@ == seq![(alpha.code_index(info.transitions@[i2].1) as u8)]);
                assert(e2.read@ == seq![(alpha.code_index(info.transitions@[j2].1) as u8)]);
                assert(e1.read@ == e2.read@);
                assert(false);
            }
        }
        assert(spec_info_ok(*info, s));
    }
    let mut c = Computation::new(1);
    c.use_alphabet(alpha);
    c.use_machine(m);
    let mut tapes: Vec<Tape> = Vec::new();
    tapes.push(Tape::new(true));
    proof {
        assert(tapes@.len() == 1);
    }
    c.use_tapes(tapes);
    match c.set_input_string(info.input.clone()) {
        Ok(()) => Ok(c),
        Err(_) => Err("An alphabet is needed".to_owned()),
    }
}

} // verus!
