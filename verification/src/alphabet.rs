//! The symbol table: a bijective mapping between external (surface) symbols
//! and the compact internal codes the machine works on.
//!
//! Codes are assigned in registration order, so the table is a sequence of
//! distinct characters and a symbol's code is its position. The blank symbol
//! is always registered first and therefore always holds code 0.

use vstd::prelude::*;

verus! {

/// Largest number of symbols a table can register: internal codes are bytes.
pub const MAX_SYMBOLS: usize = 256;

/// The blank symbol used where a description does not name one.
pub const DEFAULT_BLANK: char = '*';

/// A bidirectional symbol table. The view is the sequence of registered
/// external symbols in code order.
pub struct Alphabet {
    blank_r_symbol: char,
    symbols: Vec<char>,
}

/// Well-formedness of a symbol sequence with respect to a blank symbol: at
/// least the blank is registered, it comes first, codes fit in a byte, and no
/// symbol appears twice.
pub open spec fn wf_symbols(s: Seq<char>, blank: char) -> bool {
    &&& 1 <= s.len() <= MAX_SYMBOLS
    &&& s[0] == blank
    &&& forall|i: int, j: int| 0 <= i < j < s.len() ==> s[i] != s[j]
}

/// Registering one symbol at the model level: the resulting sequence and
/// whether registration succeeds. Registering a known symbol is an idempotent
/// success; a new symbol is appended unless the table is full.
pub open spec fn spec_add(s: Seq<char>, c: char) -> (Seq<char>, bool) {
    if s.contains(c) {
        (s, true)
    } else if s.len() >= MAX_SYMBOLS {
        (s, false)
    } else {
        (s.push(c), true)
    }
}

/// Registering a sequence of symbols in order, at the model level.
pub open spec fn spec_add_all(s: Seq<char>, cs: Seq<char>) -> Seq<char>
    decreases cs.len(),
{
    if cs.len() == 0 {
        s
    } else {
        spec_add_all(spec_add(s, cs[0]).0, cs.drop_first())
    }
}

/// How many of the registrations of `cs` into `s`, made in order, succeed.
pub open spec fn spec_add_ok_count(s: Seq<char>, cs: Seq<char>) -> int
    decreases cs.len(),
{
    if cs.len() == 0 {
        0
    } else {
        (if spec_add(s, cs[0]).1 {
            1int
        } else {
            0int
        }) + spec_add_ok_count(spec_add(s, cs[0]).0, cs.drop_first())
    }
}

impl View for Alphabet {
    type V = Seq<char>;

    closed spec fn view(&self) -> Seq<char> {
        self.symbols@
    }
}

impl Alphabet {
    /// The blank symbol this table was built with.
    pub closed spec fn spec_blank(self) -> char {
        self.blank_r_symbol
    }

    pub open spec fn wf(self) -> bool {
        wf_symbols(self@, self.spec_blank())
    }

    /// Whether `c` is a registered external symbol.
    pub open spec fn has_symbol(self, c: char) -> bool {
        exists|i: int| 0 <= i < self@.len() && self@[i] == c
    }

    /// The code of a registered external symbol: its position in the table.
    pub open spec fn code_index(self, c: char) -> int {
        choose|i: int| 0 <= i < self@.len() && self@[i] == c
    }

    /// The internal code of `c`, if registered.
    pub open spec fn spec_code_of(self, c: char) -> Option<u8> {
        if self.has_symbol(c) {
            Some(self.code_index(c) as u8)
        } else {
            None
        }
    }

    /// The external symbol carrying code `k`, if any does.
    pub open spec fn spec_symbol_of(self, k: u8) -> Option<char> {
        if k < self@.len() {
            Some(self@[k as int])
        } else {
            None
        }
    }

    /// A table holding only `blank_r_symbol`, which therefore has code 0.
    pub fn new(blank_r_symbol: char) -> (a: Alphabet)
        ensures
            a.wf(),
            a@ == seq![blank_r_symbol],
            a.spec_blank() == blank_r_symbol,
    {
        let mut symbols: Vec<char> = Vec::new();
        symbols.push(blank_r_symbol);
        proof {
            assert(symbols@ =~= seq![blank_r_symbol]);
        }
        Alphabet { blank_r_symbol, symbols }
    }

    /// The position of `symbol` in the table, if registered.
    fn find_index(&self, symbol: char) -> (r: Option<usize>)
        ensures
            match r {
                Some(i) => 0 <= i < self@.len() && self@[i as int] == symbol,
                None => !self.has_symbol(symbol),
            },
    {
        let mut i: usize = 0;
        while i < self.symbols.len()
            invariant
                i <= self@.len(),
                forall|j: int| 0 <= j < i ==> self@[j] != symbol,
            decreases self@.len() - i,
        {
            if self.symbols[i] == symbol {
                return Some(i);
            }
            i = i + 1;
        }
        None
    }

    /// Register one external symbol: a known symbol is a no-op success, a new
    /// one receives the next unused code, and a full table rejects it.
    pub fn add_symbol(&mut self, symbol: char) -> (r: Result<(), ()>)
        requires
            old(self).wf(),
        ensures
            final(self).wf(),
            final(self)@ == spec_add(old(self)@, symbol).0,
            r is Ok <==> spec_add(old(self)@, symbol).1,
            final(self).spec_blank() == old(self).spec_blank(),
    {
        match self.find_index(symbol) {
            Some(_) => Ok(()),
            None => {
                if self.symbols.len() >= MAX_SYMBOLS {
                    return Err(());
                }
                self.symbols.push(symbol);
                proof {
                    assert(old(self)@.push(symbol).drop_last() =~= old(self)@);
                }
                Ok(())
            },
        }
    }

    /// Register a slice of symbols in order, returning how many registrations
    /// succeeded and how many were rejected.
    pub fn add_symbols(&mut self, symbols: &[char]) -> (r: (u8, u8))
        requires
            old(self).wf(),
            symbols@.len() <= 255,
        ensures
            final(self).wf(),
            final(self)@ == spec_add_all(old(self)@, symbols@),
            r.0 == spec_add_ok_count(old(self)@, symbols@),
            r.1 == symbols@.len() - spec_add_ok_count(old(self)@, symbols@),
            final(self).spec_blank() == old(self).spec_blank(),
    {
        let ghost cs = symbols@;
        proof {
            assert(cs.skip(0) =~= cs);
        }
        let mut inserted: u8 = 0;
        let mut rejected: u8 = 0;
        let mut k: usize = 0;
        while k < symbols.len()
            invariant
                self.wf(),
                self.spec_blank() == old(self).spec_blank(),
                k <= cs.len() <= 255,
                symbols@ == cs,
                inserted + rejected == k,
                spec_add_all(old(self)@, cs) == spec_add_all(self@, cs.skip(k as int)),
                spec_add_ok_count(old(self)@, cs) == inserted + spec_add_ok_count(
                    self@,
                    cs.skip(k as int),
                ),
            decreases cs.len() - k,
        {
            proof {
                assert(cs.skip(k as int).len() > 0);
                assert(cs.skip(k as int)[0] == cs[k as int]);
                assert(cs.skip(k as int).drop_first() =~= cs.skip(k as int + 1));
            }
            match self.add_symbol(symbols[k]) {
                Ok(()) => {
                    inserted = inserted + 1;
                },
                Err(()) => {
                    rejected = rejected + 1;
                },
            }
            k = k + 1;
        }
        proof {
            assert(cs.skip(cs.len() as int) =~= Seq::<char>::empty());
        }
        (inserted, rejected)
    }

    /// The internal code registered for an external symbol, if any.
    pub fn get_l_symbol(&self, r_key: &char) -> (r: Option<u8>)
        requires
            self.wf(),
        ensures
            r == self.spec_code_of(*r_key),
            r is Some <==> self.has_symbol(*r_key),
    {
        match self.find_index(*r_key) {
            Some(i) => {
                proof {
                    assert(self.has_symbol(*r_key));
                    let ci = self.code_index(*r_key);
                    assert(0 <= ci < self@.len() && self@[ci] == *r_key);
                    assert(i as int == ci);
                }
                Some(i as u8)
            },
            None => None,
        }
    }

    /// The external symbol registered under an internal code, if any.
    pub fn get_r_symbol(&self, l_key: &u8) -> (r: Option<char>)
        requires
            self.wf(),
        ensures
            r == self.spec_symbol_of(*l_key),
    {
        if (*l_key as usize) < self.symbols.len() {
            Some(self.symbols[*l_key as usize])
        } else {
            None
        }
    }

    /// Translate a slice of external symbols, in order; an unregistered
    /// symbol becomes `None` without aborting the batch.
    pub fn get_l_symbols(&self, r_keys: &[char]) -> (r: Vec<Option<u8>>)
        requires
            self.wf(),
        ensures
            r@.len() == r_keys@.len(),
            forall|j: int| 0 <= j < r@.len() ==> r@[j] == self.spec_code_of(r_keys@[j]),
    {
        let mut out: Vec<Option<u8>> = Vec::new();
        let mut k: usize = 0;
        while k < r_keys.len()
            invariant
                self.wf(),
                k <= r_keys@.len(),
                out@.len() == k,
                forall|j: int| 0 <= j < k ==> out@[j] == self.spec_code_of(r_keys@[j]),
            decreases r_keys@.len() - k,
        {
            out.push(self.get_l_symbol(&r_keys[k]));
            k = k + 1;
        }
        out
    }

    /// Translate a slice of internal codes, in order; an unassigned code
    /// becomes `None` without aborting the batch.
    pub fn get_r_symbols(&self, l_keys: &[u8]) -> (r: Vec<Option<char>>)
        requires
            self.wf(),
        ensures
            r@.len() == l_keys@.len(),
            forall|j: int| 0 <= j < r@.len() ==> r@[j] == self.spec_symbol_of(l_keys@[j]),
    {
        let mut out: Vec<Option<char>> = Vec::new();
        let mut k: usize = 0;
        while k < l_keys.len()
            invariant
                self.wf(),
                k <= l_keys@.len(),
                out@.len() == k,
                forall|j: int| 0 <= j < k ==> out@[j] == self.spec_symbol_of(l_keys@[j]),
            decreases l_keys@.len() - k,
        {
            out.push(self.get_r_symbol(&l_keys[k]));
            k = k + 1;
        }
        out
    }

    /// The blank external symbol.
    pub fn default_blank(&self) -> (r: char)
        ensures
            r == self.spec_blank(),
    {
        self.blank_r_symbol
    }

    /// The number of registered external symbols. The two move sentinels are
    /// derived from a machine's symbol count, never registered here.
    pub fn len(&self) -> (r: usize)
        ensures
            r == self@.len(),
    {
        self.symbols.len()
    }
}

/// Round trip through the table: translating the external symbol registered
/// under any code `c` back through the table yields exactly `Some(c)`, and
/// the blank symbol always yields code 0.
pub proof fn lemma_code_round_trip(a: Alphabet, code: u8)
    requires
        a.wf(),
        code < a@.len(),
    ensures
        a.spec_symbol_of(code) == Some(a@[code as int]),
        a.spec_code_of(a@[code as int]) == Some(code),
        a.spec_code_of(a.spec_blank()) == Some(0u8),
{
    assert(a.has_symbol(a@[code as int]));
    let ci = a.code_index(a@[code as int]);
    assert(0 <= ci < a@.len() && a@[ci] == a@[code as int]);
    assert(ci == code as int);
    assert(a.has_symbol(a.spec_blank()));
    let bi = a.code_index(a.spec_blank());
    assert(0 <= bi < a@.len() && a@[bi] == a.spec_blank());
    assert(bi == 0);
}

} // verus!
