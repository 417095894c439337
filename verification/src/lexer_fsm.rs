//! The bare scanning state, bundled on its own: the character buffer, the
//! cursor, and the machine state, without any token output attached.

use vstd::prelude::*;
use crate::lexer::State;

verus! {

/// A scanner core holding only what the state machine itself needs: the
/// characters, the cursor position, and the current state.
pub struct LexerFsm {
    pub symbols: Vec<char>,
    pub position: usize,
    pub current_state: State,
}

impl LexerFsm {
    /// A fresh scanner core positioned at the start of the given characters.
    pub fn new(symbols: &Vec<char>) -> (fsm: LexerFsm)
        ensures
            fsm.symbols@ == symbols@,
            fsm.position == 0,
            fsm.current_state is Start,
    {
        let mut copy: Vec<char> = Vec::new();
        let mut i: usize = 0;
        while i < symbols.len()
            invariant
                i <= symbols@.len(),
                copy@ == symbols@.subrange(0, i as int),
            decreases symbols@.len() - i,
        {
            copy.push(symbols[i]);
            proof {
                assert(symbols@.subrange(0, i as int).push(symbols@[i as int]) =~= symbols@
                    .subrange(0, i as int + 1));
            }
            i = i + 1;
        }
        proof {
            assert(symbols@.subrange(0, symbols@.len() as int) =~= symbols@);
        }
        LexerFsm { symbols: copy, position: 0, current_state: State::Start }
    }
}

} // verus!
