//! Session state written on exit and restored by `-r`. Where it is stored
//! and how it is encoded is the program's part.
use crate::app::Mode;
use vstd::prelude::*;

verus! {

pub struct State {
    pub query: String,
    pub mode: Mode,
    pub selected: usize,
}

} // verus!
