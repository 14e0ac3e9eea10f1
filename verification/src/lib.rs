//! A small database front end and storage core: the SQL lexer, the token
//! model, the syntax tree of the query language, and the buffer pool's
//! bookkeeping, each with its contract proved by Verus.
use vstd::prelude::*;

pub mod frontend;
pub mod storage;

verus! {

} // verus!
