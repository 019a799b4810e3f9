//! The options that the engine offers.

use vstd::prelude::*;
use vstd::string::StringSliceAdditionalSpecFns;
use crate::general::text::same_bytes;

verus! {

/// The least value, the largest value and the default of the spin option `name`, if there
/// is one of that name: `Hash`, the size of the transposition table in megabytes, and
/// `Threads`.
pub open spec fn spin_bounds(name: Seq<u8>) -> Option<(u16, u16, u16)> {
    if name == "Hash".spec_bytes() {
        Some((1u16, 32768u16, 16u16))
    } else if name == "Threads".spec_bytes() {
        Some((1u16, 1024u16, 1u16))
    } else {
        None
    }
}

/// Whether `name` is the name of a button option: `Clear Hash`.
pub open spec fn is_button(name: Seq<u8>) -> bool {
    name == "Clear Hash".spec_bytes()
}

pub fn spin_option(name: &[u8]) -> (r: Option<(u16, u16, u16)>)
    ensures
        r == spin_bounds(name@),
{
    if same_bytes(name, "Hash".as_bytes()) {
        Some((1, 32768, 16))
    } else if same_bytes(name, "Threads".as_bytes()) {
        Some((1, 1024, 1))
    } else {
        None
    }
}

pub fn button_option(name: &[u8]) -> (r: bool)
    ensures
        r == is_button(name@),
{
    same_bytes(name, "Clear Hash".as_bytes())
}

/// The lines that announce the options, as the answer to `uci` holds them.
pub fn option_table() -> (r: &'static str)
    ensures
        r@ == "option name Hash type spin default 16 min 1 max 32768\noption name Threads type spin default 1 min 1 max 1024\noption name Clear Hash type button\n"@,
{
    "option name Hash type spin default 16 min 1 max 32768\noption name Threads type spin default 1 min 1 max 1024\noption name Clear Hash type button\n"
}

} // verus!
