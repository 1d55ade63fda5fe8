//! Verified core of a flows-first packet capture browser: packet decoding,
//! flow grouping and analysis, payload hint parsing, search helpers and the
//! summaries that the terminal UI renders.
use vstd::prelude::*;

pub mod search;
pub mod text;
pub mod pcap;
pub mod hints;
pub mod flow;
pub mod weird;
pub mod stream;
pub mod summary;
pub mod explain;
pub mod ui_filter;
pub mod domains;
pub mod live;
pub mod casefile;
pub mod report;
pub mod ai;
pub mod hexdump;
pub mod navigation;
pub mod ui_state;
pub mod timeline;
pub mod capture;
pub mod keys;
pub mod overview;

verus! {

/// Exit code for the command line front end: `2` when no arguments were given, `0` otherwise.
pub fn usage_exit_code(args: &[&str]) -> (code: i32)
    ensures
        code == (if args@.len() == 0 { 2i32 } else { 0i32 }),
{
    if args.len() == 0 {
        return 2;
    }
    0
}

} // verus!
