//! Task priorities and their ordering.

use vstd::prelude::*;

verus! {

/// Priority of an active task: `H` (high), `M` (medium), `L` (low).
#[derive(Clone, Copy, PartialEq, Eq, Structural, Debug)]
pub enum Priority {
    H,
    M,
    L,
}

/// Rank used to order active tasks: high first, then medium, then low;
/// a task without a priority sorts after every task that has one.
pub open spec fn priority_rank(p: Option<Priority>) -> int {
    match p {
        Some(Priority::H) => 0,
        Some(Priority::M) => 1,
        Some(Priority::L) => 2,
        None => 3,
    }
}

/// Computes the rank of an optional priority.
pub fn rank_of(p: &Option<Priority>) -> (r: u8)
    ensures
        r as int == priority_rank(*p),
{
    match p {
        Some(Priority::H) => 0,
        Some(Priority::M) => 1,
        Some(Priority::L) => 2,
        None => 3,
    }
}

/// Single-letter label of a priority, as shown in listings and stored on disk.
pub open spec fn spec_priority_label(p: Priority) -> Seq<char> {
    match p {
        Priority::H => "H"@,
        Priority::M => "M"@,
        Priority::L => "L"@,
    }
}

/// Returns the label of a priority.
pub fn priority_label(p: &Priority) -> (r: &'static str)
    ensures
        r@ == spec_priority_label(*p),
{
    match p {
        Priority::H => "H",
        Priority::M => "M",
        Priority::L => "L",
    }
}

/// Text shown for an optional priority: its label, or nothing.
pub open spec fn spec_display_option_priority(o: Option<Priority>) -> Seq<char> {
    match o {
        Some(p) => spec_priority_label(p),
        None => Seq::<char>::empty(),
    }
}

/// Returns the text shown for an optional priority.
pub fn display_option_priority(o: &Option<Priority>) -> (r: String)
    ensures
        r@ == spec_display_option_priority(*o),
{
    match o {
        Some(p) => String::from_str(priority_label(p)),
        None => String::new(),
    }
}

} // verus!
