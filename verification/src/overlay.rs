//! Where the break overlay opens.
use vstd::prelude::*;
use vstd::string::*;

verus! {

/// The monitor that the break overlay covers, among `monitor_count` monitors:
/// the one asked for when it exists, else the first, else an error.
pub fn cat_window_monitor(monitor_count: usize, monitor_index: usize) -> (r: Result<usize, String>)
    ensures
        monitor_index < monitor_count ==> r == Ok::<usize, String>(monitor_index),
        monitor_index >= monitor_count && monitor_count > 0 ==> r == Ok::<usize, String>(0),
        monitor_count == 0 ==> (r matches Err(e) && e@ == "no monitors available"@),
{
    if monitor_index < monitor_count {
        Ok(monitor_index)
    } else if monitor_count > 0 {
        Ok(0)
    } else {
        Err(String::from_str("no monitors available"))
    }
}

} // verus!
