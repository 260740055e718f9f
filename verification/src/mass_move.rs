use vstd::prelude::*;

use crate::build_target_path::{
    build_target_path, build_target_spec, extract_generic_parts, extract_parts_spec,
};

verus! {

/// The destination path a matched source file is moved to: the parts its
/// name hides under the source pattern's wildcards, substituted into the
/// destination template.
pub open spec fn plan_spec(
    source: Seq<char>,
    source_pattern: Seq<char>,
    destination_pattern: Seq<char>,
) -> Seq<char> {
    build_target_spec(extract_parts_spec(source, source_pattern), destination_pattern)
}

/// The text of the error returned when a destination path is already taken
/// and force mode is off; it names that exact path.
pub open spec fn destination_exists_msg(destination: Seq<char>) -> Seq<char> {
    "mmv: Not able to replace existing file: "@ + destination
}

/// The text of the error returned when deleting an existing destination file
/// under force mode failed.
pub open spec fn replace_failed_msg() -> Seq<char> {
    "mmv: Not able to replace existing file"@
}

/// What to do about one computed destination before any file is moved.
pub enum DestinationDecision {
    /// The destination is free: the move may proceed.
    Proceed,
    /// The destination is taken and force mode is on: delete it, then move.
    ReplaceFirst,
    /// The destination is taken and force mode is off: abort the whole batch
    /// with this error, before any file is moved.
    Refuse(String),
}

/// The rename plan of the whole batch: every matched source file paired with
/// its computed destination path, in the order the sources were found and
/// before any filesystem mutation.
pub fn plan_moves(
    source_files: &Vec<String>,
    source_pattern: &str,
    destination_pattern: &str,
) -> (plans: Vec<(String, String)>)
    ensures
        plans@.len() == source_files@.len(),
        forall|i: int|
            0 <= i < plans@.len() ==> (#[trigger] plans@[i]).0@ == source_files@[i]@
                && plans@[i].1@ == plan_spec(
                source_files@[i]@,
                source_pattern@,
                destination_pattern@,
            ),
{
    let mut plans: Vec<(String, String)> = Vec::new();
    let mut idx: usize = 0;
    while idx < source_files.len()
        invariant
            idx <= source_files.len(),
            plans@.len() == idx,
            forall|i: int|
                0 <= i < idx ==> (#[trigger] plans@[i]).0@ == source_files@[i]@
                    && plans@[i].1@ == plan_spec(
                    source_files@[i]@,
                    source_pattern@,
                    destination_pattern@,
                ),
        decreases source_files.len() - idx,
    {
        let source = source_files[idx].clone();
        let parts = extract_generic_parts(source.as_str(), source_pattern);
        let destination = build_target_path(parts, destination_pattern);
        plans.push((source, destination));
        idx = idx + 1;
    }
    plans
}

/// The collision rule applied to one computed destination: a free destination
/// lets the move proceed; a taken one is replaced first under force mode and
/// refused otherwise, with an error naming the path.
pub fn decide_destination(destination: &str, destination_exists: bool, force: bool) -> (d:
    DestinationDecision)
    ensures
        d matches DestinationDecision::Proceed <==> !destination_exists,
        d matches DestinationDecision::ReplaceFirst <==> destination_exists && force,
        destination_exists && !force ==> (d matches DestinationDecision::Refuse(m) && m@
            == destination_exists_msg(destination@)),
{
    if !destination_exists {
        DestinationDecision::Proceed
    } else if force {
        DestinationDecision::ReplaceFirst
    } else {
        let mut msg = String::from_str("mmv: Not able to replace existing file: ");
        msg.append(destination);
        DestinationDecision::Refuse(msg)
    }
}

/// The error reported when deleting an existing destination under force mode
/// failed.
pub fn replace_failed_message() -> (m: String)
    ensures
        m@ == replace_failed_msg(),
{
    String::from_str("mmv: Not able to replace existing file")
}

} // verus!
