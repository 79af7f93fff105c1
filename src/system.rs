use vstd::prelude::*;

verus! {

/// The operating system and kernel of the node.
#[derive(Debug, Clone, PartialEq, Eq)]
pub struct NodeSystem {
    pub os: String,
    pub kernel: String,
}

/// The system snapshot; the operating system is empty where it is unknown.
pub fn collect_system_info(os: Option<String>, kernel: String) -> (r: NodeSystem)
    ensures
        r.os@ == match os {
            Some(v) => v@,
            None => Seq::empty(),
        },
        r.kernel == kernel,
{
    NodeSystem { os: os.unwrap_or(String::new()), kernel }
}

} // verus!
