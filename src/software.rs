use vstd::prelude::*;

use crate::text::{owned, push_str, trim_white};

verus! {

/// The versions of the container runtime and the GPU tools found on the node;
/// empty where a tool is missing or reports nothing.
#[derive(Debug, Clone, PartialEq, Eq)]
pub struct NodeSoftware {
    pub docker: String,
    pub nvidia: String,
    pub amd: String,
}

/// The version that a tool reports: its trimmed standard output, or where that
/// is blank, its output and error output together, trimmed; none where the tool
/// failed or both are blank.
pub open spec fn version_text(success: bool, stdout: Seq<char>, stderr: Seq<char>) -> Option<
    Seq<char>,
> {
    if !success {
        None
    } else {
        let s = if trim_white(stdout).len() == 0 {
            stdout + stderr
        } else {
            stdout
        };
        if trim_white(s).len() == 0 {
            None
        } else {
            Some(trim_white(s))
        }
    }
}

/// The version that a tool reports, from its exit status and its output.
pub fn version_from_output(success: bool, stdout: &str, stderr: &str) -> (r: Option<String>)
    ensures
        match r {
            Some(v) => version_text(success, stdout@, stderr@) == Some(v@),
            None => version_text(success, stdout@, stderr@) is None,
        },
{
    if !success {
        return None;
    }
    let mut s = owned(stdout);
    if stdout.trim().is_empty() {
        push_str(&mut s, stderr);
    }
    let t = s.as_str().trim();
    if t.is_empty() {
        None
    } else {
        Some(owned(t))
    }
}

/// The software snapshot from each tool's reported version, empty where none.
pub fn collect_software_info(docker: Option<String>, nvidia: Option<String>, amd: Option<String>) -> (r:
    NodeSoftware)
    ensures
        r.docker@ == match docker {
            Some(v) => v@,
            None => Seq::empty(),
        },
        r.nvidia@ == match nvidia {
            Some(v) => v@,
            None => Seq::empty(),
        },
        r.amd@ == match amd {
            Some(v) => v@,
            None => Seq::empty(),
        },
{
    NodeSoftware {
        docker: docker.unwrap_or(String::new()),
        nvidia: nvidia.unwrap_or(String::new()),
        amd: amd.unwrap_or(String::new()),
    }
}

} // verus!
