use vstd::prelude::*;

verus! {

/// The message unit exchanged between the host agent and the kernel.
#[derive(Clone, Debug)]
pub struct AgentMessage {
    pub id: u64,
    pub target: String,
    pub msg_type: String,
    pub content: String,
}

} // verus!
