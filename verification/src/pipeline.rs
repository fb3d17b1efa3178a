pub mod stages;

use vstd::prelude::*;

verus! {

/// How a pipeline is driven once it is built.
#[derive(Copy, Clone, PartialEq, Eq, Hash, Debug, Structural)]
pub enum PipelineType {
    /// The pipeline feeds itself and hands nothing out.
    Loop,
    /// The caller pushes blocks in.
    OnSend,
    /// The pipeline feeds itself and the caller pulls results out.
    OnRecv,
}

impl PipelineType {
    /// Whether the built pipeline keeps the sending end of its first stage
    /// for the caller. Only then can the caller push blocks in.
    pub fn keeps_sender(self) -> (kept: bool)
        ensures
            kept == (self == PipelineType::OnSend),
    {
        match self {
            PipelineType::Loop => false,
            PipelineType::OnSend => true,
            PipelineType::OnRecv => false,
        }
    }

    /// Whether the built pipeline keeps the receiving end of its last stage
    /// for the caller. Only then can the caller pull results out.
    pub fn keeps_receiver(self) -> (kept: bool)
        ensures
            kept == (self == PipelineType::OnRecv),
    {
        match self {
            PipelineType::Loop => false,
            PipelineType::OnSend => false,
            PipelineType::OnRecv => true,
        }
    }

    /// Whether the pipeline feeds empty blocks into its own first stage.
    /// It does so exactly when the caller cannot push blocks in.
    pub fn feeds_itself(self) -> (fed: bool)
        ensures
            fed == (self != PipelineType::OnSend),
    {
        match self {
            PipelineType::Loop => true,
            PipelineType::OnSend => false,
            PipelineType::OnRecv => true,
        }
    }
}

} // verus!
