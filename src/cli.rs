use crate::command::GetTopics;
use crate::identifier::Identifier;
use vstd::prelude::*;

verus! {

/// How the command line prints a list of topics.
#[derive(Debug, Clone, Copy, PartialEq, Eq, Structural)]
pub enum GetTopicsOutput {
    Table,
    List,
}

/// The command-line request to list the topics of a stream.
#[derive(Debug)]
pub struct GetTopicsCmd {
    pub get_topics: GetTopics,
    pub output: GetTopicsOutput,
}

impl GetTopicsCmd {
    pub fn new(stream_id: Identifier, output: GetTopicsOutput) -> (r: Self)
        ensures
            r.get_topics.stream_id == stream_id,
            r.output == output,
    {
        Self { get_topics: GetTopics { stream_id }, output }
    }
}

} // verus!
