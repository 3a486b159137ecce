//! What to tell the user when processing is interrupted.

use vstd::prelude::*;
use crate::issue_context::IssueContext;
use crate::text::{push_str, string_of};

verus! {

/// Builds the message shown on interruption.
pub struct OutputGenerator;

/// The message for an interrupted issue.
pub open spec fn interrupted_message(issue_url: Seq<char>) -> Seq<char> {
    "Processing interrupted.\nIssue: "@ + issue_url
        + "\nPlease remove the 'ai-processing' label from this issue."@
}

impl OutputGenerator {
    /// The message for `context`: the interrupted-issue message when an
    /// issue is being processed, nothing otherwise.
    pub fn generate_output(context: Option<&IssueContext>) -> (res: String)
        ensures
            match context {
                Some(ctx) => if ctx.is_processing {
                    res@ == interrupted_message(ctx.issue_url@)
                } else {
                    res@.len() == 0
                },
                None => res@.len() == 0,
            },
    {
        match context {
            Some(ctx) => {
                if ctx.is_processing {
                    let mut out: Vec<char> = Vec::new();
                    push_str(&mut out, "Processing interrupted.\nIssue: ");
                    push_str(&mut out, ctx.issue_url.as_str());
                    push_str(&mut out, "\nPlease remove the 'ai-processing' label from this issue.");
                    string_of(out.as_slice())
                } else {
                    String::new()
                }
            },
            None => String::new(),
        }
    }
}

} // verus!
