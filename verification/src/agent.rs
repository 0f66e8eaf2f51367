//! The retrieval-augmented agent: prompt assembly and the handling of the
//! completion provider's outcome.
//!
//! The agent retrieves the top `k` context documents from the index,
//! assembles a prompt — its fixed preamble, the retrieved documents in the
//! order returned, then the user's question verbatim — and hands the
//! prompt to a completion provider.  The provider call itself is the
//! caller's: its outcome comes back through `completion_outcome`.

use vstd::prelude::*;

use crate::index::HitV;
use crate::index::QueryHit;
use crate::index::hits_view;

verus! {

/// Why the agent could not answer.
pub enum AgentError {
    /// The retrieval step failed.  The index of this library cannot fail,
    /// so this arises only with a fallible external store.
    RetrievalFailure,
    /// The completion provider call failed; the payload is the provider's
    /// error text.
    CompletionFailure(String),
}

pub open spec fn agent_error_text(e: AgentError) -> Seq<char> {
    match e {
        AgentError::RetrievalFailure => "retrieval failure"@,
        AgentError::CompletionFailure(m) => "completion failure: "@ + m@,
    }
}

impl AgentError {
    /// A printable description of the error.
    pub fn message(&self) -> (r: String)
        ensures
            r@ == agent_error_text(*self),
    {
        match self {
            AgentError::RetrievalFailure => {
                let mut s = String::new();
                s.append("retrieval failure");
                s
            },
            AgentError::CompletionFailure(m) => {
                let mut s = String::new();
                s.append("completion failure: ");
                s.append(m.as_str());
                s
            },
        }
    }
}

/// One retrieved document as it appears in the prompt.
pub open spec fn entry_of(h: HitV) -> Seq<char> {
    h.id + ":\n"@ + h.text + "\n"@
}

/// The retrieved documents serialized in order.
pub open spec fn ctx_of(hs: Seq<HitV>) -> Seq<char>
    decreases hs.len(),
{
    if hs.len() == 0 {
        Seq::empty()
    } else {
        ctx_of(hs.drop_last()) + entry_of(hs.last())
    }
}

/// The whole prompt: preamble, retrieved context, the question verbatim.
pub open spec fn spec_prompt(preamble: Seq<char>, hs: Seq<HitV>, query: Seq<char>) -> Seq<char> {
    preamble + "\n\n"@ + ctx_of(hs) + "\nQuestion: "@ + query
}

/// The agent: a fixed preamble and the number of context documents it
/// retrieves per query.
pub struct RetrievalAugmentedAgent {
    pub preamble: String,
    pub k: usize,
}

impl RetrievalAugmentedAgent {
    /// An agent with the given preamble, retrieving `k` context documents
    /// per query.
    pub fn new(preamble: String, k: usize) -> (r: RetrievalAugmentedAgent)
        ensures
            r.preamble == preamble,
            r.k == k,
    {
        RetrievalAugmentedAgent { preamble, k }
    }

    /// The prompt for `query` given the retrieved `hits`.
    pub fn build_prompt(&self, hits: &Vec<QueryHit>, query: &str) -> (r: String)
        ensures
            r@ == spec_prompt(self.preamble@, hits_view(hits@), query@),
    {
        let ghost hv = hits_view(hits@);
        let mut s = String::new();
        s.append(self.preamble.as_str());
        s.append("\n\n");
        let n = hits.len();
        let mut i: usize = 0;
        proof {
            assert(hv.take(0) =~= Seq::<HitV>::empty());
            assert(s@ =~= self.preamble@ + "\n\n"@ + ctx_of(hv.take(0)));
        }
        while i < n
            invariant
                n == hits@.len(),
                n == hv.len(),
                hv == hits_view(hits@),
                0 <= i <= n,
                s@ == self.preamble@ + "\n\n"@ + ctx_of(hv.take(i as int)),
            decreases n - i,
        {
            let h = &hits[i];
            proof {
                assert(h@ == hv[i as int]);
            }
            s.append(h.id.as_str());
            s.append(":\n");
            s.append(h.text.as_str());
            s.append("\n");
            proof {
                assert(hv.take(i + 1).drop_last() =~= hv.take(i as int));
                assert(hv.take(i + 1).last() == hv[i as int]);
                assert(s@ =~= self.preamble@ + "\n\n"@ + ctx_of(hv.take(i + 1)));
            }
            i = i + 1;
        }
        proof {
            assert(hv.take(n as int) =~= hv);
        }
        s.append("\nQuestion: ");
        s.append(query);
        proof {
            assert(s@ =~= spec_prompt(self.preamble@, hv, query@));
        }
        s
    }
}

/// What the agent returns for each outcome of the completion provider
/// call.
pub open spec fn spec_completion_outcome(res: Result<String, String>) -> Result<
    String,
    AgentError,
> {
    match res {
        Ok(reply) => Ok(reply),
        Err(m) => Err(AgentError::CompletionFailure(m)),
    }
}

/// Turns the completion provider's outcome into the agent's answer: the
/// reply verbatim, or a completion failure carrying the provider's error
/// text — propagated unmodified, never replaced by a local fallback.
pub fn completion_outcome(res: Result<String, String>) -> (r: Result<String, AgentError>)
    ensures
        r == spec_completion_outcome(res),
{
    match res {
        Ok(reply) => Ok(reply),
        Err(m) => Err(AgentError::CompletionFailure(m)),
    }
}

} // verus!
