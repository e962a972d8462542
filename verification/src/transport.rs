//! Delivery of messages to agents on other machines over HTTP.

use vstd::prelude::*;
use crate::text::{chars_of, concat, concat3, string_from_chars, sub_chars};
use crate::types::{priority_label, MessagePriority};

verus! {

#[verifier::external_type_specification]
#[verifier::external_body]
pub struct ExHttpClient(reqwest::Client);

/// `reqwest::Client::new`: a client with the default configuration.
/// Nothing is stated of the client. Built without the crate's default
/// features (so with no TLS backend), the default configuration builds
/// without a failing path.
#[verifier::external_body]
fn new_http_client() -> reqwest::Client {
    reqwest::Client::new()
}

/// `s` without its trailing slashes (what `trim_end_matches('/')` does).
pub open spec fn trim_trailing_slashes(s: Seq<char>) -> Seq<char>
    decreases s.len(),
{
    if s.len() > 0 && s.last() == '/' {
        trim_trailing_slashes(s.drop_last())
    } else {
        s
    }
}

/// Delivers messages by posting to `{endpoint}/api/agents/{agent_id}/message`
/// on a remote server.
pub struct RemoteTransport {
    endpoint: String,
    client: reqwest::Client,
}

impl RemoteTransport {
    /// The endpoint messages are posted under.
    pub closed spec fn endpoint_spec(&self) -> Seq<char> {
        self.endpoint@
    }

    /// The HTTP client the transport holds, made once by `new`.
    pub closed spec fn client_spec(&self) -> reqwest::Client {
        self.client
    }

    /// A transport for `endpoint`, with trailing slashes removed.
    pub fn new(endpoint: String) -> (t: Self)
        ensures
            t.endpoint_spec() == trim_trailing_slashes(endpoint@),
    {
        let s = chars_of(endpoint.as_str());
        let mut n = s.len();
        assert(s@.take(s@.len() as int) =~= s@);
        while n > 0 && s[n - 1] == '/'
            invariant
                n <= s@.len(),
                s@ == endpoint@,
                trim_trailing_slashes(endpoint@) == trim_trailing_slashes(s@.take(n as int)),
            decreases n,
        {
            proof {
                assert(s@.take(n as int).drop_last() =~= s@.take(n - 1));
            }
            n = n - 1;
        }
        let kept = sub_chars(&s, 0, n);
        assert(kept@ =~= s@.take(n as int));
        RemoteTransport { endpoint: string_from_chars(kept.as_slice()), client: new_http_client() }
    }

    /// The endpoint.
    pub fn endpoint(&self) -> (e: &String)
        ensures
            e@ == self.endpoint_spec(),
    {
        &self.endpoint
    }

    /// The HTTP client the transport holds (the same one on every call).
    pub fn client(&self) -> (c: &reqwest::Client)
        ensures
            *c == self.client_spec(),
    {
        &self.client
    }

    /// Where a message for `agent_id` is posted.
    pub fn message_url(&self, agent_id: &str) -> (u: String)
        ensures
            u@ == self.endpoint_spec() + "/api/agents/"@ + agent_id@ + "/message"@,
    {
        let a = concat3(self.endpoint.as_str(), "/api/agents/", agent_id);
        concat(a.as_str(), "/message")
    }

    /// The priority field of the posted body.
    pub fn priority_field(&self, p: MessagePriority) -> (r: &'static str)
        ensures
            p == MessagePriority::Steer ==> r@ == "steer"@,
            p == MessagePriority::Collect ==> r@ == "collect"@,
    {
        priority_label(p)
    }
}

} // verus!

verus! {

/// The endpoint of a transport never ends in a slash, so the message URL
/// holds exactly one slash before `api`.
pub proof fn lemma_no_trailing_slash(s: Seq<char>)
    ensures
        trim_trailing_slashes(s).len() == 0 || trim_trailing_slashes(s).last() != '/',
        trim_trailing_slashes(s).len() <= s.len(),
        trim_trailing_slashes(s) == s.take(trim_trailing_slashes(s).len() as int),
    decreases s.len(),
{
    if s.len() > 0 && s.last() == '/' {
        lemma_no_trailing_slash(s.drop_last());
        let t = trim_trailing_slashes(s.drop_last());
        assert(s.drop_last().take(t.len() as int) =~= s.take(t.len() as int));
    } else {
        assert(s.take(s.len() as int) =~= s);
    }
}

} // verus!
