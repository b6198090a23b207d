//! How the Clarify API is addressed, and when a request is tried again.

use vstd::prelude::*;
use crate::error::{success, ClientError};
use crate::text::{
    has_prefix, parse_u64, parsed_u64, starts_with, strip_prefix, trim_end, trimmed_end,
};

verus! {

/// How often a request is sent at most.
pub const MAX_ATTEMPTS: u32 = 5;

/// The workspace of the Clarify API that requests go to.
pub struct ClarifyClient {
    pub base: String,
    pub api_key: String,
    pub workspace: String,
}

/// What a rejected key is answered with.
pub open spec fn auth_hint() -> Seq<char> {
    "check the API key secret and its workspace permissions"@
}

/// The address that a path or link stands for. Links come back absolute; one that names the
/// unencrypted scheme is upgraded where the base itself is encrypted. Everything else is relative
/// to the workspace.
pub open spec fn full_url(base: Seq<char>, workspace: Seq<char>, path: Seq<char>) -> Seq<char> {
    if has_prefix(path, "http://"@) {
        if has_prefix(base, "https://"@) {
            "https://"@ + path.skip("http://"@.len() as int)
        } else {
            path
        }
    } else if has_prefix(path, "https://"@) {
        path
    } else {
        base + "/workspaces/"@ + workspace + path
    }
}

impl ClarifyClient {
    /// A client for one workspace; slashes at the end of the base address do not count.
    pub fn new(base_url: String, api_key: String, workspace: String) -> (r: Self)
        ensures
            r.base@ == trimmed_end(base_url@, '/'),
            r.api_key@ == api_key@,
            r.workspace@ == workspace@,
    {
        Self { base: trim_end(&base_url, '/'), api_key, workspace }
    }

    /// The address that a path or link stands for.
    pub fn url(&self, path_and_query: &str) -> (r: String)
        ensures
            r@ == full_url(self.base@, self.workspace@, path_and_query@),
    {
        match strip_prefix(path_and_query, "http://") {
            Some(rest) => {
                if starts_with(&self.base, "https://") {
                    let mut s = "https://".to_owned();
                    s.append(&rest);
                    s
                } else {
                    path_and_query.to_owned()
                }
            },
            None => {
                if starts_with(path_and_query, "https://") {
                    path_and_query.to_owned()
                } else {
                    let mut s = self.base.clone();
                    s.append("/workspaces/");
                    s.append(&self.workspace);
                    s.append(path_and_query);
                    s
                }
            },
        }
    }

    /// The value of the header by which a request says who asks. Clarify's edge rejects requests
    /// without one.
    pub fn user_agent(&self) -> (r: &'static str)
        ensures
            r@ == "clarify-bq/0.1"@,
    {
        "clarify-bq/0.1"
    }

    /// The value of the header that a request is authorized by.
    pub fn authorization(&self) -> (r: String)
        ensures
            r@ == "api-key "@ + self.api_key@,
    {
        let mut s = "api-key ".to_owned();
        s.append(&self.api_key);
        s
    }

    /// A request for what stands at a path or link, not yet sent.
    pub fn get_json(&self, path_and_query: &str) -> (r: GetRequest)
        ensures
            r.url@ == full_url(self.base@, self.workspace@, path_and_query@),
            r.attempts == 0,
    {
        GetRequest { url: self.url(path_and_query), attempts: 0 }
    }
}

/// No request leaves an encrypted base for an unencrypted address.
pub proof fn law_encrypted_base_stays_encrypted(
    base: Seq<char>,
    workspace: Seq<char>,
    path: Seq<char>,
)
    requires
        has_prefix(base, "https://"@),
    ensures
        has_prefix(full_url(base, workspace, path), "https://"@),
{
    let u = full_url(base, workspace, path);
    let p = "https://"@;
    if has_prefix(path, "http://"@) {
        assert(u.take(p.len() as int) =~= p);
    } else if !has_prefix(path, p) {
        assert(u.take(p.len() as int) =~= base.take(p.len() as int));
    }
}

/// One request and how often it has been sent.
#[derive(Debug)]
pub struct GetRequest {
    pub url: String,
    pub attempts: u32,
}

/// What a response leads to.
#[derive(Debug)]
pub enum GetStep {
    /// The body is the answer.
    Accept,
    /// There will be no answer.
    Fail(ClientError),
    /// The request is sent again after a pause.
    Retry { delay_seconds: u64 },
}

/// How long to wait before the next attempt: as long as the server asks for, or else a time that
/// doubles with each attempt, up to half a minute and two seconds.
pub open spec fn retry_delay(retry_after: Option<Seq<char>>, attempts: u32) -> u64 {
    match retry_after {
        Some(s) => match parsed_u64(s) {
            Some(n) => n,
            None => backoff(attempts),
        },
        None => backoff(attempts),
    }
}

/// The pause after a number of attempts where the server asks for none.
pub open spec fn backoff(attempts: u32) -> u64 {
    if attempts <= 1 {
        1
    } else if attempts == 2 {
        2
    } else if attempts == 3 {
        4
    } else if attempts == 4 {
        8
    } else if attempts == 5 {
        16
    } else {
        32
    }
}

/// Whether a status is worth another attempt.
pub open spec fn retryable(status: u16) -> bool {
    status == 429 || 500 <= status < 600
}

/// Whether a status says that the key was rejected.
pub open spec fn auth_rejected(status: u16) -> bool {
    status == 401 || status == 403
}

/// Whether a response leads to another attempt.
pub open spec fn tried_again(status: u16, attempts: int) -> bool {
    retryable(status) && attempts < MAX_ATTEMPTS
}

/// A request is sent five times at most, whatever the server answers: of a run of responses that
/// each led to another attempt there are fewer.
pub proof fn law_attempts_are_bounded(statuses: Seq<u16>)
    requires
        forall|k: int| 0 <= k < statuses.len() ==> tried_again(#[trigger] statuses[k], k + 1),
    ensures
        statuses.len() < MAX_ATTEMPTS,
{
    if statuses.len() >= MAX_ATTEMPTS {
        assert(tried_again(statuses[MAX_ATTEMPTS - 1], MAX_ATTEMPTS as int));
    }
}

/// A rejected key ends a request at once.
pub proof fn law_rejected_key_is_final(status: u16, attempts: int)
    requires
        auth_rejected(status),
    ensures
        !tried_again(status, attempts),
        !success(status),
{
}

/// Where the server asks for no pause, each pause is twice as long as the one before.
pub proof fn law_pauses_double(attempts: u32)
    requires
        1 <= attempts < MAX_ATTEMPTS,
    ensures
        backoff((attempts + 1) as u32) == 2 * backoff(attempts),
{
}

/// The text that an optional header value holds.
pub open spec fn header_text(h: Option<&str>) -> Option<Seq<char>> {
    match h {
        Some(s) => Some(s@),
        None => None,
    }
}

impl GetRequest {
    /// Counts one more attempt.
    pub fn send(&mut self)
        requires
            old(self).attempts < MAX_ATTEMPTS,
        ensures
            final(self).attempts == old(self).attempts + 1,
            final(self).url == old(self).url,
    {
        self.attempts = self.attempts + 1;
    }

    /// Decides what a response leads to.
    pub fn respond(&self, status: u16, retry_after: Option<&str>) -> (r: GetStep)
        requires
            1 <= self.attempts <= MAX_ATTEMPTS,
        ensures
            r is Accept <==> success(status),
            r is Retry <==> tried_again(status, self.attempts as int),
            match r {
                GetStep::Accept => true,
                GetStep::Retry { delay_seconds } => delay_seconds == retry_delay(
                    header_text(retry_after),
                    self.attempts,
                ),
                GetStep::Fail(ClientError::Auth { status: s, hint }) => auth_rejected(status) && s
                    == status && hint@ == auth_hint(),
                GetStep::Fail(ClientError::Http { status: s, url, attempts }) => !auth_rejected(
                    status,
                ) && s == status && url@ == self.url@ && attempts == self.attempts,
                GetStep::Fail(_) => false,
            },
    {
        if status >= 200 && status < 300 {
            return GetStep::Accept;
        }
        if status == 401 || status == 403 {
            return GetStep::Fail(
                ClientError::Auth {
                    status,
                    hint: "check the API key secret and its workspace permissions".to_owned(),
                },
            );
        }
        let again = status == 429 || (status >= 500 && status < 600);
        if !again || self.attempts >= MAX_ATTEMPTS {
            return GetStep::Fail(
                ClientError::Http { status, url: self.url.clone(), attempts: self.attempts },
            );
        }
        let asked = match retry_after {
            Some(s) => parse_u64(s),
            None => None,
        };
        let delay_seconds: u64 = match asked {
            Some(n) => n,
            None => pause(self.attempts),
        };
        GetStep::Retry { delay_seconds }
    }
}

fn pause(attempts: u32) -> (r: u64)
    requires
        attempts >= 1,
    ensures
        r == backoff(attempts),
{
    let n: u32 = attempts - 1;
    let shift: u32 = if n < 5 {
        n
    } else {
        5
    };
    proof {
        assert(1u64 << 0u32 == 1) by (bit_vector);
        assert(1u64 << 1u32 == 2) by (bit_vector);
        assert(1u64 << 2u32 == 4) by (bit_vector);
        assert(1u64 << 3u32 == 8) by (bit_vector);
        assert(1u64 << 4u32 == 16) by (bit_vector);
        assert(1u64 << 5u32 == 32) by (bit_vector);
    }
    1u64 << shift
}

// ---- where requests go, and when they are sent again ----

/// A path that is no link stands for an address below the workspace, whatever the base.
pub proof fn law_paths_belong_to_the_workspace(
    base: Seq<char>,
    workspace: Seq<char>,
    path: Seq<char>,
)
    requires
        forall|place: Seq<char>| path != #[trigger] ("http://"@ + place),
        forall|place: Seq<char>| path != #[trigger] ("https://"@ + place),
    ensures
        full_url(base, workspace, path) == base + "/workspaces/"@ + workspace + path,
{
    if has_prefix(path, "http://"@) {
        assert(path =~= "http://"@ + path.skip("http://"@.len() as int));
    }
    if has_prefix(path, "https://"@) {
        assert(path =~= "https://"@ + path.skip("https://"@.len() as int));
    }
}

/// A link is followed to where it leads: an encrypted one as it is, and an unencrypted one under an
/// encrypted base at the same place by the encrypted scheme, under any other base as it is.
pub proof fn law_links_are_followed(
    base: Seq<char>,
    workspace: Seq<char>,
    place: Seq<char>,
    host: Seq<char>,
)
    ensures
        full_url(base, workspace, "https://"@ + place) == "https://"@ + place,
        base == "https://"@ + host ==> full_url(base, workspace, "http://"@ + place) == "https://"@
            + place,
        (forall|h: Seq<char>| base != #[trigger] ("https://"@ + h)) ==> full_url(
            base,
            workspace,
            "http://"@ + place,
        ) == "http://"@ + place,
{
    reveal_strlit("http://");
    reveal_strlit("https://");
    let plain = "http://"@;
    let secure = "https://"@;
    let (a, b) = (secure + place, plain + place);
    assert(plain[4] == ':' && secure[4] == 's' && plain.len() == 7 && secure.len() == 8);
    assert(a.take(8) =~= secure);
    assert(b.take(7) =~= plain);
    assert(b.skip(7) =~= place);
    if has_prefix(a, plain) {
        assert(a.take(7)[4] == a[4]);
    }
    if base == secure + host {
        assert(base.take(8) =~= secure);
    }
    if has_prefix(base, secure) {
        assert(base =~= secure + base.skip(8));
    }
}

/// A request is sent again exactly where the server is overloaded or fails, and where it has been
/// sent fewer than five times.
pub proof fn law_what_is_sent_again(status: u16, attempts: int)
    ensures
        tried_again(status, attempts) <==> (status == 429 || status / 100 == 5) && attempts < 5,
        auth_rejected(status) <==> status == 401 || status == 403,
{
}

/// A pause is as long as the server asks for, whatever number of seconds that is; where it asks for
/// none, or for none that can be read, it is one second after the first attempt.
pub proof fn law_pauses_are_those_that_are_asked_for(seconds: u64, attempts: u32, other: Seq<char>)
    ensures
        retry_delay(Some(crate::text::decimal(seconds as nat)), attempts) == seconds,
        retry_delay(None, attempts) == backoff(attempts),
        parsed_u64(other) is None ==> retry_delay(Some(other), attempts) == backoff(attempts),
        backoff(1) == 1,
        attempts >= 6 ==> backoff(attempts) == 32,
{
    crate::text::law_decimal_reads_back(seconds);
}

} // verus!
