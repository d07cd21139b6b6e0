//! Client settings and request routes of the server API. Sending requests
//! is done by the application with the HTTP client kept here.
use crate::text::append_str;
use vstd::prelude::*;

verus! {

#[verifier::external_type_specification]
#[verifier::external_body]
pub struct ExHttpClient(reqwest::Client);

#[verifier::external_type_specification]
#[verifier::external_body]
pub struct ExHttpError(reqwest::Error);

/// Builds an HTTP client whose requests time out after `timeout_secs`
/// seconds (`reqwest::ClientBuilder::timeout` then `build`). Building can
/// fail when the resolver or the proxy settings of the system cannot be
/// loaded, so nothing is promised of the outcome.
#[verifier::external_body]
fn build_http_client(timeout_secs: u64) -> (r: Result<reqwest::Client, reqwest::Error>) {
    reqwest::Client::builder().timeout(std::time::Duration::from_secs(timeout_secs)).build()
}

/// Whether an HTTP status code reports success (the 2xx class).
pub open spec fn is_success_code(code: u16) -> bool {
    200 <= code <= 299
}

/// What a reply to a poll for pending tasks means.
#[derive(Debug, Clone, Copy, PartialEq, Eq, Structural)]
pub enum PollReply {
    /// The tasks endpoint does not exist (404): there is no task.
    NotFound,
    /// The body lists the pending tasks.
    Listed,
    /// The server refused the request.
    Failed,
}

/// Whether an HTTP status code reports success.
pub fn is_success_status(code: u16) -> (b: bool)
    ensures
        b == is_success_code(code),
{
    200 <= code && code <= 299
}

/// How a poll reply with status `code` is handled: 404 means no task, a
/// success means the body lists the tasks, anything else is an error.
pub fn poll_reply(code: u16) -> (r: PollReply)
    ensures
        r == if code == 404 {
            PollReply::NotFound
        } else if is_success_code(code) {
            PollReply::Listed
        } else {
            PollReply::Failed
        },
{
    if code == 404 {
        PollReply::NotFound
    } else if is_success_status(code) {
        PollReply::Listed
    } else {
        PollReply::Failed
    }
}

/// Seconds after which a request to the server times out.
pub fn request_timeout_secs() -> (r: u64)
    ensures
        r == 30,
{
    30
}

/// HTTP client and identity for talking to the server.
pub struct ApiClient {
    client: reqwest::Client,
    timeout_secs: u64,
    base_url: String,
    api_key: Option<String>,
    device_id: String,
}

impl ApiClient {
    /// The server's base URL.
    pub closed spec fn base(&self) -> Seq<char> {
        self.base_url@
    }

    /// This device's identifier.
    pub closed spec fn device(&self) -> Seq<char> {
        self.device_id@
    }

    /// The request timeout, in seconds, the HTTP client was built with.
    pub closed spec fn timeout(&self) -> u64 {
        self.timeout_secs
    }

    /// The API key, if any.
    pub closed spec fn key(&self) -> Option<Seq<char>> {
        match self.api_key {
            Some(k) => Some(k@),
            None => None,
        }
    }

    /// A client for `base_url`, identified by `device_id`, with an optional
    /// API key; its HTTP client times out requests after
    /// `request_timeout_secs()` seconds. Fails only when the HTTP client
    /// cannot be built.
    pub fn new(base_url: String, device_id: String, api_key: Option<String>) -> (r: Result<
        Self,
        String,
    >)
        ensures
            match r {
                Ok(c) => c.base() == base_url@ && c.device() == device_id@ && c.key() == match api_key {
                    Some(k) => Some(k@),
                    None => None::<Seq<char>>,
                } && c.timeout() == 30,
                Err(m) => m@ == "Failed to create HTTP client"@,
            },
    {
        let timeout_secs = request_timeout_secs();
        match build_http_client(timeout_secs) {
            Ok(client) => Ok(ApiClient { client, timeout_secs, base_url, api_key, device_id }),
            Err(_) => {
                let mut m = String::new();
                append_str(&mut m, "Failed to create HTTP client");
                Err(m)
            },
        }
    }

    pub fn base_url(&self) -> (s: &str)
        ensures
            s@ == self.base(),
    {
        self.base_url.as_str()
    }

    pub fn device_id(&self) -> (s: &str)
        ensures
            s@ == self.device(),
    {
        self.device_id.as_str()
    }

    pub fn api_key(&self) -> (s: Option<&str>)
        ensures
            match s {
                Some(k) => self.key() == Some(k@),
                None => self.key() is None,
            },
    {
        match &self.api_key {
            Some(k) => Some(k.as_str()),
            None => None,
        }
    }

    /// The HTTP client this client holds.
    pub closed spec fn http_client(&self) -> reqwest::Client {
        self.client
    }

    /// The HTTP client requests are sent with: the one built by `new`, the
    /// same on every call.
    pub fn http(&self) -> (c: &reqwest::Client)
        ensures
            *c == self.http_client(),
    {
        &self.client
    }

    /// Value of the `Authorization` header: the API key as a bearer token.
    pub fn authorization(&self) -> (v: Option<String>)
        ensures
            match v {
                Some(h) => self.key() is Some && h@ == "Bearer "@ + self.key()->0,
                None => self.key() is None,
            },
    {
        match &self.api_key {
            Some(k) => {
                let mut h = String::new();
                append_str(&mut h, "Bearer ");
                append_str(&mut h, k.as_str());
                Some(h)
            },
            None => None,
        }
    }

    /// URL that lists pending tasks.
    pub fn pending_tasks_url(&self) -> (u: String)
        ensures
            u@ == self.base() + "/api/v1/tasks?status=pending"@,
    {
        let mut u = String::new();
        append_str(&mut u, self.base_url.as_str());
        append_str(&mut u, "/api/v1/tasks?status=pending");
        u
    }

    /// URL that assigns a task to this device.
    pub fn assign_url(&self, task_id: &str) -> (u: String)
        ensures
            u@ == self.base() + "/api/v1/tasks/"@ + task_id@ + "/assign"@,
    {
        let mut u = String::new();
        append_str(&mut u, self.base_url.as_str());
        append_str(&mut u, "/api/v1/tasks/");
        append_str(&mut u, task_id);
        append_str(&mut u, "/assign");
        u
    }

    /// URL that receives this device's heartbeats.
    pub fn heartbeat_url(&self) -> (u: String)
        ensures
            u@ == self.base() + "/api/v1/devices/"@ + self.device() + "/heartbeat"@,
    {
        let mut u = String::new();
        append_str(&mut u, self.base_url.as_str());
        append_str(&mut u, "/api/v1/devices/");
        append_str(&mut u, self.device_id.as_str());
        append_str(&mut u, "/heartbeat");
        u
    }

    /// URL that receives a task's result.
    pub fn result_url(&self, task_id: &str) -> (u: String)
        ensures
            u@ == self.base() + "/api/v1/tasks/"@ + task_id@ + "/result"@,
    {
        let mut u = String::new();
        append_str(&mut u, self.base_url.as_str());
        append_str(&mut u, "/api/v1/tasks/");
        append_str(&mut u, task_id);
        append_str(&mut u, "/result");
        u
    }
}

} // verus!
