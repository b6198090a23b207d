//! What can go wrong on either side, and the words for it.

use vstd::prelude::*;
use crate::text::{decimal, show_u64};

verus! {

/// A failure on the side of the Clarify API.
#[derive(Debug)]
pub enum ClientError {
    Auth { status: u16, hint: String },
    Http { status: u16, url: String, attempts: u32 },
    RetriesExhausted { url: String },
    Transport(String),
    Shape { url: String, detail: String },
}

/// What is said of a failure on the side of the Clarify API.
pub open spec fn client_error_text(e: ClientError) -> Seq<char> {
    match e {
        ClientError::Auth { status, hint } => "authentication rejected (HTTP "@ + decimal(
            status as nat,
        ) + "): "@ + hint@,
        ClientError::Http { status, url, attempts } => "HTTP "@ + decimal(status as nat)
            + " from "@ + url@ + " after "@ + decimal(attempts as nat) + " attempts"@,
        ClientError::RetriesExhausted { url } => "retry budget exhausted for "@ + url@,
        ClientError::Transport(detail) => "transport error: "@ + detail@,
        ClientError::Shape { url, detail } => "unexpected response shape from "@ + url@ + ": "@
            + detail@,
    }
}

impl ClientError {
    /// What is said of this failure.
    pub fn message(&self) -> (r: String)
        ensures
            r@ == client_error_text(*self),
    {
        match self {
            ClientError::Auth { status, hint } => {
                let mut s = "authentication rejected (HTTP ".to_owned();
                s.append(&show_u64(*status as u64));
                s.append("): ");
                s.append(hint);
                s
            },
            ClientError::Http { status, url, attempts } => {
                let mut s = "HTTP ".to_owned();
                s.append(&show_u64(*status as u64));
                s.append(" from ");
                s.append(url);
                s.append(" after ");
                s.append(&show_u64(*attempts as u64));
                s.append(" attempts");
                s
            },
            ClientError::RetriesExhausted { url } => {
                let mut s = "retry budget exhausted for ".to_owned();
                s.append(url);
                s
            },
            ClientError::Transport(detail) => {
                let mut s = "transport error: ".to_owned();
                s.append(detail);
                s
            },
            ClientError::Shape { url, detail } => {
                let mut s = "unexpected response shape from ".to_owned();
                s.append(url);
                s.append(": ");
                s.append(detail);
                s
            },
        }
    }
}

/// A failure on the side of Google Cloud.
#[derive(Debug)]
pub enum SinkError {
    Auth(String),
    Http { status: u16, url: String, body: String },
    Transport(String),
    Config(String),
    JobFailed { job_id: String, reason: String },
}

/// What is said of a failure on the side of Google Cloud.
pub open spec fn sink_error_text(e: SinkError) -> Seq<char> {
    match e {
        SinkError::Auth(detail) => "GCP auth: "@ + detail@,
        SinkError::Http { status, url, body } => "HTTP "@ + decimal(status as nat) + " from "@
            + url@ + ": "@ + body@,
        SinkError::Transport(detail) => "transport: "@ + detail@,
        SinkError::Config(detail) => "config: "@ + detail@,
        SinkError::JobFailed { job_id, reason } => "BigQuery job "@ + job_id@ + " failed: "@
            + reason@,
    }
}

impl SinkError {
    /// What is said of this failure.
    pub fn message(&self) -> (r: String)
        ensures
            r@ == sink_error_text(*self),
    {
        match self {
            SinkError::Auth(detail) => {
                let mut s = "GCP auth: ".to_owned();
                s.append(detail);
                s
            },
            SinkError::Http { status, url, body } => {
                let mut s = "HTTP ".to_owned();
                s.append(&show_u64(*status as u64));
                s.append(" from ");
                s.append(url);
                s.append(": ");
                s.append(body);
                s
            },
            SinkError::Transport(detail) => {
                let mut s = "transport: ".to_owned();
                s.append(detail);
                s
            },
            SinkError::Config(detail) => {
                let mut s = "config: ".to_owned();
                s.append(detail);
                s
            },
            SinkError::JobFailed { job_id, reason } => {
                let mut s = "BigQuery job ".to_owned();
                s.append(job_id);
                s.append(" failed: ");
                s.append(reason);
                s
            },
        }
    }
}

/// Whether a status reports success.
pub open spec fn success(status: u16) -> bool {
    200 <= status < 300
}

/// The statuses from 200 to 299 report success, and no others do.
pub proof fn law_which_statuses_report_success(status: u16)
    ensures
        success(status) <==> status / 100 == 2,
{
}

/// What is said of a failure names what it is about: the status and the address, and what came back
/// or how often it was tried.
pub proof fn law_failures_say_what_happened(
    status: u16,
    url: String,
    attempts: u32,
    body: String,
    hint: String,
)
    ensures
        client_error_text(ClientError::Http { status, url, attempts }) == "HTTP "@ + decimal(
            status as nat,
        ) + " from "@ + url@ + " after "@ + decimal(attempts as nat) + " attempts"@,
        client_error_text(ClientError::Auth { status, hint }) == "authentication rejected (HTTP "@
            + decimal(status as nat) + "): "@ + hint@,
        sink_error_text(SinkError::Http { status, url, body }) == "HTTP "@ + decimal(status as nat)
            + " from "@ + url@ + ": "@ + body@,
        sink_error_text(SinkError::JobFailed { job_id: url, reason: body }) == "BigQuery job "@
            + url@ + " failed: "@ + body@,
{
}

} // verus!
