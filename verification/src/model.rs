//! Plain records of one exchange: what the response was and what the
//! machine-readable summaries report of it.

use vstd::prelude::*;

use crate::cli::Cli;

verus! {

/// A remark attached to a measurement.
#[derive(Debug, Clone)]
pub struct Diagnostic {
    pub level: &'static str,
    pub code: &'static str,
    pub message: String,
}

impl View for Diagnostic {
    type V = (Seq<char>, Seq<char>, Seq<char>);

    open spec fn view(&self) -> (Seq<char>, Seq<char>, Seq<char>) {
        (self.level@, self.code@, self.message@)
    }
}

/// The request part of the structured report.
#[derive(Debug)]
pub struct RequestSummary<'a> {
    pub method: &'a str,
    pub url: &'a str,
    pub proxy: Option<&'a str>,
}

/// The response part of the structured report.
#[derive(Debug)]
pub struct ResponseSummary {
    pub status_code: u32,
    pub http_version: String,
    pub remote_ip: Option<String>,
    pub local_ip: Option<String>,
    pub downloaded_bytes: u64,
    pub uploaded_bytes: u64,
}

/// What a finished transfer reported, apart from its timings.
#[derive(Debug)]
pub struct Exchange {
    pub status_code: u32,
    pub status_line: String,
    pub http_version: String,
    pub response_headers: Vec<String>,
    pub remote_ip: Option<String>,
    pub remote_port: u16,
    pub local_ip: Option<String>,
    pub local_port: u16,
    pub downloaded_bytes: u64,
    pub uploaded_bytes: u64,
    pub diagnostics: Vec<Diagnostic>,
}

/// An optional text as characters.
pub open spec fn text_option_view(o: Option<String>) -> Option<Seq<char>> {
    match o {
        Some(s) => Some(s@),
        None => None,
    }
}

/// An optional text slice as characters.
pub open spec fn str_option_view(o: Option<&str>) -> Option<Seq<char>> {
    match o {
        Some(s) => Some(s@),
        None => None,
    }
}

fn copy_text_option(o: &Option<String>) -> (r: Option<String>)
    ensures
        text_option_view(r) == text_option_view(*o),
{
    match o {
        Some(s) => Some(s.clone()),
        None => None,
    }
}

/// The request as the structured report states it.
pub fn request_summary(cli: &Cli) -> (r: RequestSummary<'_>)
    ensures
        r.method@ == cli.method@,
        r.url@ == cli.url@,
        str_option_view(r.proxy) == text_option_view(cli.proxy),
{
    RequestSummary {
        method: cli.method.as_str(),
        url: cli.url.as_str(),
        proxy: match &cli.proxy {
            Some(p) => Some(p.as_str()),
            None => None,
        },
    }
}

/// The response as the structured report states it.
pub fn response_summary(exchange: &Exchange) -> (r: ResponseSummary)
    ensures
        r.status_code == exchange.status_code,
        r.http_version@ == exchange.http_version@,
        text_option_view(r.remote_ip) == text_option_view(exchange.remote_ip),
        text_option_view(r.local_ip) == text_option_view(exchange.local_ip),
        r.downloaded_bytes == exchange.downloaded_bytes,
        r.uploaded_bytes == exchange.uploaded_bytes,
{
    ResponseSummary {
        status_code: exchange.status_code,
        http_version: exchange.http_version.clone(),
        remote_ip: copy_text_option(&exchange.remote_ip),
        local_ip: copy_text_option(&exchange.local_ip),
        downloaded_bytes: exchange.downloaded_bytes,
        uploaded_bytes: exchange.uploaded_bytes,
    }
}

}
