//! Error kinds of the request pipeline, their HTTP statuses, and the
//! messages shown to users.
use crate::text::{chars_of, decimal, decimal_of, push_all, string_of};
use vstd::prelude::*;

verus! {

#[derive(Clone, Copy, Debug, PartialEq, Eq, Structural)]
pub enum ErrorMode {
    Development,
    Production,
    Maintenance,
}

#[derive(Clone, Debug)]
pub struct NotificationConfig {
    pub email: Option<String>,
    pub webhook: Option<String>,
    /// Errors of one code before a notification goes out.
    pub threshold: u32,
    /// Seconds between notifications.
    pub interval: u64,
}

#[derive(Clone, Debug)]
pub struct ErrorTrackingConfig {
    pub sentry_dsn: Option<String>,
    pub datadog_api_key: Option<String>,
    pub custom_endpoint: Option<String>,
}

#[derive(Clone, Debug)]
pub struct ErrorConfig {
    pub mode: ErrorMode,
    pub custom_pages: Vec<(u16, String)>,
    pub templates_dir: Option<String>,
    pub show_details: bool,
    pub log_errors: bool,
    pub notify_errors: Option<NotificationConfig>,
    pub rate_limit_errors: bool,
    pub error_tracking: Option<ErrorTrackingConfig>,
}

#[derive(Clone, Debug)]
pub struct ErrorDetails {
    pub code: String,
    pub message: String,
    pub details: Option<String>,
}

#[derive(Clone, Debug)]
pub struct DebugInfo {
    pub stack_trace: Option<Vec<String>>,
    pub context: Vec<(String, String)>,
    pub source: Option<String>,
}

#[derive(Clone, Debug)]
pub struct ErrorResponse {
    pub error: ErrorDetails,
    pub request_id: String,
    pub timestamp: String,
    pub debug: Option<DebugInfo>,
}

/// What went wrong while serving a request.
#[derive(Clone, Copy, Debug, PartialEq, Eq, Structural)]
pub enum ErrorKind {
    ConfigInvalid,
    NoVHost,
    AccessDenied,
    /// Missing or wrong credentials; `proxy` on the forward-proxy path.
    NotAuthorized { proxy: bool },
    RateLimited { retry_after_secs: u64 },
    RequestTooLarge,
    HeadersTooLarge,
    BreakerOpen,
    UpstreamUnavailable,
    UpstreamTimeout,
    NotFound,
    Internal,
}

pub open spec fn kind_status(k: ErrorKind) -> u16 {
    match k {
        ErrorKind::ConfigInvalid => 500,
        ErrorKind::NoVHost => 404,
        ErrorKind::AccessDenied => 403,
        ErrorKind::NotAuthorized { proxy } => if proxy { 407 } else { 401 },
        ErrorKind::RateLimited { .. } => 429,
        ErrorKind::RequestTooLarge => 413,
        ErrorKind::HeadersTooLarge => 431,
        ErrorKind::BreakerOpen => 503,
        ErrorKind::UpstreamUnavailable => 502,
        ErrorKind::UpstreamTimeout => 504,
        ErrorKind::NotFound => 404,
        ErrorKind::Internal => 500,
    }
}

impl ErrorKind {
    /// The HTTP status the dispatcher answers with.
    pub fn status(&self) -> (r: u16)
        ensures
            r == kind_status(*self),
    {
        match self {
            ErrorKind::ConfigInvalid => 500,
            ErrorKind::NoVHost => 404,
            ErrorKind::AccessDenied => 403,
            ErrorKind::NotAuthorized { proxy } => if *proxy {
                407
            } else {
                401
            },
            ErrorKind::RateLimited { .. } => 429,
            ErrorKind::RequestTooLarge => 413,
            ErrorKind::HeadersTooLarge => 431,
            ErrorKind::BreakerOpen => 503,
            ErrorKind::UpstreamUnavailable => 502,
            ErrorKind::UpstreamTimeout => 504,
            ErrorKind::NotFound => 404,
            ErrorKind::Internal => 500,
        }
    }
}

/// The message users see for a status.
pub open spec fn friendly_message(status: u16) -> Seq<char> {
    if status == 404 {
        "The page you're looking for doesn't exist."@
    } else if status == 401 {
        "Please sign in to continue."@
    } else if status == 403 {
        "You don't have permission to access this resource."@
    } else if status == 500 {
        "Something went wrong on our end. Please try again later."@
    } else if status == 503 {
        "Our service is temporarily unavailable. Please check back soon."@
    } else if status == 400 {
        "There was a problem with your request."@
    } else if status == 429 {
        "You've made too many requests. Please slow down."@
    } else {
        "An error occurred ("@ + decimal(status as nat) + ")"@
    }
}

pub fn get_user_friendly_message(status: u16) -> (r: String)
    ensures
        r@ == friendly_message(status),
{
    if status == 404 {
        "The page you're looking for doesn't exist.".to_owned()
    } else if status == 401 {
        "Please sign in to continue.".to_owned()
    } else if status == 403 {
        "You don't have permission to access this resource.".to_owned()
    } else if status == 500 {
        "Something went wrong on our end. Please try again later.".to_owned()
    } else if status == 503 {
        "Our service is temporarily unavailable. Please check back soon.".to_owned()
    } else if status == 400 {
        "There was a problem with your request.".to_owned()
    } else if status == 429 {
        "You've made too many requests. Please slow down.".to_owned()
    } else {
        let mut v = chars_of("An error occurred (");
        push_all(&mut v, &decimal_of(status as u64));
        push_all(&mut v, &chars_of(")"));
        string_of(&v)
    }
}

} // verus!
