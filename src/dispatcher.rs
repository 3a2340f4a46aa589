//! The admission stages of the request pipeline, in order: virtual host,
//! access control, rate limit, size ceilings.
use crate::error::ErrorKind;
use crate::fastcgi::has_php_ext;
use crate::rewrite::{action_view, ActionView, RewriteAction};
use crate::rewrite::pairs_view;
use crate::security::{recent, size_verdict, RateLimiter, SecurityConfig};
use crate::vhost::{access_allowed, resolve_host, VHostManager};
use vstd::prelude::*;

verus! {

/// The first admission stage that refuses the request, if any.
pub open spec fn admission(
    vs: Seq<crate::vhost::VirtualHost>,
    host: Seq<char>,
    ip: Seq<char>,
    rate_ok: bool,
    retry_after: u64,
    size: Option<u16>,
) -> Result<(), ErrorKind> {
    match resolve_host(vs, host) {
        None => Err(ErrorKind::NoVHost),
        Some(i) => if !access_allowed(vs[i].access_control, ip) {
            Err(ErrorKind::AccessDenied)
        } else if !rate_ok {
            Err(ErrorKind::RateLimited { retry_after_secs: retry_after })
        } else {
            match size {
                Some(431) => Err(ErrorKind::HeadersTooLarge),
                Some(_) => Err(ErrorKind::RequestTooLarge),
                None => Ok(()),
            }
        },
    }
}

/// Runs the admission stages for a request to `host` from `client_ip` at
/// `now_ms`. The rate limiter counts the request only when the host and the
/// access rules let it through.
pub fn admit_request(
    registry: &VHostManager,
    limiter: &mut RateLimiter,
    security: &SecurityConfig,
    host: &str,
    client_ip: &str,
    headers: &Vec<(String, String)>,
    now_ms: u64,
) -> (r: Result<(), ErrorKind>)
    ensures
        final(limiter).config() == old(limiter).config(),
        ({
            let found = resolve_host(registry.vhosts(), host@);
            let passes = found matches Some(i) && access_allowed(registry.vhosts()[i].access_control, client_ip@);
            let cfg = old(limiter).config();
            let w = recent(old(limiter).times(client_ip@), now_ms, cfg.rate_limit_window_ms);
            let rate_ok = !cfg.enable_rate_limiting || w.len() < cfg.rate_limit_requests;
            &&& r == admission(
                registry.vhosts(),
                host@,
                client_ip@,
                rate_ok,
                cfg.rate_limit_window_ms / 1000,
                size_verdict(*security, pairs_view(headers@)),
            )
            &&& !passes ==> final(limiter).times(client_ip@) == old(limiter).times(client_ip@)
        }),
{
    if registry.get_vhost(host).is_none() {
        return Err(ErrorKind::NoVHost);
    }
    if !registry.check_access(host, client_ip) {
        return Err(ErrorKind::AccessDenied);
    }
    if !limiter.check_rate_limit(client_ip, now_ms) {
        return Err(ErrorKind::RateLimited { retry_after_secs: limiter.window_ms() / 1000 });
    }
    match crate::security::check_request_size(security, headers) {
        Some(431) => Err(ErrorKind::HeadersTooLarge),
        Some(_) => Err(ErrorKind::RequestTooLarge),
        None => Ok(()),
    }
}

/// The adapter that serves a request, or the answer given without one.
#[derive(Debug)]
pub enum Route {
    /// Answer at once, with a `Location` for redirects.
    Respond { status: u16, location: Option<String> },
    /// Forward to an upstream origin.
    Upstream { url: String },
    /// Run a PHP script through the FastCGI responder.
    FastCgi,
    /// Serve a file from the document root.
    Static,
}

pub ghost enum RouteView {
    Respond(u16, Option<Seq<char>>),
    Upstream(Seq<char>),
    FastCgi,
    Static,
}

impl Route {
    pub open spec fn view(&self) -> RouteView {
        match self {
            Route::Respond { status, location } => RouteView::Respond(
                *status,
                match location {
                    Some(l) => Some(l@),
                    None => None,
                },
            ),
            Route::Upstream { url } => RouteView::Upstream(url@),
            Route::FastCgi => RouteView::FastCgi,
            Route::Static => RouteView::Static,
        }
    }
}

/// Adapter selection after rewriting: a terminal rewrite action decides;
/// else the host's upstream backend; else a PHP script goes to FastCGI;
/// else a static file when the host has a document root; else 404.
pub open spec fn route_spec(
    action: Option<ActionView>,
    path: Seq<char>,
    backend: Option<Seq<char>>,
    has_root: bool,
) -> RouteView {
    match action {
        Some(ActionView::Redirect(l, p)) => RouteView::Respond(if p { 301 } else { 302 }, Some(l)),
        Some(ActionView::Forbidden) => RouteView::Respond(403, None),
        Some(ActionView::Gone) => RouteView::Respond(410, None),
        Some(ActionView::Proxy(b)) => RouteView::Upstream(b),
        _ => match backend {
            Some(b) => RouteView::Upstream(b),
            None => if has_php_ext(path) {
                RouteView::FastCgi
            } else if has_root {
                RouteView::Static
            } else {
                RouteView::Respond(404, None)
            },
        },
    }
}

pub fn route(action: &Option<RewriteAction>, path: &str, backend: &Option<String>, has_root: bool) -> (r: Route)
    ensures
        r.view() == route_spec(
            action_view(*action),
            path@,
            match *backend {
                Some(b) => Some(b@),
                None => None,
            },
            has_root,
        ),
{
    match action {
        Some(RewriteAction::Redirect { location, permanent }) => Route::Respond {
            status: if *permanent { 301 } else { 302 },
            location: Some(location.clone()),
        },
        Some(RewriteAction::Forbidden) => Route::Respond { status: 403, location: None },
        Some(RewriteAction::Gone) => Route::Respond { status: 410, location: None },
        Some(RewriteAction::Proxy { backend }) => Route::Upstream { url: backend.clone() },
        _ => match backend {
            Some(b) => Route::Upstream { url: b.clone() },
            None => if crate::fastcgi::has_php_ext_of(&crate::text::chars_of(path)) {
                Route::FastCgi
            } else if has_root {
                Route::Static
            } else {
                Route::Respond { status: 404, location: None }
            },
        },
    }
}

/// Which failed upstream calls the circuit breaker counts: those where the
/// upstream could not be reached, reset, or did not answer in time.
pub fn breaker_failure(kind: &ErrorKind) -> (r: bool)
    ensures
        r == (*kind == ErrorKind::UpstreamUnavailable || *kind == ErrorKind::UpstreamTimeout),
{
    match kind {
        ErrorKind::UpstreamUnavailable => true,
        ErrorKind::UpstreamTimeout => true,
        _ => false,
    }
}

} // verus!
