use std::time::Duration;
use vstd::prelude::*;

verus! {

/// The error type of the API client: carried through unchanged.
#[verifier::external_type_specification]
#[verifier::external_body]
pub struct ExKubeError(kube::Error);

/// The duration that `Duration::from_secs` builds from a number of seconds.
pub uninterp spec fn duration_from_secs(secs: u64) -> Duration;

/// Relies on `Duration::from_secs`: the same number of seconds gives the same duration.
pub assume_specification[ core::time::Duration::from_secs ](secs: u64) -> (r: Duration)
    ensures
        r == duration_from_secs(secs),
;

/// The failures that one collection cycle can meet.
#[derive(Debug)]
pub enum MetricsError {
    KubeError(kube::Error),
    ParseError(String),
    TimeoutError(Duration),
    RateLimitError(Duration),
    PodNotFound(String, String),
    MetricsNotAvailable(String, String),
    InvalidMetricFormat(String),
    MetricsServerError(String),
    AuthorizationError(String),
    NetworkError(String),
    InternalError(String),
}

pub type MetricsResult<T> = Result<T, MetricsError>;

/// Whether waiting and trying again may succeed.
pub open spec fn retriable(e: MetricsError) -> bool {
    match e {
        MetricsError::TimeoutError(_) => true,
        MetricsError::RateLimitError(_) => true,
        MetricsError::NetworkError(_) => true,
        MetricsError::MetricsServerError(_) => true,
        _ => false,
    }
}

/// Whether an operator should be told.
pub open spec fn alerting(e: MetricsError) -> bool {
    match e {
        MetricsError::AuthorizationError(_) => true,
        MetricsError::MetricsServerError(_) => true,
        MetricsError::InternalError(_) => true,
        _ => false,
    }
}

/// How long to wait before trying again: the carried delay of a rate limit,
/// else a fixed number of seconds.
pub open spec fn delay_of(e: MetricsError) -> Duration {
    match e {
        MetricsError::RateLimitError(d) => d,
        MetricsError::TimeoutError(_) => duration_from_secs(5),
        MetricsError::MetricsServerError(_) => duration_from_secs(10),
        _ => duration_from_secs(1),
    }
}

impl MetricsError {
    pub fn is_retriable(&self) -> (r: bool)
        ensures
            r == retriable(*self),
    {
        match self {
            MetricsError::TimeoutError(_) => true,
            MetricsError::RateLimitError(_) => true,
            MetricsError::NetworkError(_) => true,
            MetricsError::MetricsServerError(_) => true,
            _ => false,
        }
    }

    pub fn retry_delay(&self) -> (r: Duration)
        ensures
            r == delay_of(*self),
    {
        match self {
            MetricsError::RateLimitError(delay) => *delay,
            MetricsError::TimeoutError(_) => Duration::from_secs(5),
            MetricsError::NetworkError(_) => Duration::from_secs(1),
            MetricsError::MetricsServerError(_) => Duration::from_secs(10),
            _ => Duration::from_secs(1),
        }
    }

    pub fn should_alert(&self) -> (r: bool)
        ensures
            r == alerting(*self),
    {
        match self {
            MetricsError::AuthorizationError(_) => true,
            MetricsError::MetricsServerError(_) => true,
            MetricsError::InternalError(_) => true,
            _ => false,
        }
    }
}

pub fn parse_error(value: String) -> (r: MetricsError)
    ensures
        r == MetricsError::ParseError(value),
{
    MetricsError::ParseError(value)
}

pub fn timeout_error(duration: Duration) -> (r: MetricsError)
    ensures
        r == MetricsError::TimeoutError(duration),
{
    MetricsError::TimeoutError(duration)
}

pub fn rate_limit_error(retry_after: Duration) -> (r: MetricsError)
    ensures
        r == MetricsError::RateLimitError(retry_after),
{
    MetricsError::RateLimitError(retry_after)
}

pub fn pod_not_found(pod_name: String, namespace: String) -> (r: MetricsError)
    ensures
        r == MetricsError::PodNotFound(pod_name, namespace),
{
    MetricsError::PodNotFound(pod_name, namespace)
}

/// Relies on the `Display` impl of `kube::Error`: some text, of which nothing is assumed.
#[verifier::external_body]
fn kube_error_text(e: &kube::Error) -> (r: String) {
    e.to_string()
}

/// Relies on the `Debug` impl of `Duration`: some text, of which nothing is assumed.
#[verifier::external_body]
fn duration_text(d: &Duration) -> (r: String) {
    format!("{:?}", d)
}

/// The fixed text that opens the message of `e`.
pub open spec fn message_prefix(e: MetricsError) -> Seq<char> {
    match e {
        MetricsError::KubeError(_) => "Kubernetes client error: "@,
        MetricsError::ParseError(_) => "Failed to parse metric value: "@,
        MetricsError::TimeoutError(_) => "Metrics API timeout after "@,
        MetricsError::RateLimitError(_) => "Rate limit exceeded, retry after "@,
        MetricsError::PodNotFound(_, _) => "Pod "@,
        MetricsError::MetricsNotAvailable(_, _) => "Metrics not available for pod "@,
        MetricsError::InvalidMetricFormat(_) => "Invalid metric format: "@,
        MetricsError::MetricsServerError(_) => "Metrics server not available: "@,
        MetricsError::AuthorizationError(_) => "Authorization error: "@,
        MetricsError::NetworkError(_) => "Network error: "@,
        MetricsError::InternalError(_) => "Internal error: "@,
    }
}

/// The whole message of `e`, where it carries only text.
pub open spec fn text_message(e: MetricsError) -> Option<Seq<char>> {
    match e {
        MetricsError::ParseError(m) => Some(message_prefix(e) + m@),
        MetricsError::PodNotFound(p, n) => Some(message_prefix(e) + p@ + " not found in namespace "@ + n@),
        MetricsError::MetricsNotAvailable(p, n) => Some(message_prefix(e) + p@ + " in namespace "@ + n@),
        MetricsError::InvalidMetricFormat(m) => Some(message_prefix(e) + m@),
        MetricsError::MetricsServerError(m) => Some(message_prefix(e) + m@),
        MetricsError::AuthorizationError(m) => Some(message_prefix(e) + m@),
        MetricsError::NetworkError(m) => Some(message_prefix(e) + m@),
        MetricsError::InternalError(m) => Some(message_prefix(e) + m@),
        _ => None,
    }
}

fn prefixed(prefix: &str, detail: &String) -> (r: String)
    ensures
        r@ == prefix@ + detail@,
{
    let mut s = String::from_str(prefix);
    s.append(detail.as_str());
    s
}

impl MetricsError {
    /// The message that describes the failure.
    pub fn message(&self) -> (r: String)
        ensures
            text_message(*self) matches Some(t) ==> r@ == t,
            r@.len() >= message_prefix(*self).len(),
            r@.subrange(0, message_prefix(*self).len() as int) == message_prefix(*self),
    {
        let r = match self {
            MetricsError::KubeError(e) => prefixed("Kubernetes client error: ", &kube_error_text(e)),
            MetricsError::ParseError(m) => prefixed("Failed to parse metric value: ", m),
            MetricsError::TimeoutError(d) => prefixed("Metrics API timeout after ", &duration_text(d)),
            MetricsError::RateLimitError(d) => prefixed("Rate limit exceeded, retry after ", &duration_text(d)),
            MetricsError::PodNotFound(p, n) => {
                let mut s = prefixed("Pod ", p);
                s.append(" not found in namespace ");
                s.append(n.as_str());
                s
            },
            MetricsError::MetricsNotAvailable(p, n) => {
                let mut s = prefixed("Metrics not available for pod ", p);
                s.append(" in namespace ");
                s.append(n.as_str());
                s
            },
            MetricsError::InvalidMetricFormat(m) => prefixed("Invalid metric format: ", m),
            MetricsError::MetricsServerError(m) => prefixed("Metrics server not available: ", m),
            MetricsError::AuthorizationError(m) => prefixed("Authorization error: ", m),
            MetricsError::NetworkError(m) => prefixed("Network error: ", m),
            MetricsError::InternalError(m) => prefixed("Internal error: ", m),
        };
        proof {
            let pre = message_prefix(*self);
            assert(r@.subrange(0, pre.len() as int) =~= pre);
            if let Some(t) = text_message(*self) {
                assert(r@ =~= t);
            }
        }
        r
    }
}

/// Helpers on results whose error is a `MetricsError`.
pub trait MetricsResultExt<T>: Sized {
    /// Turns an error into an internal error whose message is the context that `op`
    /// gives, ` - `, and the error's message; a success stays as it is.
    fn on_metrics_error<F: FnOnce() -> String>(self, op: F) -> (r: Result<T, MetricsError>)
        requires
            op.requires(()),
    ;
}

impl<T> MetricsResultExt<T> for Result<T, MetricsError> {
    fn on_metrics_error<F: FnOnce() -> String>(self, op: F) -> (r: Result<T, MetricsError>)
        ensures
            self matches Ok(v) ==> r matches Ok(w) && w == v,
            self matches Err(e) ==> r matches Err(MetricsError::InternalError(m)) && exists|
                context: String,
                text: String,
            |
                {
                    &&& op.ensures((), context)
                    &&& m@ == context@ + " - "@ + text@
                    &&& (text_message(e) matches Some(t) ==> text@ == t)
                    &&& text@.len() >= message_prefix(e).len()
                    &&& text@.subrange(0, message_prefix(e).len() as int) == message_prefix(e)
                },
    {
        match self {
            Ok(v) => Ok(v),
            Err(e) => {
                let context = op();
                let text = e.message();
                let mut m = context.clone();
                m.append(" - ");
                m.append(text.as_str());
                Err(MetricsError::InternalError(m))
            },
        }
    }
}

} // verus!
