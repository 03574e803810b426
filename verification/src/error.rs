//! The error type shared by every stage of the request pipeline.
use vstd::prelude::*;
use crate::text::{decimal, push_str, u64_decimal};

verus! {

/// Why a request, a configuration or a pipeline stage failed.
#[derive(Debug)]
pub enum NetError {
    InvalidRequest(String),
    InvalidConfig(String),
    Auth(String),
    Cache(String),
    Dns(String),
    Cdn(String),
    Resume(String),
    Transport(String),
    CircuitOpen(String),
    RetryExhausted { attempts: usize, last_error: Box<NetError> },
    PolicyViolation(String),
}

impl Clone for NetError {
    fn clone(&self) -> (r: Self)
        ensures
            r == *self,
        decreases self,
    {
        match self {
            NetError::InvalidRequest(m) => NetError::InvalidRequest(m.clone()),
            NetError::InvalidConfig(m) => NetError::InvalidConfig(m.clone()),
            NetError::Auth(m) => NetError::Auth(m.clone()),
            NetError::Cache(m) => NetError::Cache(m.clone()),
            NetError::Dns(m) => NetError::Dns(m.clone()),
            NetError::Cdn(m) => NetError::Cdn(m.clone()),
            NetError::Resume(m) => NetError::Resume(m.clone()),
            NetError::Transport(m) => NetError::Transport(m.clone()),
            NetError::CircuitOpen(m) => NetError::CircuitOpen(m.clone()),
            NetError::RetryExhausted { attempts, last_error } => {
                let inner: &NetError = last_error;
                NetError::RetryExhausted { attempts: *attempts, last_error: Box::new(inner.clone()) }
            },
            NetError::PolicyViolation(m) => NetError::PolicyViolation(m.clone()),
        }
    }
}

/// The human-readable text of an error (what `Display` prints).
pub open spec fn error_text(e: NetError) -> Seq<char>
    decreases e,
{
    match e {
        NetError::InvalidRequest(m) => "invalid request: "@ + m@,
        NetError::InvalidConfig(m) => "invalid config: "@ + m@,
        NetError::Auth(m) => "auth error: "@ + m@,
        NetError::Cache(m) => "cache error: "@ + m@,
        NetError::Dns(m) => "dns error: "@ + m@,
        NetError::Cdn(m) => "cdn error: "@ + m@,
        NetError::Resume(m) => "resume error: "@ + m@,
        NetError::Transport(m) => "transport error: "@ + m@,
        NetError::CircuitOpen(m) => "circuit is open: "@ + m@,
        NetError::RetryExhausted { attempts, last_error } =>
            "retry exhausted after "@ + decimal(attempts as nat) + " attempts: "@ + error_text(*last_error),
        NetError::PolicyViolation(m) => "policy violation: "@ + m@,
    }
}

/// The errors after which another attempt may succeed.
pub open spec fn retryable(e: NetError) -> bool {
    e is Dns || e is Transport || e is Cache || e is RetryExhausted
}

impl NetError {
    /// A transport error with the given message.
    pub fn transport(message: String) -> (e: NetError)
        ensures
            e == NetError::Transport(message),
    {
        NetError::Transport(message)
    }

    /// The error reported when every attempt has failed.
    pub fn retry_exhausted(attempts: usize, last_error: NetError) -> (e: NetError)
        ensures
            e == (NetError::RetryExhausted { attempts, last_error: Box::new(last_error) }),
    {
        NetError::RetryExhausted { attempts, last_error: Box::new(last_error) }
    }

    /// Whether another attempt may succeed after this error.
    pub fn is_retryable(&self) -> (r: bool)
        ensures
            r == retryable(*self),
    {
        match self {
            NetError::Dns(_) | NetError::Transport(_) | NetError::Cache(_) | NetError::RetryExhausted { .. } => true,
            _ => false,
        }
    }

    /// The human-readable text of the error.
    pub fn to_string(&self) -> (r: String)
        ensures
            r@ == error_text(*self),
        decreases self,
    {
        let mut r = String::new();
        match self {
            NetError::InvalidRequest(m) => { push_str(&mut r, "invalid request: "); push_str(&mut r, m.as_str()); },
            NetError::InvalidConfig(m) => { push_str(&mut r, "invalid config: "); push_str(&mut r, m.as_str()); },
            NetError::Auth(m) => { push_str(&mut r, "auth error: "); push_str(&mut r, m.as_str()); },
            NetError::Cache(m) => { push_str(&mut r, "cache error: "); push_str(&mut r, m.as_str()); },
            NetError::Dns(m) => { push_str(&mut r, "dns error: "); push_str(&mut r, m.as_str()); },
            NetError::Cdn(m) => { push_str(&mut r, "cdn error: "); push_str(&mut r, m.as_str()); },
            NetError::Resume(m) => { push_str(&mut r, "resume error: "); push_str(&mut r, m.as_str()); },
            NetError::Transport(m) => { push_str(&mut r, "transport error: "); push_str(&mut r, m.as_str()); },
            NetError::CircuitOpen(m) => { push_str(&mut r, "circuit is open: "); push_str(&mut r, m.as_str()); },
            NetError::RetryExhausted { attempts, last_error } => {
                push_str(&mut r, "retry exhausted after ");
                let n = u64_decimal(*attempts as u64);
                push_str(&mut r, n.as_str());
                push_str(&mut r, " attempts: ");
                let inner: &NetError = last_error;
                let t = inner.to_string();
                push_str(&mut r, t.as_str());
            },
            NetError::PolicyViolation(m) => { push_str(&mut r, "policy violation: "); push_str(&mut r, m.as_str()); },
        }
        proof {
            assert(r@ =~= error_text(*self));
        }
        r
    }
}

} // verus!
