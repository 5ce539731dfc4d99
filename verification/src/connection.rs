//! Which endpoint, token, certificate policy and proxy a command connects
//! with: the command line first, then the chosen context, then defaults.

use vstd::prelude::*;
use crate::config::{ContextConfig, ReinferConfig};
use crate::text::{ends_with_seq, ends_with_text, lowercased, owned, push_str, to_lowercase};

verus! {

/// The connection options given on the command line.
pub struct ConnectionArgs {
    /// The context to use instead of the current one.
    pub context: Option<String>,
    /// The endpoint to use instead of the context's.
    pub endpoint: Option<url::Url>,
    /// The token to use instead of the context's.
    pub token: Option<String>,
    /// Whether to accept invalid TLS certificates, instead of the context's choice.
    pub accept_invalid_certificates: Option<bool>,
    /// The proxy to use instead of the context's.
    pub proxy: Option<url::Url>,
}

/// The settings a command connects with.
pub struct Connection<'a> {
    /// The endpoint; `None` stands for the default endpoint.
    pub endpoint: Option<&'a url::Url>,
    /// The token; `None` means the token is read from the terminal.
    pub token: Option<&'a String>,
    /// Whether invalid TLS certificates are accepted.
    pub accept_invalid_certificates: bool,
    /// The proxy, if any.
    pub proxy: Option<&'a url::Url>,
}

/// The context a command uses: the one named on the command line, else
/// the current one.
pub open spec fn chosen_context(args: ConnectionArgs, config: ReinferConfig) -> Option<
    ContextConfig,
> {
    match args.context {
        Some(name) => config.context_named(name@),
        None => match config.current() {
            Some(current) => config.context_named(current),
            None => None,
        },
    }
}

/// Resolves the connection settings: each comes from the command line if
/// given there, else from the chosen context, else from its default. A
/// context named on the command line must exist.
pub fn resolve_connection<'a>(args: &'a ConnectionArgs, config: &'a ReinferConfig) -> (connection:
    Result<Connection<'a>, String>)
    ensures
        connection is Err <==> (args.context matches Some(name) && config.context_named(name@)
            is None),
        connection matches Err(message) ==> (args.context matches Some(name) && message@
            == "Unknown context `"@ + name@ + "`."@),
        connection matches Ok(c) ==> {
            let context = chosen_context(*args, *config);
            &&& c.endpoint == match args.endpoint {
                Some(e) => Some(&e),
                None => match context {
                    Some(ctx) => Some(&ctx.endpoint),
                    None => None,
                },
            }
            &&& c.token == match args.token {
                Some(t) => Some(&t),
                None => match context {
                    Some(ctx) => match ctx.token {
                        Some(t) => Some(&t),
                        None => None,
                    },
                    None => None,
                },
            }
            &&& c.accept_invalid_certificates == match args.accept_invalid_certificates {
                Some(b) => b,
                None => match context {
                    Some(ctx) => ctx.accept_invalid_certificates,
                    None => false,
                },
            }
            &&& c.proxy == match args.proxy {
                Some(p) => Some(&p),
                None => match context {
                    Some(ctx) => match ctx.proxy {
                        Some(p) => Some(&p),
                        None => None,
                    },
                    None => None,
                },
            }
        },
{
    let context: Option<&ContextConfig> = match &args.context {
        Some(name) => {
            let found = config.get_context(name.as_str());
            if found.is_none() {
                let mut message = owned("Unknown context `");
                push_str(&mut message, name.as_str());
                push_str(&mut message, "`.");
                return Err(message);
            }
            found
        },
        None => config.get_current_context(),
    };
    let endpoint = match &args.endpoint {
        Some(endpoint) => Some(endpoint),
        None => match context {
            Some(ctx) => Some(&ctx.endpoint),
            None => None,
        },
    };
    let token = match &args.token {
        Some(token) => Some(token),
        None => match context {
            Some(ctx) => match &ctx.token {
                Some(token) => Some(token),
                None => None,
            },
            None => None,
        },
    };
    let accept_invalid_certificates = match args.accept_invalid_certificates {
        Some(accept) => accept,
        None => match context {
            Some(ctx) => ctx.accept_invalid_certificates,
            None => false,
        },
    };
    let proxy = match &args.proxy {
        Some(proxy) => Some(proxy),
        None => match context {
            Some(ctx) => match &ctx.proxy {
                Some(proxy) => Some(proxy),
                None => None,
            },
            None => None,
        },
    };
    Ok(Connection { endpoint, token, accept_invalid_certificates, proxy })
}

/// A context (or an endpoint) must be named on the command line when the
/// configuration requires one.
pub fn check_context_required(config: &ReinferConfig, args: &ConnectionArgs) -> (result: Result<
    (),
    String,
>)
    ensures
        result is Err <==> (config.context_required() && args.context is None && args.endpoint
            is None),
        result matches Err(message) ==> message@
            == "Please provide a context with the `re -c <context>` option or opt out with `re config set-context-required false`"@,
{
    if config.is_context_required() && args.context.is_none() && args.endpoint.is_none() {
        Err(
            owned(
                "Please provide a context with the `re -c <context>` option or opt out with `re config set-context-required false`",
            ),
        )
    } else {
        Ok(())
    }
}

/// An email address of a UiPath user: in lower case, it ends with
/// `uipath.com` or `reinfer.dev`.
pub open spec fn is_uipath_email(email: Seq<char>) -> bool {
    ends_with_seq(lowercased(email), "uipath.com"@) || ends_with_seq(
        lowercased(email),
        "reinfer.dev"@,
    )
}

/// UiPath users must name a context (or an endpoint) on the command line.
pub fn check_uipath_user_context(current_user_email: &str, args: &ConnectionArgs) -> (result:
    Result<(), String>)
    ensures
        result is Err <==> (is_uipath_email(current_user_email@) && args.context is None
            && args.endpoint is None),
        result matches Err(message) ==> message@
            == "As a UiPath user, please provide a context with the `re -c <context>` option"@,
{
    let lower = to_lowercase(current_user_email);
    let uipath = ends_with_text(lower.as_str(), "uipath.com") || ends_with_text(
        lower.as_str(),
        "reinfer.dev",
    );
    if uipath && args.context.is_none() && args.endpoint.is_none() {
        Err(owned("As a UiPath user, please provide a context with the `re -c <context>` option"))
    } else {
        Ok(())
    }
}

} // verus!
