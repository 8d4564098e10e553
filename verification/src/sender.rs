//! Senders: where a destination URL sends output to.

use vstd::prelude::*;
use crate::text::same_text;

verus! {

/// Something that sends one burst of output to its destination.
pub trait Sender {
    fn output(&self);
}

/// The destination a sender is made for.
#[derive(Debug)]
pub enum SenderTarget {
    /// A UDP destination, written as the URL's text from its host on
    /// (`host:port` and what follows).
    Udp { dest: String },
    /// A serial port, named by the whole URL.
    Serial { dest_port: String },
}

/// The mathematical value of a `SenderTarget`.
pub enum SenderTargetSpec {
    Udp { dest: Seq<char> },
    Serial { dest_port: Seq<char> },
}

impl View for SenderTarget {
    type V = SenderTargetSpec;

    open spec fn view(&self) -> SenderTargetSpec {
        match self {
            SenderTarget::Udp { dest } => SenderTargetSpec::Udp { dest: dest@ },
            SenderTarget::Serial { dest_port } => SenderTargetSpec::Serial { dest_port: dest_port@ },
        }
    }
}

/// What the `url` crate makes of `input`: where `Url::parse` accepts it,
/// the scheme (lower-cased, without `:`) and the URL's serialization from the
/// start of its host on; where it refuses it, the debug text of its
/// `ParseError`.
pub uninterp spec fn url_outcome(input: Seq<char>) -> Result<(Seq<char>, Seq<char>), Seq<char>>;

/// The views of a URL outcome.
pub open spec fn outcome_view(r: Result<(String, String), String>) -> Result<
    (Seq<char>, Seq<char>),
    Seq<char>,
> {
    match r {
        Ok((a, b)) => Ok((a@, b@)),
        Err(e) => Err(e@),
    }
}

/// Calls `url::Url::parse` on `input`. Where it succeeds, reads the parsed
/// URL's `scheme()` and its text from `Position::BeforeHost` on; where it
/// fails, formats the `ParseError` with `{:?}`. The contract claims only that
/// the outcome is `url_outcome` of the input.
#[verifier::external_body]
fn parse_url(input: &str) -> (r: Result<(String, String), String>)
    ensures
        outcome_view(r) == url_outcome(input@),
{
    match url::Url::parse(input) {
        Ok(u) => Ok((u.scheme().to_string(), u[url::Position::BeforeHost..].to_string())),
        Err(e) => Err(format!("{:?}", e)),
    }
}

/// Whether a scheme is one a sender exists for.
pub open spec fn known_scheme(scheme: Seq<char>) -> bool {
    scheme == "udp"@ || scheme == "serial"@
}

/// Whether a URL outcome names a destination a sender exists for.
pub open spec fn sendable(outcome: Result<(Seq<char>, Seq<char>), Seq<char>>) -> bool {
    outcome matches Ok((scheme, _)) && known_scheme(scheme)
}

/// The destination of `dest`, given its scheme and its text from the host on.
pub open spec fn sender_target_spec(dest: Seq<char>, scheme: Seq<char>, rest: Seq<char>) -> SenderTargetSpec {
    if scheme == "udp"@ {
        SenderTargetSpec::Udp { dest: rest }
    } else {
        SenderTargetSpec::Serial { dest_port: dest }
    }
}

/// Why no sender can be made for a URL.
#[derive(Debug)]
pub enum SenderError {
    /// The `url` crate refuses the text; the debug text of its error.
    InvalidUrl(String),
    /// The URL names neither `udp` nor `serial`.
    NoSenderFound,
}

/// The mathematical value of a `SenderError`.
pub enum SenderErrorSpec {
    InvalidUrl(Seq<char>),
    NoSenderFound,
}

impl View for SenderError {
    type V = SenderErrorSpec;

    open spec fn view(&self) -> SenderErrorSpec {
        match self {
            SenderError::InvalidUrl(text) => SenderErrorSpec::InvalidUrl(text@),
            SenderError::NoSenderFound => SenderErrorSpec::NoSenderFound,
        }
    }
}

/// What making a sender for `dest` comes to, given what the `url` crate
/// made of it.
pub open spec fn sender_outcome(
    dest: Seq<char>,
    outcome: Result<(Seq<char>, Seq<char>), Seq<char>>,
) -> Result<SenderTargetSpec, SenderErrorSpec> {
    match outcome {
        Err(text) => Err(SenderErrorSpec::InvalidUrl(text)),
        Ok((scheme, rest)) => if known_scheme(scheme) {
            Ok(sender_target_spec(dest, scheme, rest))
        } else {
            Err(SenderErrorSpec::NoSenderFound)
        },
    }
}

/// The destination of `dest` given the scheme and the text from the host on
/// read from it: a `udp` URL sends to its host part, a `serial` URL to the
/// port it names.
pub fn sender_target(dest: String, scheme: String, rest: String) -> (t: SenderTarget)
    requires
        known_scheme(scheme@),
    ensures
        t@ == sender_target_spec(dest@, scheme@, rest@),
{
    if same_text(scheme.as_str(), "udp") {
        SenderTarget::Udp { dest: rest }
    } else {
        SenderTarget::Serial { dest_port: dest }
    }
}

/// The destination a sender for the URL `dest` sends to.
pub fn create_sender(dest: String) -> (t: SenderTarget)
    requires
        sendable(url_outcome(dest@)),
    ensures
        sender_outcome(dest@, url_outcome(dest@)) == Ok::<SenderTargetSpec, SenderErrorSpec>(t@),
{
    match parse_url(dest.as_str()) {
        Ok((scheme, rest)) => sender_target(dest, scheme, rest),
        Err(_) => {
            assert(false);
            SenderTarget::Serial { dest_port: dest }
        },
    }
}

/// The destination a sender for `dest` sends to, or why there is none: the
/// `url` crate refuses `dest`, or it names neither `udp` nor `serial`.
pub fn try_create_sender(dest: String) -> (r: Result<SenderTarget, SenderError>)
    ensures
        match sender_outcome(dest@, url_outcome(dest@)) {
            Ok(t) => r matches Ok(x) && x@ == t,
            Err(e) => r matches Err(x) && x@ == e,
        },
{
    match parse_url(dest.as_str()) {
        Ok((scheme, _)) => {
            if same_text(scheme.as_str(), "udp") || same_text(scheme.as_str(), "serial") {
                Ok(create_sender(dest))
            } else {
                Err(SenderError::NoSenderFound)
            }
        },
        Err(text) => Err(SenderError::InvalidUrl(text)),
    }
}

/// Senders exist for exactly two schemes: a `udp` URL sends to its text
/// from the host on, a `serial` URL to the port the whole URL names, any
/// other scheme has no sender, and a URL the `url` crate refuses is reported
/// with the crate's error.
pub proof fn lemma_sender_schemes(dest: Seq<char>, scheme: Seq<char>, rest: Seq<char>, error: Seq<char>)
    ensures
        sender_outcome(dest, Err(error)) == Err::<SenderTargetSpec, SenderErrorSpec>(
            SenderErrorSpec::InvalidUrl(error),
        ),
        scheme == "udp"@ ==> sender_outcome(dest, Ok((scheme, rest))) == Ok::<
            SenderTargetSpec,
            SenderErrorSpec,
        >(SenderTargetSpec::Udp { dest: rest }),
        scheme == "serial"@ ==> sender_outcome(dest, Ok((scheme, rest))) == Ok::<
            SenderTargetSpec,
            SenderErrorSpec,
        >(SenderTargetSpec::Serial { dest_port: dest }),
        scheme != "udp"@ && scheme != "serial"@ ==> sender_outcome(dest, Ok((scheme, rest))) == Err::<
            SenderTargetSpec,
            SenderErrorSpec,
        >(SenderErrorSpec::NoSenderFound),
{
    reveal_strlit("udp");
    reveal_strlit("serial");
    assert("serial"@.len() == 6 && "udp"@.len() == 3);
    assert("serial"@ != "udp"@);
}

} // verus!
