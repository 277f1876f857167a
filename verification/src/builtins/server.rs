//! `serverstart()`, `serverstop()` and `serverlist()`: what the listening-server
//! functions ask of the host, and what they make of its answers. The host
//! listens; these functions check arguments, choose the returned values and keep
//! `v:servername`.

use vstd::prelude::*;

use crate::text::{chars_of, lossy};
use crate::types::{EvalError, OxStr, Typval, TypvalView};

verus! {

/// The address that `serverstart()` asks the host to listen on.
#[derive(Debug, PartialEq, Eq)]
pub enum ServerAddress {
    /// A generated one.
    Generated,
    /// One that is generated from a bare name.
    Named(String),
    /// This one, as it is.
    Given(String),
}

/// Whether an address is a bare name: neither a path nor a host and port.
pub open spec fn is_bare(address: Seq<char>) -> bool {
    !address.contains('/') && !address.contains(':')
}

/// Whether an address is a bare name.
fn is_bare_name(address: &str) -> (bare: bool)
    ensures
        bare == is_bare(address@),
{
    let chars = chars_of(address);
    let mut next: usize = 0;
    while next < chars.len()
        invariant
            next <= chars@.len(),
            chars@ == address@,
            forall|i: int| 0 <= i < next ==> #[trigger] chars@[i] != '/' && chars@[i] != ':',
        decreases chars@.len() - next,
    {
        if chars[next] == '/' || chars[next] == ':' {
            assert(address@[next as int] == chars@[next as int]);
            return false;
        }
        next = next + 1;
    }
    true
}

/// What became of the request to listen.
#[derive(Debug, PartialEq, Eq)]
pub enum StartOutcome {
    /// No host listens for this editor.
    NoHost,
    /// The host listens on this address.
    Bound(String),
    /// The host failed, for this reason.
    Failed(String),
}

/// What became of the request to stop listening.
#[derive(Debug, PartialEq, Eq)]
pub enum StopOutcome {
    /// No host listens for this editor.
    NoHost,
    /// Nothing listened on the address.
    Unknown,
    /// The listener is gone; these addresses remain, oldest first.
    Stopped(Vec<String>),
}

/// A server function's value, and the text that `v:servername` gets, if any.
#[derive(Debug, PartialEq, Eq)]
pub struct ServerAnswer {
    /// The value.
    pub value: Typval,
    /// The new `v:servername`.
    pub servername: Option<String>,
}

/// Why a server did not start.
pub open spec fn start_failure(reason: Seq<char>) -> Seq<char> {
    "Failed to start server: "@ + reason
}

/// The error of a server that did not start.
#[must_use]
pub fn start_failed(reason: &str) -> (error: EvalError)
    ensures
        error.reads("E900"@, start_failure(reason@)),
{
    let mut message = "Failed to start server: ".to_owned();
    message.append(reason);
    EvalError::new("E900", message.as_str())
}

/// A text as a script value.
pub open spec fn text(chars: Seq<char>) -> TypvalView {
    TypvalView::String(vstd::utf8::encode_utf8(chars))
}

/// Whether `serverstart()` fails on its argument alone: an empty address is never
/// replaced by a generated one, and numbers are not taken for addresses.
pub open spec fn bad_start<T>(result: Result<T, EvalError>, args: Seq<Typval>) -> bool {
    match args[0]@ {
        TypvalView::String(_) => crate::types::fails_with(
            result,
            "E900"@,
            start_failure("Unknown system error"@),
        ),
        _ => crate::types::fails_with(result, "E474"@, "Invalid argument"@),
    }
}

/// Whether `serverstart()`'s arguments name an address.
pub open spec fn names_address(args: Seq<Typval>) -> bool {
    args.len() == 0 || match args[0]@ {
        TypvalView::String(bytes) => bytes.len() > 0,
        _ => false,
    }
}

/// The address that `serverstart([{address}])` asks for: a generated one when the
/// argument is missing or a bare name.
///
/// # Errors
///
/// `E900` for an empty address, and `E474` for a value that is no string.
pub fn server_start_address(args: &[Typval]) -> (address: Result<ServerAddress, EvalError>)
    ensures
        if !names_address(args@) {
            bad_start(address, args@)
        } else if args@.len() == 0 {
            address == Ok::<_, EvalError>(ServerAddress::Generated)
        } else {
            let text = crate::text::lossy_text(args@[0]@->String_0);
            &&& address is Ok
            &&& match address->Ok_0 {
                ServerAddress::Generated => false,
                ServerAddress::Named(name) => is_bare(text) && name@ == text,
                ServerAddress::Given(given) => !is_bare(text) && given@ == text,
            }
        },
{
    if args.len() == 0 {
        return Ok(ServerAddress::Generated);
    }
    match &args[0] {
        Typval::String(bytes) => if bytes.as_bytes().len() == 0 {
            Err(start_failed("Unknown system error"))
        } else {
            let address = lossy(bytes.as_bytes());
            if is_bare_name(address.as_str()) {
                Ok(ServerAddress::Named(address))
            } else {
                Ok(ServerAddress::Given(address))
            }
        },
        _ => Err(EvalError::new("E474", "Invalid argument")),
    }
}

/// Whether `v:servername` is unset: it holds no text, or an empty one.
pub open spec fn is_unset(servername: Option<TypvalView>) -> bool {
    match servername {
        Some(TypvalView::String(bytes)) => bytes.len() == 0,
        _ => true,
    }
}

/// The view of an optional value.
pub open spec fn optional(value: Option<&Typval>) -> Option<TypvalView> {
    match value {
        Some(value) => Some(value@),
        None => None,
    }
}

/// The view of an optional text.
pub open spec fn optional_text(text: Option<String>) -> Option<Seq<char>> {
    match text {
        Some(text) => Some(text@),
        None => None,
    }
}

/// `serverstart([{address}])`: the address that the host bound. `v:servername`
/// changes only when it is unset.
///
/// # Errors
///
/// Those of [`server_start_address`], and `E900` when nothing listens.
pub fn server_start(
    args: &[Typval],
    outcome: StartOutcome,
    servername: Option<&Typval>,
) -> (answer: Result<ServerAnswer, EvalError>)
    ensures
        if !names_address(args@) {
            bad_start(answer, args@)
        } else {
            match outcome {
                StartOutcome::NoHost => crate::types::fails_with(
                    answer,
                    "E900"@,
                    start_failure("Unknown system error"@),
                ),
                StartOutcome::Failed(reason) => crate::types::fails_with(
                    answer,
                    "E900"@,
                    start_failure(reason@),
                ),
                StartOutcome::Bound(address) => {
                    &&& answer is Ok
                    &&& answer->Ok_0.value@ == text(address@)
                    &&& optional_text(answer->Ok_0.servername) == if is_unset(
                        optional(servername),
                    ) {
                        Some(address@)
                    } else {
                        None
                    }
                },
            }
        },
{
    if let Err(error) = server_start_address(args) {
        return Err(error);
    }
    let address = match outcome {
        StartOutcome::NoHost => {
            return Err(start_failed("Unknown system error"));
        },
        StartOutcome::Failed(reason) => {
            return Err(start_failed(reason.as_str()));
        },
        StartOutcome::Bound(address) => address,
    };
    let unset: bool = match servername {
        Some(Typval::String(bytes)) => bytes.as_bytes().len() == 0,
        _ => true,
    };
    let value = Typval::text(address.as_str());
    let servername = if unset {
        Some(address)
    } else {
        None
    };
    Ok(ServerAnswer { value, servername })
}

/// The address that `serverstop({address})` asks the host to stop listening on;
/// none for an empty one.
///
/// # Errors
///
/// `E474` for a value that is no string.
pub fn server_stop_address(args: &[Typval]) -> (address: Result<Option<String>, EvalError>)
    ensures
        if args@.len() > 0 && args@[0]@ is String {
            let wanted = crate::text::lossy_text(args@[0]@->String_0);
            &&& address is Ok
            &&& optional_text(address->Ok_0) == if wanted.len() == 0 {
                None
            } else {
                Some(wanted)
            }
        } else {
            crate::types::fails_with(address, "E474"@, "Invalid argument"@)
        },
{
    if args.len() == 0 {
        return Err(EvalError::new("E474", "Invalid argument"));
    }
    match &args[0] {
        Typval::String(bytes) => {
            let address = lossy(bytes.as_bytes());
            if address.as_str().unicode_len() == 0 {
                Ok(None)
            } else {
                Ok(Some(address))
            }
        },
        _ => Err(EvalError::new("E474", "Invalid argument")),
    }
}

/// The text that `v:servername` gets when the server on `address` stopped: the
/// first remaining address, or none at all, if it named that server.
pub open spec fn next_servername(
    servername: Option<TypvalView>,
    address: Seq<char>,
    remaining: Seq<String>,
) -> Option<Seq<char>> {
    if servername == Some(text(address)) {
        Some(
            if remaining.len() > 0 {
                remaining[0]@
            } else {
                Seq::empty()
            },
        )
    } else {
        None
    }
}

/// `serverstop({address})`: 1 when a listener was stopped, and 0 for an empty
/// address or one that nothing listened on.
///
/// # Errors
///
/// Those of [`server_stop_address`].
pub fn server_stop(
    args: &[Typval],
    outcome: StopOutcome,
    servername: Option<&Typval>,
) -> (answer: Result<ServerAnswer, EvalError>)
    ensures
        if args@.len() > 0 && args@[0]@ is String {
            let wanted = crate::text::lossy_text(args@[0]@->String_0);
            &&& answer is Ok
            &&& match outcome {
                StopOutcome::Stopped(remaining) if wanted.len() > 0 => {
                    &&& answer->Ok_0.value@ == TypvalView::Number(1)
                    &&& optional_text(answer->Ok_0.servername) == next_servername(
                        optional(servername),
                        wanted,
                        remaining@,
                    )
                },
                _ => {
                    &&& answer->Ok_0.value@ == TypvalView::Number(0)
                    &&& answer->Ok_0.servername is None
                },
            }
        } else {
            crate::types::fails_with(answer, "E474"@, "Invalid argument"@)
        },
{
    let address = match server_stop_address(args) {
        Ok(Some(address)) => address,
        Ok(None) => {
            return Ok(ServerAnswer { value: Typval::Number(0), servername: None });
        },
        Err(error) => {
            return Err(error);
        },
    };
    let remaining = match outcome {
        StopOutcome::Stopped(remaining) => remaining,
        _ => {
            return Ok(ServerAnswer { value: Typval::Number(0), servername: None });
        },
    };
    let current: bool = match servername {
        Some(Typval::String(bytes)) => bytes.same(&OxStr::from_text(address.as_str())),
        _ => false,
    };
    let mut next: Option<String> = None;
    if current {
        let first = if remaining.len() > 0 {
            remaining[0].clone()
        } else {
            String::new()
        };
        assert(remaining@.len() == 0 ==> first@ =~= Seq::empty());
        next = Some(first);
    }
    Ok(ServerAnswer { value: Typval::Number(1), servername: next })
}

/// `serverlist()`: the addresses that the host listens on.
#[must_use]
pub fn server_list(addresses: &Vec<String>) -> (value: Typval)
    ensures
        value@ == TypvalView::List(addresses@.map_values(|address: String| text(address@))),
{
    let mut items: Vec<Typval> = Vec::new();
    let mut next: usize = 0;
    while next < addresses.len()
        invariant
            next <= addresses@.len(),
            items@.len() == next,
            forall|i: int| 0 <= i < next ==> (#[trigger] items@[i])@ == text(addresses@[i]@),
        decreases addresses@.len() - next,
    {
        items.push(Typval::text(addresses[next].as_str()));
        next = next + 1;
    }
    proof {
        assert(crate::types::list_view(items@) =~= addresses@.map_values(
            |address: String| text(address@),
        ));
    }
    Typval::list(items)
}

} // verus!
