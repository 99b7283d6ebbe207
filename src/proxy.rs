//! The forwarding engine: the outbound request's headers and URI, what to do
//! with the backend's response, and how failures become responses.
use vstd::prelude::*;
use vstd::utf8::encode_utf8;
use http::HeaderMap;
use crate::headers::{
    all_lower_tokens, connection_name, get_upgrade_type, header_entries, header_first,
    header_insert, header_remove, is_canonical_name, is_value_bytes,
    hop_names, is_hop_name, all_lower_names, lemma_lower_names_canonical, lemma_sanitize_idempotent, lookup,
    header_names_count, lemma_sanitized_within,
    requests_trailers, sanitize_headers, sanitized, string_view,
    te_name, upgrade_name, upgrade_type, wants_trailers, without,
};
use crate::text::{chars_of, is_visible_text, string_of, text_of_value};
use crate::uri::{forward_uri, forward_uri_of, query_view};

verus! {

#[verifier::external_type_specification]
#[verifier::external_body]
pub struct ExUri(http::Uri);

#[verifier::external_type_specification]
#[verifier::external_body]
pub struct ExInvalidUri(http::uri::InvalidUri);

/// Whether `Uri::from_str` accepts the text `s`.
pub uninterp spec fn uri_accepts(s: Seq<char>) -> bool;

/// Relies on `Uri::from_str`: whether a text parses depends on the text alone.
#[verifier::external_body]
fn parse_uri(s: &str) -> (r: Result<http::Uri, http::uri::InvalidUri>)
    ensures
        r is Ok <==> uri_accepts(s@),
{
    s.parse::<http::Uri>()
}

/// Relies on the `Display` impl of `InvalidUri`, for the error's description.
#[verifier::external_body]
fn invalid_uri_text(e: &http::uri::InvalidUri) -> (r: String) {
    e.to_string()
}

/// Why a call could not be forwarded.
pub enum ProxyError {
    /// The composed forward URI does not parse; carries the parser's reason.
    InvalidUri(String),
    /// An I/O or protocol failure while talking to the backend.
    HyperError(String),
    /// The client could not dispatch the request; `is_connect` where no
    /// connection to the backend could be made at all.
    HyperClientError { message: String, is_connect: bool },
    /// A header value could not be used as text, or could not be stored.
    ForwardHeaderError,
    /// The protocol switch could not be negotiated.
    UpgradeError(String),
}

/// The description of an error, as a response body carries it.
pub open spec fn describe(e: ProxyError) -> Seq<char> {
    match e {
        ProxyError::InvalidUri(m) => "InvalidUri: "@ + m@,
        ProxyError::HyperError(m) => "HyperError: "@ + m@,
        ProxyError::HyperClientError { message, .. } => "HyperClientError: "@ + message@,
        ProxyError::ForwardHeaderError => "ForwardHeaderError"@,
        ProxyError::UpgradeError(m) => "UpgradeError: "@ + m@,
    }
}

fn owned(a: &str) -> (r: String)
    ensures
        r@ == a@,
{
    string_of(chars_of(a))
}

fn joined(a: &str, b: &str) -> (r: String)
    ensures
        r@ == a@ + b@,
{
    let mut v = chars_of(a);
    let w = chars_of(b);
    let mut i: usize = 0;
    let ghost start = v@;
    while i < w.len()
        invariant
            i <= w@.len(),
            v@ == start + w@.take(i as int),
        decreases w@.len() - i,
    {
        v.push(w[i]);
        i = i + 1;
        assert(v@ =~= start + w@.take(i as int));
    }
    assert(w@.take(w@.len() as int) =~= w@);
    string_of(v)
}

impl ProxyError {
    /// The error's description.
    pub fn describe(&self) -> (r: String)
        ensures
            r@ == describe(*self),
    {
        proof {
            reveal_strlit("InvalidUri: ");
            reveal_strlit("HyperError: ");
            reveal_strlit("HyperClientError: ");
            reveal_strlit("ForwardHeaderError");
            reveal_strlit("UpgradeError: ");
        }
        match self {
            ProxyError::InvalidUri(m) => joined("InvalidUri: ", m.as_str()),
            ProxyError::HyperError(m) => joined("HyperError: ", m.as_str()),
            ProxyError::HyperClientError { message, .. } => joined(
                "HyperClientError: ",
                message.as_str(),
            ),
            ProxyError::ForwardHeaderError => owned("ForwardHeaderError"),
            ProxyError::UpgradeError(m) => joined("UpgradeError: ", m.as_str()),
        }
    }
}

pub open spec fn kind_view(k: Option<&String>) -> Option<Seq<char>> {
    match k {
        Some(s) => Some(s@),
        None => None,
    }
}

pub open spec fn host_name() -> Seq<char> {
    seq!['h', 'o', 's', 't']
}

pub open spec fn forwarded_for_name() -> Seq<char> {
    seq!['x', '-', 'f', 'o', 'r', 'w', 'a', 'r', 'd', 'e', 'd', '-', 'f', 'o', 'r']
}

/// `trailers`, as header bytes.
pub open spec fn trailers_bytes() -> Seq<u8> {
    seq![116u8, 114, 97, 105, 108, 101, 114, 115]
}

/// `upgrade`, as header bytes.
pub open spec fn upgrade_bytes() -> Seq<u8> {
    seq![117u8, 112, 103, 114, 97, 100, 101]
}

/// `, `, the separator of a forwarding chain.
pub open spec fn chain_separator() -> Seq<u8> {
    seq![44u8, 32]
}

/// The outbound headers before the forwarding chain is extended: no `host`,
/// sanitized, `te: trailers` put back where the inbound `te` listed it, and
/// the upgrade headers put back where a protocol switch was asked for.
pub open spec fn rewritten(e: Map<Seq<char>, Seq<Seq<u8>>>, upgrade: Option<Seq<char>>) -> Map<
    Seq<char>,
    Seq<Seq<u8>>,
> {
    let s = sanitized(without(e, host_name()));
    let s1 = if wants_trailers(e) {
        s.insert(te_name(), seq![trailers_bytes()])
    } else {
        s
    };
    match upgrade {
        Some(u) => s1.insert(upgrade_name(), seq![encode_utf8(u)]).insert(
            connection_name(),
            seq![upgrade_bytes()],
        ),
        None => s1,
    }
}

/// The `x-forwarded-for` value sent on: the client address alone, or after
/// the chain that came in.
pub open spec fn forwarded_for(existing: Option<Seq<u8>>, client: Seq<u8>) -> Seq<u8> {
    match existing {
        Some(v) => v + chain_separator() + client,
        None => client,
    }
}

/// The outbound headers of a request with headers `e` from `client`.
pub open spec fn outbound_entries(
    e: Map<Seq<char>, Seq<Seq<u8>>>,
    client: Seq<char>,
    upgrade: Option<Seq<char>>,
) -> Map<Seq<char>, Seq<Seq<u8>>> {
    let r = rewritten(e, upgrade);
    r.insert(
        forwarded_for_name(),
        seq![forwarded_for(lookup(r, forwarded_for_name()), encode_utf8(client))],
    )
}

/// Whether the forwarding chain of the rewritten headers cannot be read as text.
pub open spec fn chain_unreadable(e: Map<Seq<char>, Seq<Seq<u8>>>, upgrade: Option<Seq<char>>) -> bool {
    match lookup(rewritten(e, upgrade), forwarded_for_name()) {
        Some(v) => !is_visible_text(v),
        None => false,
    }
}

proof fn lemma_names_canonical()
    ensures
        is_canonical_name(te_name()),
        is_canonical_name(upgrade_name()),
        is_canonical_name(connection_name()),
        is_canonical_name(host_name()),
        is_canonical_name(forwarded_for_name()),
{
    let names = seq![te_name(), upgrade_name(), connection_name(), host_name(), forwarded_for_name()];
    reveal_with_fuel(all_lower_tokens, 20);
    reveal_with_fuel(all_lower_names, 6);
    assert(all_lower_names(names));
    lemma_lower_names_canonical(names);
    assert(names[0] == te_name() && names[1] == upgrade_name() && names[2] == connection_name()
        && names[3] == host_name() && names[4] == forwarded_for_name());
}

/// Rewrites an inbound request from `client_ip`, with `path`, `query` and
/// `headers`, into one for the target `forward_url`: the headers are changed
/// in place, and the forward URI is returned both parsed and as text.
/// `upgrade_type` is the protocol switch that the inbound headers asked for.
/// The call fails with `InvalidUri` exactly where the forward URI does not
/// parse, and with `ForwardHeaderError` where the incoming forwarding chain is
/// not text or a value put back is not a valid header value. It succeeds
/// whenever neither holds and fewer than 6549 names are stored; beyond that
/// the collection may have no room left for a header.
pub fn create_proxied_request(
    client_ip: &str,
    forward_url: &str,
    path: &str,
    query: Option<&str>,
    headers: &mut HeaderMap,
    upgrade_type: Option<&String>,
) -> (r: Result<(http::Uri, String), ProxyError>)
    ensures
        ({
            let target = forward_uri_of(forward_url@, path@, query_view(query));
            let e = header_entries(*old(headers));
            let u = kind_view(upgrade_type);
            &&& (r matches Err(ProxyError::InvalidUri(_))) <==> !uri_accepts(target)
            &&& r matches Ok((_, text)) ==> text@ == target
            &&& r is Ok ==> header_entries(*final(headers)) == outbound_entries(e, client_ip@, u)
            &&& uri_accepts(target) && chain_unreadable(e, u) ==> (r matches Err(
                ProxyError::ForwardHeaderError,
            ))
            &&& uri_accepts(target) && !is_value_bytes(encode_utf8(client_ip@)) ==> (r matches Err(
                ProxyError::ForwardHeaderError,
            ))
            &&& r is Err ==> (r matches Err(ProxyError::InvalidUri(_))) || (r matches Err(
                ProxyError::ForwardHeaderError,
            ))
            &&& uri_accepts(target) && !chain_unreadable(e, u) && is_value_bytes(
                encode_utf8(client_ip@),
            ) && upgrade_storable(u) && e.dom().len() < 6549 ==> r is Ok
        }),
{
    let ghost e = header_entries(*headers);
    let ghost u = kind_view(upgrade_type);
    let ghost target_text = forward_uri_of(forward_url@, path@, query_view(query));
    let ghost owed = uri_accepts(target_text) && !chain_unreadable(e, u) && is_value_bytes(
        encode_utf8(client_ip@),
    ) && upgrade_storable(u) && e.dom().len() < 6549;
    proof {
        lemma_names_canonical();
        reveal_strlit("host");
        reveal_strlit("te");
        reveal_strlit("upgrade");
        reveal_strlit("connection");
        reveal_strlit("x-forwarded-for");
        assert("host"@ =~= host_name());
        assert("te"@ =~= te_name());
        assert("upgrade"@ =~= upgrade_name());
        assert("connection"@ =~= connection_name());
        assert("x-forwarded-for"@ =~= forwarded_for_name());
    }
    let names = header_names_count(headers);
    let trailers = requests_trailers(headers);
    let target = forward_uri(forward_url, path, query);
    let uri = match parse_uri(target.as_str()) {
        Ok(uri) => uri,
        Err(err) => {
            return Err(ProxyError::InvalidUri(invalid_uri_text(&err)));
        },
    };
    header_remove(headers, "host");
    proof {
        assert(header_entries(*headers).dom() =~= e.dom().remove(host_name()));
        lemma_sanitized_within(header_entries(*headers));
    }
    sanitize_headers(headers);
    assert(header_entries(*headers).dom().finite() && header_entries(*headers).dom().len()
        <= names);
    if trailers {
        let value: Vec<u8> = vec![116u8, 114, 97, 105, 108, 101, 114, 115];
        assert(value@ =~= trailers_bytes());
        assert(is_value_bytes(value@)) by {
            lemma_literal_values();
        }
        if !header_insert(headers, "te", value.as_slice()) {
            return Err(ProxyError::ForwardHeaderError);
        }
    }
    assert(header_entries(*headers).dom().finite() && header_entries(*headers).dom().len()
        <= names + 1);
    match upgrade_type {
        Some(kind) => {
            if !header_insert(headers, "upgrade", kind.as_str().as_bytes()) {
                return Err(ProxyError::ForwardHeaderError);
            }
            let value: Vec<u8> = vec![117u8, 112, 103, 114, 97, 100, 101];
            assert(value@ =~= upgrade_bytes());
            assert(is_value_bytes(value@)) by {
                lemma_literal_values();
            }
            if !header_insert(headers, "connection", value.as_slice()) {
                return Err(ProxyError::ForwardHeaderError);
            }
        },
        None => {},
    }
    assert(header_entries(*headers) == rewritten(e, u));
    assert(header_entries(*headers).dom().finite() && header_entries(*headers).dom().len()
        <= names + 3);
    let client = client_ip.as_bytes();
    let value: Vec<u8> = match header_first(headers, "x-forwarded-for") {
        None => vstd::slice::slice_to_vec(client),
        Some(chain) => {
            if text_of_value(&chain).is_none() {
                return Err(ProxyError::ForwardHeaderError);
            }
            let mut v = chain;
            v.push(44u8);
            v.push(32u8);
            let mut i: usize = 0;
            let ghost start = v@;
            while i < client.len()
                invariant
                    i <= client@.len(),
                    v@ == start + client@.take(i as int),
                decreases client@.len() - i,
            {
                v.push(client[i]);
                i = i + 1;
                assert(v@ =~= start + client@.take(i as int));
            }
            assert(client@.take(client@.len() as int) =~= client@);
            v
        },
    };
    let ghost existing = lookup(rewritten(e, u), forwarded_for_name());
    assert(value@ =~= forwarded_for(existing, encode_utf8(client_ip@)));
    proof {
        let c = encode_utf8(client_ip@);
        if !is_value_bytes(c) {
            let k = choose|k: int| 0 <= k < c.len() && !((32 <= #[trigger] c[k] && c[k] != 127) || c[k] == 9);
            let off = value@.len() - c.len();
            assert(value@[off + k] == c[k]);
        }
        if owed {
            assert forall|i: int| 0 <= i < value@.len() implies ((32 <= #[trigger] value@[i]
                && value@[i] != 127) || value@[i] == 9) by {
                match existing {
                    Some(ch) => {
                        if i < ch.len() {
                            assert(value@[i] == ch[i]);
                        } else if i >= ch.len() + 2 {
                            assert(value@[i] == c[i - ch.len() - 2]);
                        }
                    },
                    None => {
                        assert(value@[i] == c[i]);
                    },
                }
            }
        }
    }
    if !header_insert(headers, "x-forwarded-for", value.as_slice()) {
        return Err(ProxyError::ForwardHeaderError);
    }
    Ok((uri, target))
}

/// Whether the protocol to switch to, if any, can be stored as a header value.
pub open spec fn upgrade_storable(u: Option<Seq<char>>) -> bool {
    match u {
        Some(t) => is_value_bytes(encode_utf8(t)),
        None => true,
    }
}

proof fn lemma_literal_values()
    ensures
        is_value_bytes(trailers_bytes()),
        is_value_bytes(upgrade_bytes()),
{
    assert forall|i: int| 0 <= i < trailers_bytes().len() implies ((32 <= #[trigger] trailers_bytes()[i]
        && trailers_bytes()[i] != 127) || trailers_bytes()[i] == 9) by {
        assert(trailers_bytes()[i] >= 97);
    }
    assert forall|i: int| 0 <= i < upgrade_bytes().len() implies ((32 <= #[trigger] upgrade_bytes()[i]
        && upgrade_bytes()[i] != 127) || upgrade_bytes()[i] == 9) by {
        assert(upgrade_bytes()[i] >= 97);
    }
}

/// What to do with the backend's response.
pub enum ResponseAction {
    /// Relay the response, its headers sanitized.
    Forward,
    /// Return the response as it came and join the two upgraded connections.
    Tunnel,
}

/// An optional protocol name as the error messages show it.
pub open spec fn shown_kind(k: Option<Seq<char>>) -> Seq<char> {
    match k {
        Some(s) => "Some(\""@ + s + "\")"@,
        None => "None"@,
    }
}

/// The message of a protocol switch that differs from the one asked for.
pub open spec fn mismatch_message(response: Option<Seq<char>>, request: Option<Seq<char>>) -> Seq<
    char,
> {
    "backend tried to switch to protocol "@ + shown_kind(response) + " when "@ + shown_kind(request)
        + " was requested"@
}

fn show_kind(k: &Option<String>) -> (r: String)
    ensures
        r@ == shown_kind(string_view(*k)),
{
    match k {
        Some(s) => joined(joined("Some(\"", s.as_str()).as_str(), "\")"),
        None => owned("None"),
    }
}

fn same_kind(a: &Option<String>, b: &Option<String>) -> (r: bool)
    ensures
        r == (string_view(*a) == string_view(*b)),
{
    match (a, b) {
        (Some(x), Some(y)) => x.eq(y),
        (None, None) => true,
        _ => false,
    }
}

/// Decides what becomes of a backend response with `status` and `headers`,
/// for a request that asked for the protocol `request_upgrade` and whose
/// connection can (`has_upgrade_handle`) or cannot be taken over. A response
/// other than 101 is relayed with its headers sanitized; a 101 leaves the
/// headers as they are and opens a tunnel where both sides name the same
/// protocol and the inbound connection can be taken over.
pub fn handle_response(
    status: u16,
    request_upgrade: &Option<String>,
    headers: &mut HeaderMap,
    has_upgrade_handle: bool,
) -> (r: Result<ResponseAction, ProxyError>)
    ensures
        ({
            let e = header_entries(*old(headers));
            let asked = string_view(*request_upgrade);
            let offered = upgrade_type(e);
            &&& status != 101 ==> (r matches Ok(ResponseAction::Forward)) && header_entries(
                *final(headers),
            ) == sanitized(e)
            &&& status == 101 ==> header_entries(*final(headers)) == e
            &&& status == 101 && offered == asked && has_upgrade_handle ==> (r matches Ok(
                ResponseAction::Tunnel,
            ))
            &&& status == 101 && offered == asked && !has_upgrade_handle ==> (r matches Err(
                ProxyError::UpgradeError(m),
            ) && m@ == "request does not have an upgrade extension"@)
            &&& status == 101 && offered != asked ==> (r matches Err(ProxyError::UpgradeError(m))
                && m@ == mismatch_message(offered, asked))
        }),
{
    if status != 101 {
        sanitize_headers(headers);
        return Ok(ResponseAction::Forward);
    }
    let offered = get_upgrade_type(headers);
    if !same_kind(&offered, request_upgrade) {
        let m = joined(
            joined(
                joined(
                    joined("backend tried to switch to protocol ", show_kind(&offered).as_str()).as_str(),
                    " when ",
                ).as_str(),
                show_kind(request_upgrade).as_str(),
            ).as_str(),
            " was requested",
        );
        return Err(ProxyError::UpgradeError(m));
    }
    if !has_upgrade_handle {
        return Err(ProxyError::UpgradeError(owned("request does not have an upgrade extension")));
    }
    Ok(ResponseAction::Tunnel)
}

/// The status of the response that stands for `e`: 502 where no connection
/// to the backend could be made, 500 otherwise.
pub open spec fn status_for(e: ProxyError) -> u16 {
    match e {
        ProxyError::HyperClientError { is_connect, .. } => if is_connect {
            502
        } else {
            500
        },
        _ => 500,
    }
}

/// The body of the response that stands for `e`.
pub open spec fn body_for(e: ProxyError) -> Seq<char> {
    if status_for(e) == 502 {
        "Bad gateway. Is your dev server running?"@
    } else {
        describe(e)
    }
}

/// The status and body of the response that stands for `e`.
pub fn error_response(e: &ProxyError) -> (r: (u16, String))
    ensures
        r.0 == status_for(*e),
        r.1@ == body_for(*e),
{
    match e {
        ProxyError::HyperClientError { is_connect, .. } => {
            if *is_connect {
                return (502, owned("Bad gateway. Is your dev server running?"));
            }
        },
        _ => {},
    }
    (500, e.describe())
}

/// The outbound request carries `te: trailers` and nothing else under `te`
/// where the inbound `te` header listed `trailers`, and no `te` header at all
/// otherwise.
pub proof fn lemma_outbound_te(
    e: Map<Seq<char>, Seq<Seq<u8>>>,
    client: Seq<char>,
    upgrade: Option<Seq<char>>,
)
    ensures
        wants_trailers(e) ==> outbound_entries(e, client, upgrade).contains_key(te_name())
            && outbound_entries(e, client, upgrade)[te_name()] == seq![trailers_bytes()],
        !wants_trailers(e) ==> !outbound_entries(e, client, upgrade).contains_key(te_name()),
{
    lemma_sanitize_idempotent(without(e, host_name()));
    assert(is_hop_name(te_name())) by {
        assert(hop_names()[1] == te_name());
    }
    assert(te_name() != upgrade_name()) by {
        assert(te_name().len() != upgrade_name().len());
    }
    assert(te_name() != connection_name()) by {
        assert(te_name().len() != connection_name().len());
    }
    assert(te_name() != forwarded_for_name()) by {
        assert(te_name().len() != forwarded_for_name().len());
    }
}

/// The message of a mismatched protocol switch names both protocols: the
/// offered one right after the opening words, the asked one after `when`.
pub proof fn lemma_mismatch_names_both(offered: Seq<char>, asked: Seq<char>)
    ensures
        ({
            let m = mismatch_message(Some(offered), Some(asked));
            let i = ("backend tried to switch to protocol "@.len() + "Some(\""@.len()) as int;
            let j = i + offered.len() + "\")"@.len() + " when "@.len() + "Some(\""@.len();
            &&& m.subrange(i, i + offered.len()) == offered
            &&& m.subrange(j, j + asked.len()) == asked
        }),
{
    let a = "backend tried to switch to protocol "@;
    let b = "Some(\""@;
    let c = "\")"@;
    let d = " when "@;
    let e = " was requested"@;
    let m = mismatch_message(Some(offered), Some(asked));
    assert(m =~= a + b + offered + c + d + b + asked + c + e);
    let i = (a.len() + b.len()) as int;
    let j = i + offered.len() + c.len() + d.len() + b.len();
    assert(m.subrange(i, i + offered.len()) =~= offered);
    assert(m.subrange(j, j + asked.len()) =~= asked);
}

} // verus!
