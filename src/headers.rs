//! Header collections: the model of `http::HeaderMap` that the contracts speak
//! of, the calls made on it, and the hop-by-hop header sanitizer.
use vstd::prelude::*;
use http::HeaderMap;
use crate::text::{
    chars_of, is_visible_text, split_chars, split_on, string_of, text_of, text_of_value, trim,
    trim_chars, views,
};

verus! {

#[verifier::external_type_specification]
#[verifier::external_body]
#[verifier::reject_recursive_types(T)]
pub struct ExHeaderMap<T>(HeaderMap<T>);

#[verifier::external_type_specification]
#[verifier::external_body]
pub struct ExHeaderValue(http::HeaderValue);

/// What a header collection holds: for each (lower-case) header name, its
/// values in the order they were added, as bytes.
pub uninterp spec fn header_entries(m: HeaderMap) -> Map<Seq<char>, Seq<Seq<u8>>>;

/// The characters allowed in a header name.
pub open spec fn is_token_char(c: char) -> bool {
    ('a' <= c && c <= 'z') || ('A' <= c && c <= 'Z') || ('0' <= c && c <= '9') || c == '!'
        || c == '#' || c == '$' || c == '%' || c == '&' || c == '\'' || c == '*' || c == '+'
        || c == '-' || c == '.' || c == '^' || c == '_' || c == '`' || c == '|' || c == '~'
}

pub open spec fn lower_char(c: char) -> char {
    if 'A' <= c && c <= 'Z' {
        ((c as u8) + 32) as u8 as char
    } else {
        c
    }
}

/// The key under which a collection files the name `s`: its lower-case form,
/// where `s` is a header name at all.
pub open spec fn header_key(s: Seq<char>) -> Option<Seq<char>> {
    if 1 <= s.len() <= 65535 && forall|i: int| 0 <= i < s.len() ==> is_token_char(#[trigger] s[i]) {
        Some(Seq::new(s.len(), |i: int| lower_char(s[i])))
    } else {
        None
    }
}

/// A name that is its own key.
pub open spec fn is_canonical_name(s: Seq<char>) -> bool {
    header_key(s) == Some(s)
}

/// The first value stored under `name`.
pub open spec fn lookup(e: Map<Seq<char>, Seq<Seq<u8>>>, name: Seq<char>) -> Option<Seq<u8>> {
    match header_key(name) {
        Some(k) => if e.contains_key(k) {
            Some(e[k][0])
        } else {
            None
        },
        None => None,
    }
}

/// `e` without the values stored under `name`.
pub open spec fn without(e: Map<Seq<char>, Seq<Seq<u8>>>, name: Seq<char>) -> Map<
    Seq<char>,
    Seq<Seq<u8>>,
> {
    match header_key(name) {
        Some(k) => e.remove(k),
        None => e,
    }
}

/// The bytes that a header value may hold.
pub open spec fn is_value_bytes(b: Seq<u8>) -> bool {
    forall|i: int| 0 <= i < b.len() ==> ((32 <= #[trigger] b[i] && b[i] != 127) || b[i] == 9)
}

pub open spec fn bytes_view(r: Option<Vec<u8>>) -> Option<Seq<u8>> {
    match r {
        Some(v) => Some(v@),
        None => None,
    }
}

/// Relies on `HeaderMap::get` with a `&str` key, which parses the name as
/// `header_key` states, and on `HeaderValue::as_bytes`.
#[verifier::external_body]
pub(crate) fn header_first(m: &HeaderMap, name: &str) -> (r: Option<Vec<u8>>)
    ensures
        bytes_view(r) == lookup(header_entries(*m), name@),
{
    m.get(name).map(|v| v.as_bytes().to_vec())
}

/// Relies on `HeaderMap::remove` with a `&str` key: every value stored under
/// the name goes.
#[verifier::external_body]
pub(crate) fn header_remove(m: &mut HeaderMap, name: &str)
    ensures
        header_entries(*final(m)) == without(header_entries(*old(m)), name@),
{
    m.remove(name);
}

/// Whether `e` holds finitely many names, `n` of them.
pub open spec fn names_counted(e: Map<Seq<char>, Seq<Seq<u8>>>, n: nat) -> bool {
    e.dom().finite() && e.dom().len() == n
}

/// Relies on `HeaderMap::keys_len`: the number of distinct names stored,
/// of which there are finitely many.
#[verifier::external_body]
pub(crate) fn header_names_count(m: &HeaderMap) -> (n: usize)
    ensures
        names_counted(header_entries(*m), n as nat),
{
    m.keys_len()
}

/// Relies on `HeaderValue::from_bytes`, which accepts exactly the bytes of
/// `is_value_bytes`, and on `HeaderMap::try_insert`, which replaces every value
/// stored under the name. `try_insert` fails only where its index table would
/// have to grow past 32768 slots, which cannot happen while fewer than 6553
/// names are stored.
#[verifier::external_body]
pub(crate) fn header_insert(m: &mut HeaderMap, name: &'static str, value: &[u8]) -> (ok: bool)
    requires
        is_canonical_name(name@),
    ensures
        ok ==> is_value_bytes(value@),
        ok ==> header_entries(*final(m)) == header_entries(*old(m)).insert(name@, seq![value@]),
        !is_value_bytes(value@) ==> !ok,
        header_entries(*old(m)).dom().finite() && header_entries(*old(m)).dom().len() < 6553
            && is_value_bytes(value@) ==> ok,
{
    match http::HeaderValue::from_bytes(value) {
        Ok(v) => m.try_insert(name, v).is_ok(),
        Err(_) => false,
    }
}


pub open spec fn is_lower_token(c: char) -> bool {
    is_token_char(c) && !('A' <= c && c <= 'Z')
}

pub open spec fn all_lower_tokens(s: Seq<char>) -> bool
    decreases s.len(),
{
    s.len() == 0 || (is_lower_token(s[0]) && all_lower_tokens(s.drop_first()))
}

pub proof fn lemma_lower_is_canonical(s: Seq<char>)
    requires
        1 <= s.len() <= 65535,
        all_lower_tokens(s),
    ensures
        is_canonical_name(s),
    decreases s.len(),
{
    assert forall|i: int| 0 <= i < s.len() implies is_lower_token(#[trigger] s[i]) by {
        lemma_all_lower_at(s, i);
    }
    assert(Seq::new(s.len(), |i: int| lower_char(s[i])) =~= s);
}

proof fn lemma_all_lower_at(s: Seq<char>, i: int)
    requires
        all_lower_tokens(s),
        0 <= i < s.len(),
    ensures
        is_lower_token(s[i]),
    decreases i,
{
    if i > 0 {
        lemma_all_lower_at(s.drop_first(), i - 1);
    }
}

pub open spec fn connection_name() -> Seq<char> {
    seq!['c', 'o', 'n', 'n', 'e', 'c', 't', 'i', 'o', 'n']
}

pub open spec fn te_name() -> Seq<char> {
    seq!['t', 'e']
}

pub open spec fn upgrade_name() -> Seq<char> {
    seq!['u', 'p', 'g', 'r', 'a', 'd', 'e']
}

/// The hop-by-hop headers: meaningful for one connection only, never forwarded.
pub open spec fn hop_names() -> Seq<Seq<char>> {
    seq![
        connection_name(),
        te_name(),
        seq!['t', 'r', 'a', 'i', 'l', 'e', 'r'],
        seq!['k', 'e', 'e', 'p', '-', 'a', 'l', 'i', 'v', 'e'],
        seq!['p', 'r', 'o', 'x', 'y', '-', 'c', 'o', 'n', 'n', 'e', 'c', 't', 'i', 'o', 'n'],
        seq!['p', 'r', 'o', 'x', 'y', '-', 'a', 'u', 't', 'h', 'e', 'n', 't', 'i', 'c', 'a', 't', 'e'],
        seq!['p', 'r', 'o', 'x', 'y', '-', 'a', 'u', 't', 'h', 'o', 'r', 'i', 'z', 'a', 't', 'i', 'o', 'n'],
        seq!['t', 'r', 'a', 'n', 's', 'f', 'e', 'r', '-', 'e', 'n', 'c', 'o', 'd', 'i', 'n', 'g'],
        upgrade_name(),
    ]
}

pub open spec fn is_hop_name(k: Seq<char>) -> bool {
    hop_names().contains(k)
}

/// Whether every one of `names` is a lower-case header name.
pub open spec fn all_lower_names(names: Seq<Seq<char>>) -> bool
    decreases names.len(),
{
    names.len() == 0 || (1 <= names[0].len() <= 65535 && all_lower_tokens(names[0])
        && all_lower_names(names.drop_first()))
}

/// Lower-case header names are their own keys.
pub proof fn lemma_lower_names_canonical(names: Seq<Seq<char>>)
    requires
        all_lower_names(names),
    ensures
        forall|j: int| 0 <= j < names.len() ==> is_canonical_name(#[trigger] names[j]),
    decreases names.len(),
{
    if names.len() > 0 {
        lemma_lower_names_canonical(names.drop_first());
        lemma_lower_is_canonical(names[0]);
        assert forall|j: int| 0 <= j < names.len() implies is_canonical_name(#[trigger] names[j]) by {
            if j > 0 {
                assert(names[j] == names.drop_first()[j - 1]);
            }
        }
    }
}

pub proof fn lemma_hop_names_canonical()
    ensures
        forall|j: int| 0 <= j < 9 ==> is_canonical_name(#[trigger] hop_names()[j]),
        hop_names().len() == 9,
{
    reveal_with_fuel(all_lower_tokens, 20);
    reveal_with_fuel(all_lower_names, 10);
    assert(all_lower_names(hop_names()));
    lemma_lower_names_canonical(hop_names());
}

/// The `i`-th hop-by-hop header name.
fn hop_name(i: usize) -> (r: &'static str)
    requires
        i < 9,
    ensures
        r@ == hop_names()[i as int],
{
    proof {
        reveal_strlit("connection");
        reveal_strlit("te");
        reveal_strlit("trailer");
        reveal_strlit("keep-alive");
        reveal_strlit("proxy-connection");
        reveal_strlit("proxy-authenticate");
        reveal_strlit("proxy-authorization");
        reveal_strlit("transfer-encoding");
        reveal_strlit("upgrade");
    }
    if i == 0 {
        "connection"
    } else if i == 1 {
        "te"
    } else if i == 2 {
        "trailer"
    } else if i == 3 {
        "keep-alive"
    } else if i == 4 {
        "proxy-connection"
    } else if i == 5 {
        "proxy-authenticate"
    } else if i == 6 {
        "proxy-authorization"
    } else if i == 7 {
        "transfer-encoding"
    } else {
        "upgrade"
    }
}

/// `e` without the hop-by-hop headers.
pub open spec fn without_hop(e: Map<Seq<char>, Seq<Seq<u8>>>) -> Map<Seq<char>, Seq<Seq<u8>>> {
    Map::new(|k: Seq<char>| e.contains_key(k) && !is_hop_name(k), |k: Seq<char>| e[k])
}

/// The pieces of the first `connection` value, split at commas.
pub open spec fn connection_pieces(e: Map<Seq<char>, Seq<Seq<u8>>>) -> Seq<Seq<char>> {
    value_pieces(e, connection_name())
}

/// Whether one of `pieces`, trimmed, names the header filed under `k`.
pub open spec fn names_listed(pieces: Seq<Seq<char>>, k: Seq<char>) -> bool {
    exists|j: int| 0 <= j < pieces.len() && header_key(trim(#[trigger] pieces[j])) == Some(k)
}

/// `e` without the headers that `pieces` name.
pub open spec fn without_listed(e: Map<Seq<char>, Seq<Seq<u8>>>, pieces: Seq<Seq<char>>) -> Map<
    Seq<char>,
    Seq<Seq<u8>>,
> {
    Map::new(|k: Seq<char>| e.contains_key(k) && !names_listed(pieces, k), |k: Seq<char>| e[k])
}

/// What the sanitizer leaves of `e`: no hop-by-hop header, and none that the
/// `connection` header names.
pub open spec fn sanitized(e: Map<Seq<char>, Seq<Seq<u8>>>) -> Map<Seq<char>, Seq<Seq<u8>>> {
    without_listed(without_hop(e), connection_pieces(e))
}

/// Removes every hop-by-hop header.
pub fn remove_hop_headers(headers: &mut HeaderMap)
    ensures
        header_entries(*final(headers)) == without_hop(header_entries(*old(headers))),
{
    let ghost e0 = header_entries(*headers);
    proof {
        lemma_hop_names_canonical();
        assert(header_entries(*headers) =~= Map::new(
            |k: Seq<char>| e0.contains_key(k) && !hop_names().take(0).contains(k),
            |k: Seq<char>| e0[k],
        ));
    }
    let mut i: usize = 0;
    while i < 9
        invariant
            i <= 9,
            hop_names().len() == 9,
            forall|j: int| 0 <= j < 9 ==> is_canonical_name(#[trigger] hop_names()[j]),
            header_entries(*headers) == Map::new(
                |k: Seq<char>| e0.contains_key(k) && !hop_names().take(i as int).contains(k),
                |k: Seq<char>| e0[k],
            ),
        decreases 9 - i,
    {
        let name = hop_name(i);
        header_remove(headers, name);
        proof {
            assert(header_key(name@) == Some(name@));
            let t0 = hop_names().take(i as int);
            assert(hop_names().take(i + 1) =~= t0.push(name@));
            assert forall|k: Seq<char>| #![auto]
                t0.push(name@).contains(k) <==> (t0.contains(k) || k == name@) by {
                if t0.contains(k) {
                    let x = choose|x: int| 0 <= x < t0.len() && t0[x] == k;
                    assert(t0.push(name@)[x] == k);
                }
                if k == name@ {
                    assert(t0.push(name@)[t0.len() as int] == k);
                }
                if t0.push(name@).contains(k) {
                    let x = choose|x: int| 0 <= x < t0.len() + 1 && t0.push(name@)[x] == k;
                    if x < t0.len() {
                        assert(t0[x] == k);
                    }
                }
            }
            assert(header_entries(*headers) =~= Map::new(
                |k: Seq<char>| e0.contains_key(k) && !hop_names().take(i + 1).contains(k),
                |k: Seq<char>| e0[k],
            ));
        }
        i = i + 1;
    }
    assert(hop_names().take(9) =~= hop_names());
    assert(header_entries(*headers) =~= without_hop(e0));
}

proof fn lemma_listed_push(pieces: Seq<Seq<char>>, p: Seq<char>, k: Seq<char>)
    ensures
        names_listed(pieces.push(p), k) <==> (names_listed(pieces, k) || header_key(trim(p))
            == Some(k)),
{
    let q = pieces.push(p);
    if names_listed(pieces, k) {
        let j = choose|j: int| 0 <= j < pieces.len() && header_key(trim(#[trigger] pieces[j])) == Some(k);
        assert(q[j] == pieces[j]);
    }
    if header_key(trim(p)) == Some(k) {
        assert(q[pieces.len() as int] == p);
    }
    if names_listed(q, k) {
        let j = choose|j: int| 0 <= j < q.len() && header_key(trim(#[trigger] q[j])) == Some(k);
        if j < pieces.len() {
            assert(q[j] == pieces[j]);
        }
    }
}

/// Removes every header that one of `pieces` names, each piece trimmed of
/// blanks; empty pieces name nothing.
pub fn remove_connection_headers(headers: &mut HeaderMap, pieces: &Vec<Vec<char>>)
    ensures
        header_entries(*final(headers)) == without_listed(header_entries(*old(headers)), views(pieces@)),
{
    let ghost e0 = header_entries(*headers);
    assert(header_entries(*headers) =~= without_listed(e0, views(pieces@).take(0)));
    let mut j: usize = 0;
    while j < pieces.len()
        invariant
            j <= pieces@.len(),
            header_entries(*headers) == without_listed(e0, views(pieces@).take(j as int)),
        decreases pieces@.len() - j,
    {
        let t = trim_chars(&pieces[j]);
        let ghost before = header_entries(*headers);
        if t.len() > 0 {
            let name = string_of(t);
            header_remove(headers, name.as_str());
        }
        proof {
            let p = views(pieces@)[j as int];
            assert(views(pieces@).take(j + 1) =~= views(pieces@).take(j as int).push(p));
            assert forall|k: Seq<char>| #![auto]
                names_listed(views(pieces@).take(j + 1), k) <==> (names_listed(
                    views(pieces@).take(j as int),
                    k,
                ) || header_key(trim(p)) == Some(k)) by {
                lemma_listed_push(views(pieces@).take(j as int), p, k);
            }
            assert(header_entries(*headers) =~= without_listed(e0, views(pieces@).take(j + 1)));
        }
        j = j + 1;
    }
    assert(views(pieces@).take(pieces@.len() as int) =~= views(pieces@));
}

/// The header sanitizer: removes the hop-by-hop headers, and the headers that
/// the `connection` header names, as that header read before the removal.
pub fn sanitize_headers(headers: &mut HeaderMap)
    ensures
        header_entries(*final(headers)) == sanitized(header_entries(*old(headers))),
{
    proof {
        reveal_strlit("connection");
        assert("connection"@ =~= connection_name());
    }
    let pieces = value_pieces_exec(headers, "connection");
    remove_hop_headers(headers);
    remove_connection_headers(headers, &pieces);
}

/// Sanitizing twice leaves what sanitizing once left, and no hop-by-hop
/// header survives.
pub proof fn lemma_sanitize_idempotent(e: Map<Seq<char>, Seq<Seq<u8>>>)
    ensures
        sanitized(sanitized(e)) == sanitized(e),
        forall|k: Seq<char>| is_hop_name(k) ==> !(#[trigger] sanitized(e).contains_key(k)),
{
    lemma_hop_names_canonical();
    let s = sanitized(e);
    assert(is_hop_name(connection_name())) by {
        assert(hop_names()[0] == connection_name());
    }
    assert(lookup(s, connection_name()) is None);
    assert(connection_pieces(s) =~= Seq::<Seq<char>>::empty());
    assert(without_hop(s) =~= s);
    assert(without_listed(without_hop(s), Seq::<Seq<char>>::empty()) =~= without_hop(s));
}

/// `s` with its ASCII capitals made small.
pub open spec fn lowered(s: Seq<char>) -> Seq<char> {
    Seq::new(s.len(), |i: int| lower_char(s[i]))
}

/// Whether the trimmed piece `p` is the word `w`; where `fold`, letter case
/// is ignored.
pub open spec fn piece_is(p: Seq<char>, w: Seq<char>, fold: bool) -> bool {
    if fold {
        lowered(trim(p)) == w
    } else {
        trim(p) == w
    }
}

pub open spec fn lists_word(pieces: Seq<Seq<char>>, w: Seq<char>, fold: bool) -> bool {
    exists|j: int| 0 <= j < pieces.len() && piece_is(#[trigger] pieces[j], w, fold)
}

fn lower_char_exec(c: char) -> (r: char)
    ensures
        r == lower_char(c),
{
    if 'A' <= c && c <= 'Z' {
        ((c as u8) + 32) as char
    } else {
        c
    }
}

/// Whether the trimmed piece `p` is the word `w`, ignoring letter case where
/// `fold`.
fn piece_is_exec(p: &Vec<char>, w: &Vec<char>, fold: bool) -> (r: bool)
    ensures
        r == piece_is(p@, w@, fold),
{
    let t = trim_chars(p);
    if t.len() != w.len() {
        proof {
            if fold {
                assert(lowered(t@).len() != w@.len());
            }
        }
        return false;
    }
    let mut i: usize = 0;
    while i < t.len()
        invariant
            i <= t@.len(),
            t@.len() == w@.len(),
            t@ == trim(p@),
            forall|k: int| 0 <= k < i ==> (if fold { lower_char(t@[k]) } else { t@[k] }) == w@[k],
        decreases t@.len() - i,
    {
        let c = if fold { lower_char_exec(t[i]) } else { t[i] };
        if c != w[i] {
            proof {
                if fold {
                    assert(lowered(t@)[i as int] != w@[i as int]);
                } else {
                    assert(t@[i as int] != w@[i as int]);
                }
            }
            return false;
        }
        i = i + 1;
    }
    proof {
        if fold {
            assert(lowered(t@) =~= w@);
        } else {
            assert(t@ =~= w@);
        }
    }
    true
}

/// Whether one of `pieces` is the word `w`.
fn lists_word_exec(pieces: &Vec<Vec<char>>, w: &Vec<char>, fold: bool) -> (r: bool)
    ensures
        r == lists_word(views(pieces@), w@, fold),
{
    let mut j: usize = 0;
    while j < pieces.len()
        invariant
            j <= pieces@.len(),
            forall|k: int| 0 <= k < j ==> !piece_is(#[trigger] views(pieces@)[k], w@, fold),
        decreases pieces@.len() - j,
    {
        if piece_is_exec(&pieces[j], w, fold) {
            assert(piece_is(views(pieces@)[j as int], w@, fold));
            return true;
        }
        j = j + 1;
    }
    false
}

/// The pieces of the first value under `name`, split at commas; none where
/// there is no such header or its value does not read as text.
pub open spec fn value_pieces(e: Map<Seq<char>, Seq<Seq<u8>>>, name: Seq<char>) -> Seq<Seq<char>> {
    match lookup(e, name) {
        Some(v) => if is_visible_text(v) {
            split_on(text_of(v), ',')
        } else {
            seq![]
        },
        None => seq![],
    }
}

fn value_pieces_exec(headers: &HeaderMap, name: &str) -> (r: Vec<Vec<char>>)
    ensures
        views(r@) == value_pieces(header_entries(*headers), name@),
{
    let empty: Vec<Vec<char>> = Vec::new();
    assert(views(empty@) =~= Seq::<Seq<char>>::empty());
    match header_first(headers, name) {
        Some(v) => match text_of_value(&v) {
            Some(t) => split_chars(&t, ','),
            None => empty,
        },
        None => empty,
    }
}

pub open spec fn trailers_word() -> Seq<char> {
    seq!['t', 'r', 'a', 'i', 'l', 'e', 'r', 's']
}

/// Whether the `te` header lists `trailers` (letter case counts).
pub open spec fn wants_trailers(e: Map<Seq<char>, Seq<Seq<u8>>>) -> bool {
    lists_word(value_pieces(e, te_name()), trailers_word(), false)
}

/// Whether the `te` header lists `trailers`, letter case counting.
pub fn requests_trailers(headers: &HeaderMap) -> (r: bool)
    ensures
        r == wants_trailers(header_entries(*headers)),
{
    proof {
        reveal_strlit("te");
        assert("te"@ =~= te_name());
    }
    let pieces = value_pieces_exec(headers, "te");
    let word = chars_of("trailers");
    proof {
        reveal_strlit("trailers");
        assert(word@ =~= trailers_word());
    }
    lists_word_exec(&pieces, &word, false)
}

/// The protocol that headers ask to switch to: the `upgrade` header's first
/// value, where the `connection` header lists `upgrade` in any letter case and
/// that value reads as text.
pub open spec fn upgrade_type(e: Map<Seq<char>, Seq<Seq<u8>>>) -> Option<Seq<char>> {
    if lists_word(connection_pieces(e), upgrade_name(), true) {
        match lookup(e, upgrade_name()) {
            Some(v) => if is_visible_text(v) {
                Some(text_of(v))
            } else {
                None
            },
            None => None,
        }
    } else {
        None
    }
}

pub open spec fn string_view(r: Option<String>) -> Option<Seq<char>> {
    match r {
        Some(s) => Some(s@),
        None => None,
    }
}

/// The protocol that `headers` ask to switch to, if any.
pub fn get_upgrade_type(headers: &HeaderMap) -> (r: Option<String>)
    ensures
        string_view(r) == upgrade_type(header_entries(*headers)),
{
    proof {
        reveal_strlit("connection");
        reveal_strlit("upgrade");
        assert("connection"@ =~= connection_name());
        assert("upgrade"@ =~= upgrade_name());
    }
    let pieces = value_pieces_exec(headers, "connection");
    let word = chars_of("upgrade");
    if !lists_word_exec(&pieces, &word, true) {
        return None;
    }
    match header_first(headers, "upgrade") {
        Some(v) => match text_of_value(&v) {
            Some(t) => Some(string_of(t)),
            None => None,
        },
        None => None,
    }
}

} // verus!

verus! {

/// The sanitizer only takes names away.
pub proof fn lemma_sanitized_within(e: Map<Seq<char>, Seq<Seq<u8>>>)
    requires
        e.dom().finite(),
    ensures
        sanitized(e).dom().finite(),
        sanitized(e).dom().len() <= e.dom().len(),
{
    assert(sanitized(e).dom().subset_of(e.dom()));
    vstd::set_lib::lemma_len_subset(sanitized(e).dom(), e.dom());
}

} // verus!
