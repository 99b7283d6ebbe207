//! The forward URI: the configured target joined with the inbound path, and
//! the two query strings reconciled.
use vstd::prelude::*;
use crate::text::{chars_of, split_chars, split_on, string_of, views};

verus! {

/// The part of `s` before its first `c` (all of `s` where there is none).
pub open spec fn before_first(s: Seq<char>, c: char) -> Seq<char>
    decreases s.len(),
{
    if s.len() == 0 || s[0] == c {
        Seq::<char>::empty()
    } else {
        seq![s[0]] + before_first(s.drop_first(), c)
    }
}

/// The part of `s` after its first `c` (empty where there is none).
pub open spec fn after_first(s: Seq<char>, c: char) -> Seq<char>
    decreases s.len(),
{
    if s.len() == 0 {
        Seq::<char>::empty()
    } else if s[0] == c {
        s.drop_first()
    } else {
        after_first(s.drop_first(), c)
    }
}

proof fn lemma_first_at(s: Seq<char>, c: char, idx: int)
    requires
        0 <= idx <= s.len(),
        forall|k: int| 0 <= k < idx ==> s[k] != c,
        idx == s.len() || s[idx] == c,
    ensures
        before_first(s, c) == s.take(idx),
        after_first(s, c) == (if idx < s.len() { s.skip(idx + 1) } else { Seq::<char>::empty() }),
    decreases idx,
{
    if idx == 0 {
        assert(s.take(0) =~= Seq::<char>::empty());
        if s.len() > 0 {
            assert(s.skip(1) =~= s.drop_first());
        }
    } else {
        let t = s.drop_first();
        assert forall|k: int| 0 <= k < idx - 1 implies t[k] != c by {
            assert(t[k] == s[k + 1]);
        }
        lemma_first_at(t, c, idx - 1);
        assert(s.take(idx) =~= seq![s[0]] + t.take(idx - 1));
        if idx < s.len() {
            assert(s.skip(idx + 1) =~= t.skip(idx));
        }
    }
}

/// Where the first `c` of `s` stands, or the length of `s` where there is none.
fn first_index(s: &Vec<char>, c: char) -> (r: usize)
    ensures
        r <= s@.len(),
        before_first(s@, c) == s@.take(r as int),
        after_first(s@, c) == (if r < s@.len() { s@.skip(r + 1) } else { Seq::<char>::empty() }),
{
    let mut i: usize = 0;
    while i < s.len() && s[i] != c
        invariant
            i <= s@.len(),
            forall|k: int| 0 <= k < i ==> s@[k] != c,
        decreases s@.len() - i,
    {
        i = i + 1;
    }
    proof {
        lemma_first_at(s@, c, i as int);
    }
    i
}

fn copy_range(out: &mut Vec<char>, s: &Vec<char>, from: usize, to: usize)
    requires
        from <= to <= s@.len(),
    ensures
        final(out)@ == old(out)@ + s@.subrange(from as int, to as int),
{
    let ghost start = out@;
    let mut k: usize = from;
    while k < to
        invariant
            from <= k <= to,
            to <= s@.len(),
            out@ == start + s@.subrange(from as int, k as int),
        decreases to - k,
    {
        out.push(s[k]);
        k = k + 1;
        assert(out@ =~= start + s@.subrange(from as int, k as int));
    }
}

fn push_all(out: &mut Vec<char>, s: &Vec<char>)
    ensures
        final(out)@ == old(out)@ + s@,
{
    copy_range(out, s, 0, s.len());
    assert(s@.subrange(0, s@.len() as int) =~= s@);
}

fn same_chars(a: &Vec<char>, b: &Vec<char>) -> (r: bool)
    ensures
        r == (a@ == b@),
{
    if a.len() != b.len() {
        return false;
    }
    let mut i: usize = 0;
    while i < a.len()
        invariant
            i <= a@.len(),
            a@.len() == b@.len(),
            forall|k: int| 0 <= k < i ==> a@[k] == b@[k],
        decreases a@.len() - i,
    {
        if a[i] != b[i] {
            return false;
        }
        i = i + 1;
    }
    assert(a@ =~= b@);
    true
}

/// `p` without one trailing `/`.
pub open spec fn strip_slash(p: Seq<char>) -> Seq<char> {
    if p.len() > 0 && p.last() == '/' {
        p.drop_last()
    } else {
        p
    }
}

/// The keys of a query: each `&`-separated pair up to its first `=`.
pub open spec fn query_keys(q: Seq<char>) -> Seq<Seq<char>> {
    split_on(q, '&').map_values(|p: Seq<char>| before_first(p, '='))
}

/// The `&`-separated pairs of an inbound query; an empty query has none.
pub open spec fn query_pairs(q: Seq<char>) -> Seq<Seq<char>> {
    if q.len() == 0 {
        Seq::<Seq<char>>::empty()
    } else {
        split_on(q, '&')
    }
}

/// What the inbound pairs add after the configured query: `&key=value` for
/// each pair whose key the configured query lacks, in order.
pub open spec fn added_pairs(pairs: Seq<Seq<char>>, keys: Seq<Seq<char>>) -> Seq<char>
    decreases pairs.len(),
{
    if pairs.len() == 0 {
        Seq::<char>::empty()
    } else {
        let p = pairs.last();
        let key = before_first(p, '=');
        added_pairs(pairs.drop_last(), keys) + if keys.contains(key) {
            Seq::<char>::empty()
        } else {
            seq!['&'] + key + seq!['='] + after_first(p, '=')
        }
    }
}

/// `s` without one trailing `&`.
pub open spec fn strip_amp(s: Seq<char>) -> Seq<char> {
    if s.len() > 0 && s.last() == '&' {
        s.drop_last()
    } else {
        s
    }
}

/// The forward URI for the configured target `url` and an inbound request
/// with `path` and `query`.
pub open spec fn forward_uri_of(url: Seq<char>, path: Seq<char>, query: Seq<char>) -> Seq<char> {
    let base = strip_slash(before_first(url, '?')) + path;
    let target_query = after_first(url, '?');
    if target_query.len() == 0 && query.len() == 0 {
        base
    } else if target_query.len() == 0 {
        base + seq!['?'] + query
    } else {
        strip_amp(
            base + seq!['?'] + target_query + added_pairs(query_pairs(query), query_keys(target_query)),
        )
    }
}

pub open spec fn query_view(q: Option<&str>) -> Seq<char> {
    match q {
        Some(s) => s@,
        None => Seq::<char>::empty(),
    }
}

fn contains_key(keys: &Vec<Vec<char>>, key: &Vec<char>) -> (r: bool)
    ensures
        r == views(keys@).contains(key@),
{
    let mut j: usize = 0;
    while j < keys.len()
        invariant
            j <= keys@.len(),
            forall|k: int| 0 <= k < j ==> views(keys@)[k] != key@,
        decreases keys@.len() - j,
    {
        if same_chars(&keys[j], key) {
            assert(views(keys@)[j as int] == key@);
            return true;
        }
        j = j + 1;
    }
    false
}

/// The keys of the configured query.
fn keys_of(q: &Vec<char>) -> (r: Vec<Vec<char>>)
    ensures
        views(r@) == query_keys(q@),
{
    let pairs = split_chars(q, '&');
    let mut keys: Vec<Vec<char>> = Vec::new();
    let mut j: usize = 0;
    while j < pairs.len()
        invariant
            j <= pairs@.len(),
            views(keys@) == views(pairs@).take(j as int).map_values(
                |p: Seq<char>| before_first(p, '='),
            ),
        decreases pairs@.len() - j,
    {
        let p = &pairs[j];
        let at = first_index(p, '=');
        let mut key: Vec<char> = Vec::new();
        copy_range(&mut key, p, 0, at);
        assert(key@ =~= p@.take(at as int));
        let ghost prev = views(keys@);
        keys.push(key);
        assert(views(keys@) =~= prev.push(before_first(views(pairs@)[j as int], '=')));
        assert(views(pairs@).take(j + 1) =~= views(pairs@).take(j as int).push(views(pairs@)[j as int]));
        j = j + 1;
        assert(views(keys@) =~= views(pairs@).take(j as int).map_values(
            |p: Seq<char>| before_first(p, '='),
        ));
    }
    assert(views(pairs@).take(pairs@.len() as int) =~= views(pairs@));
    keys
}

/// Appends `&key=value` for each inbound pair whose key is not among `keys`.
fn add_pairs(out: &mut Vec<char>, pairs: &Vec<Vec<char>>, keys: &Vec<Vec<char>>)
    ensures
        final(out)@ == old(out)@ + added_pairs(views(pairs@), views(keys@)),
{
    let ghost start = out@;
    let mut j: usize = 0;
    assert(views(pairs@).take(0) =~= Seq::<Seq<char>>::empty());
    assert(out@ =~= start + added_pairs(views(pairs@).take(0), views(keys@)));
    while j < pairs.len()
        invariant
            j <= pairs@.len(),
            out@ == start + added_pairs(views(pairs@).take(j as int), views(keys@)),
        decreases pairs@.len() - j,
    {
        let p = &pairs[j];
        let at = first_index(p, '=');
        let mut key: Vec<char> = Vec::new();
        copy_range(&mut key, p, 0, at);
        assert(key@ =~= p@.take(at as int));
        let ghost taken = views(pairs@).take(j + 1);
        assert(taken.drop_last() =~= views(pairs@).take(j as int));
        assert(taken.last() == p@);
        if !contains_key(keys, &key) {
            out.push('&');
            push_all(out, &key);
            out.push('=');
            if at < p.len() {
                copy_range(out, p, at + 1, p.len());
                assert(p@.subrange(at + 1, p@.len() as int) =~= p@.skip(at + 1));
            }
        }
        j = j + 1;
        assert(out@ =~= start + added_pairs(views(pairs@).take(j as int), views(keys@)));
    }
    assert(views(pairs@).take(pairs@.len() as int) =~= views(pairs@));
}

/// The forward URI: the configured target without one trailing `/`, the
/// inbound path, and the reconciled query. Where both carry a query, the
/// target's pairs come first and win over inbound pairs of the same key.
#[verifier::rlimit(40)]
pub fn forward_uri(forward_url: &str, path: &str, query: Option<&str>) -> (r: String)
    ensures
        r@ == forward_uri_of(forward_url@, path@, query_view(query)),
{
    let url = chars_of(forward_url);
    let path_chars = chars_of(path);
    let query_chars = match query {
        Some(q) => chars_of(q),
        None => Vec::new(),
    };
    assert(query_chars@ == query_view(query));
    let at = first_index(&url, '?');
    let mut base_end = at;
    if base_end > 0 && url[base_end - 1] == '/' {
        base_end = base_end - 1;
    }
    let mut out: Vec<char> = Vec::new();
    copy_range(&mut out, &url, 0, base_end);
    assert(out@ =~= strip_slash(url@.take(at as int)));
    push_all(&mut out, &path_chars);
    let mut target_query: Vec<char> = Vec::new();
    if at < url.len() {
        copy_range(&mut target_query, &url, at + 1, url.len());
        assert(target_query@ =~= url@.skip(at + 1));
    }
    if target_query.len() == 0 && query_chars.len() == 0 {
        return string_of(out);
    }
    out.push('?');
    if target_query.len() == 0 {
        push_all(&mut out, &query_chars);
        return string_of(out);
    }
    push_all(&mut out, &target_query);
    let keys = keys_of(&target_query);
    let pairs = if query_chars.len() == 0 {
        Vec::new()
    } else {
        split_chars(&query_chars, '&')
    };
    assert(views(pairs@) =~= query_pairs(query_chars@));
    add_pairs(&mut out, &pairs, &keys);
    let ghost joined = out@;
    let n = out.len();
    if n > 0 && out[n - 1] == '&' {
        out.pop();
    }
    assert(out@ =~= strip_amp(joined));
    string_of(out)
}

/// The configured query's keys win: an inbound pair whose key the configured
/// query has adds nothing, and any other pair adds `&key=value` after what the
/// pairs before it added.
pub proof fn lemma_target_keys_win(pairs: Seq<Seq<char>>, keys: Seq<Seq<char>>, p: Seq<char>)
    ensures
        keys.contains(before_first(p, '=')) ==> added_pairs(pairs.push(p), keys) == added_pairs(
            pairs,
            keys,
        ),
        !keys.contains(before_first(p, '=')) ==> added_pairs(pairs.push(p), keys) == added_pairs(
            pairs,
            keys,
        ) + seq!['&'] + before_first(p, '=') + seq!['='] + after_first(p, '='),
{
    assert(pairs.push(p).drop_last() =~= pairs);
    assert(added_pairs(pairs, keys) + Seq::<char>::empty() =~= added_pairs(pairs, keys));
    assert(added_pairs(pairs, keys) + (seq!['&'] + before_first(p, '=') + seq!['='] + after_first(p, '='))
        =~= added_pairs(pairs, keys) + seq!['&'] + before_first(p, '=') + seq!['='] + after_first(p, '='));
}

} // verus!
