//! The mathematical model of URL decomposition.
//!
//! Every component of a parse is defined here as a function of the input
//! character sequence alone: the scheme candidate before the first `"://"`,
//! the authority up to the first `'/'` after it, host and port around the
//! first `':'` of the authority, the path up to the first `'?'` of the
//! remainder, and the query payload after it, decomposed into `key=value`
//! pairs at `'&'`.  `outcome_of` classifies every input into exactly one
//! success or error case; the executable parser's contract says that its
//! result matches that classification.
//!
//! Policies fixed by this model: only the first `"://"` separates the scheme;
//! only the first `':'` of the authority delimits the port; the scheme match
//! is case-sensitive; query pairs keep their input order and duplicate keys;
//! a pair without `'='` counts as a key with an empty value; empty entries
//! between `'&'`s are skipped.

use vstd::prelude::*;
use crate::digits::{
    all_digits, dec_digits, digits_val, is_digit, lemma_dec_digits, lemma_digits_val_nonneg,
    valid_port_text,
};
use crate::scan::{
    find_ch, find_sep, lemma_find_ch, lemma_find_ch_concat, lemma_find_ch_is, lemma_find_ch_none,
    lemma_find_sep_is, sep_at,
};

verus! {

/// The characters of the one supported scheme, `http`.
pub open spec fn http_chars() -> Seq<char> {
    seq!['h', 't', 't', 'p']
}

/// The scheme candidate: everything before the first `"://"`.
pub open spec fn scheme_part(s: Seq<char>) -> Seq<char>
    recommends
        find_sep(s) is Some,
{
    s.subrange(0, find_sep(s).unwrap())
}

/// Everything after the first `"://"`.
pub open spec fn after_sep(s: Seq<char>) -> Seq<char>
    recommends
        find_sep(s) is Some,
{
    s.subrange(find_sep(s).unwrap() + 3, s.len() as int)
}

/// The authority segment: after the separator, up to the first `'/'`.
pub open spec fn authority(s: Seq<char>) -> Seq<char> {
    let a = after_sep(s);
    match find_ch(a, '/') {
        None => a,
        Some(i) => a.subrange(0, i),
    }
}

/// The remainder after the first `'/'` following the authority, if any.
pub open spec fn rest_after_slash(s: Seq<char>) -> Option<Seq<char>> {
    let a = after_sep(s);
    match find_ch(a, '/') {
        None => None,
        Some(i) => Some(a.subrange(i + 1, a.len() as int)),
    }
}

/// The host: the authority up to its first `':'`, or all of it.
pub open spec fn host_part(s: Seq<char>) -> Seq<char> {
    let a = authority(s);
    match find_ch(a, ':') {
        None => a,
        Some(i) => a.subrange(0, i),
    }
}

/// The port segment: the authority after its first `':'`, if present.
pub open spec fn port_part(s: Seq<char>) -> Option<Seq<char>> {
    let a = authority(s);
    match find_ch(a, ':') {
        None => None,
        Some(i) => Some(a.subrange(i + 1, a.len() as int)),
    }
}

/// The port number: the value of the port segment, or the default `80`.
pub open spec fn port_num(s: Seq<char>) -> int {
    match port_part(s) {
        None => 80,
        Some(p) => digits_val(p),
    }
}

/// The remainder's prefix up to its first `'?'`: the path without its
/// leading slash.
pub open spec fn path_rem(s: Seq<char>) -> Seq<char> {
    match rest_after_slash(s) {
        None => Seq::empty(),
        Some(r) => match find_ch(r, '?') {
            None => r,
            Some(i) => r.subrange(0, i),
        },
    }
}

/// The path: a leading `'/'` followed by the remainder before any query.
pub open spec fn path_part(s: Seq<char>) -> Seq<char> {
    seq!['/'] + path_rem(s)
}

/// The query payload: the remainder after its first `'?'`, if present.
pub open spec fn query_part(s: Seq<char>) -> Option<Seq<char>> {
    match rest_after_slash(s) {
        None => None,
        Some(r) => match find_ch(r, '?') {
            None => None,
            Some(i) => Some(r.subrange(i + 1, r.len() as int)),
        },
    }
}

/// One query entry split at its first `'='`; without one, the whole entry
/// is the key and the value is empty.
pub open spec fn pair_of(e: Seq<char>) -> (Seq<char>, Seq<char>) {
    match find_ch(e, '=') {
        None => (e, Seq::empty()),
        Some(i) => (e.subrange(0, i), e.subrange(i + 1, e.len() as int)),
    }
}

/// The query payload decomposed at `'&'` into key/value pairs, in input
/// order, empty entries skipped.
pub open spec fn pairs_of(q: Seq<char>) -> Seq<(Seq<char>, Seq<char>)>
    decreases q.len(),
    via pairs_of_dec
{
    match find_ch(q, '&') {
        None => if q.len() == 0 {
            Seq::empty()
        } else {
            seq![pair_of(q)]
        },
        Some(i) => (if i == 0 {
            Seq::empty()
        } else {
            seq![pair_of(q.subrange(0, i))]
        }) + pairs_of(q.subrange(i + 1, q.len() as int)),
    }
}

#[via_fn]
proof fn pairs_of_dec(q: Seq<char>) {
    crate::scan::lemma_find_ch(q, '&');
}

/// The query pairs of the whole input: empty when no query is present.
pub open spec fn query_pairs(s: Seq<char>) -> Seq<(Seq<char>, Seq<char>)> {
    match query_part(s) {
        None => Seq::empty(),
        Some(q) => pairs_of(q),
    }
}

/// The input parses successfully: a separator exists, the scheme is `http`,
/// the host is non-empty, and any port segment is a valid 16-bit numeral.
pub open spec fn parses(s: Seq<char>) -> bool {
    &&& find_sep(s) is Some
    &&& scheme_part(s) == http_chars()
    &&& host_part(s).len() > 0
    &&& (port_part(s) matches Some(p) ==> valid_port_text(p))
}

/// The one outcome that the parser owes for a given input.
pub enum Outcome {
    /// No `"://"` in the input.
    MissingSep,
    /// A separator exists but the scheme candidate is not `http`.
    BadScheme(Seq<char>),
    /// The authority or the text before its first `':'` is empty.
    MissingHost,
    /// A port segment exists but is not a valid 16-bit numeral.
    BadPort(Seq<char>),
    /// A full success, with every component of the parse.
    Parsed {
        host: Seq<char>,
        port: int,
        path: Seq<char>,
        query: Seq<(Seq<char>, Seq<char>)>,
    },
}

/// One query pair rendered as `key=value`.
pub open spec fn entry_seq(p: (Seq<char>, Seq<char>)) -> Seq<char> {
    p.0 + seq!['='] + p.1
}

/// Query pairs joined with `'&'`, each rendered as `key=value`.
pub open spec fn join_pairs(ps: Seq<(Seq<char>, Seq<char>)>) -> Seq<char>
    decreases ps.len(),
{
    if ps.len() == 0 {
        Seq::empty()
    } else if ps.len() == 1 {
        entry_seq(ps[0])
    } else {
        entry_seq(ps[0]) + seq!['&'] + join_pairs(ps.subrange(1, ps.len() as int))
    }
}

/// A query pair that serialization can carry faithfully: no `'&'` in key or
/// value, no `'='` in the key.
pub open spec fn wf_pair(p: (Seq<char>, Seq<char>)) -> bool {
    &&& forall|j: int| 0 <= j < p.0.len() ==> p.0[j] != '&' && p.0[j] != '='
    &&& forall|j: int| 0 <= j < p.1.len() ==> p.1[j] != '&'
}

/// Every pair of the sequence is well-formed.
pub open spec fn wf_pairs(ps: Seq<(Seq<char>, Seq<char>)>) -> bool {
    forall|i: int| 0 <= i < ps.len() ==> wf_pair(ps[i])
}

/// Components that serialization carries faithfully: what every successful
/// parse produces.
pub open spec fn wf_components(
    host: Seq<char>,
    port: int,
    path: Seq<char>,
    query: Seq<(Seq<char>, Seq<char>)>,
) -> bool {
    &&& host.len() > 0
    &&& forall|j: int| 0 <= j < host.len() ==> host[j] != ':' && host[j] != '/'
    &&& 0 <= port <= 65535
    &&& path.len() > 0 && path[0] == '/'
    &&& forall|j: int| 0 <= j < path.len() ==> path[j] != '?'
    &&& wf_pairs(query)
}

/// The canonical form `scheme://host:port/path?query`: the port in shortest
/// decimal form, the `?` omitted when there are no query pairs.
pub open spec fn canon_of(
    host: Seq<char>,
    port: int,
    path: Seq<char>,
    query: Seq<(Seq<char>, Seq<char>)>,
) -> Seq<char> {
    http_chars() + seq![':', '/', '/'] + host + seq![':'] + dec_digits(port as nat) + path + (
    if query.len() == 0 {
        Seq::<char>::empty()
    } else {
        seq!['?'] + join_pairs(query)
    })
}

/// Classify an input: the stages run in order and the first failure wins.
pub open spec fn outcome_of(s: Seq<char>) -> Outcome {
    if find_sep(s) is None {
        Outcome::MissingSep
    } else if scheme_part(s) != http_chars() {
        Outcome::BadScheme(scheme_part(s))
    } else if host_part(s).len() == 0 {
        Outcome::MissingHost
    } else if port_part(s) is Some && !valid_port_text(port_part(s).unwrap()) {
        Outcome::BadPort(port_part(s).unwrap())
    } else {
        Outcome::Parsed {
            host: host_part(s),
            port: port_num(s),
            path: path_part(s),
            query: query_pairs(s),
        }
    }
}

/// A well-formed pair's rendering contains no `'&'` and splits back into
/// the pair itself.
proof fn lemma_entry(p: (Seq<char>, Seq<char>))
    requires
        wf_pair(p),
    ensures
        entry_seq(p).len() == p.0.len() + 1 + p.1.len(),
        forall|j: int| 0 <= j < entry_seq(p).len() ==> entry_seq(p)[j] != '&',
        pair_of(entry_seq(p)) == p,
{
    let e = entry_seq(p);
    let kl = p.0.len() as int;
    assert forall|j: int| 0 <= j < e.len() implies e[j] != '&' by {
        if j < kl {
            assert(e[j] == p.0[j]);
        } else if j == kl {
            assert(e[j] == '=');
        } else {
            assert(e[j] == p.1[j - kl - 1]);
        }
    }
    assert(e[kl] == '=');
    assert forall|j: int| 0 <= j < kl implies e[j] != '=' by {
        assert(e[j] == p.0[j]);
    }
    lemma_find_ch_is(e, '=', kl);
    assert(e.subrange(0, kl) =~= p.0);
    assert(e.subrange(kl + 1, e.len() as int) =~= p.1);
}

/// Splitting the joined rendering of well-formed pairs recovers exactly
/// those pairs.
proof fn lemma_pairs_of_join(ps: Seq<(Seq<char>, Seq<char>)>)
    requires
        wf_pairs(ps),
        ps.len() > 0,
    ensures
        pairs_of(join_pairs(ps)) == ps,
    decreases ps.len(),
{
    let q = join_pairs(ps);
    lemma_entry(ps[0]);
    let e0 = entry_seq(ps[0]);
    if ps.len() == 1 {
        lemma_find_ch_none(q, '&');
        assert(pairs_of(q) =~= seq![pair_of(q)]);
        assert(pairs_of(q) =~= ps);
    } else {
        let tail = ps.subrange(1, ps.len() as int);
        let rest = join_pairs(tail);
        assert(q == e0 + seq!['&'] + rest);
        let el = e0.len() as int;
        assert(q[el] == '&');
        assert forall|j: int| 0 <= j < el implies q[j] != '&' by {
            assert(q[j] == e0[j]);
        }
        lemma_find_ch_is(q, '&', el);
        assert(el > 0);
        assert(q.subrange(0, el) =~= e0);
        assert(q.subrange(el + 1, q.len() as int) =~= rest);
        assert(wf_pairs(tail));
        lemma_pairs_of_join(tail);
        assert(pairs_of(q) == seq![pair_of(e0)] + pairs_of(rest));
        assert(seq![ps[0]] + tail =~= ps);
    }
}

/// An entry free of `'&'` splits into a well-formed pair.
proof fn lemma_pair_wf(e: Seq<char>)
    requires
        forall|j: int| 0 <= j < e.len() ==> e[j] != '&',
    ensures
        wf_pair(pair_of(e)),
{
    lemma_find_ch(e, '=');
    match find_ch(e, '=') {
        None => {
        },
        Some(i) => {
            let p = pair_of(e);
            assert(forall|j: int| 0 <= j < p.0.len() ==> p.0[j] == e[j]);
            assert(forall|j: int| 0 <= j < p.1.len() ==> p.1[j] == e[i + 1 + j]);
        },
    }
}

/// Every decomposition of a query payload yields well-formed pairs.
proof fn lemma_pairs_of_wf(q: Seq<char>)
    ensures
        wf_pairs(pairs_of(q)),
    decreases q.len(),
{
    lemma_find_ch(q, '&');
    match find_ch(q, '&') {
        None => {
            if q.len() > 0 {
                lemma_pair_wf(q);
            }
        },
        Some(i) => {
            let head = q.subrange(0, i);
            let rest = q.subrange(i + 1, q.len() as int);
            if i > 0 {
                assert(forall|j: int| 0 <= j < head.len() ==> head[j] == q[j]);
                lemma_pair_wf(head);
            }
            lemma_pairs_of_wf(rest);
            let ps = pairs_of(q);
            assert forall|k: int| 0 <= k < ps.len() implies wf_pair(ps[k]) by {
                if i > 0 && k == 0 {
                    assert(ps[0] == pair_of(head));
                } else {
                    let skip: int = if i == 0 {
                        0
                    } else {
                        1
                    };
                    assert(ps[k] == pairs_of(rest)[k - skip]);
                }
            }
        },
    }
}

/// Every successful parse produces well-formed components.
pub proof fn lemma_parsed_wf(s: Seq<char>)
    requires
        parses(s),
    ensures
        wf_components(host_part(s), port_num(s), path_part(s), query_pairs(s)),
{
    let a = after_sep(s);
    lemma_find_ch(a, '/');
    let auth = authority(s);
    assert(forall|j: int| 0 <= j < auth.len() ==> auth[j] == a[j]);
    assert(forall|j: int| 0 <= j < auth.len() ==> auth[j] != '/');
    lemma_find_ch(auth, ':');
    let host = host_part(s);
    assert(forall|j: int| 0 <= j < host.len() ==> host[j] == auth[j]);
    match port_part(s) {
        None => {
        },
        Some(p) => {
            lemma_digits_val_nonneg(p);
        },
    }
    match rest_after_slash(s) {
        None => {
        },
        Some(r) => {
            lemma_find_ch(r, '?');
            let pr = path_rem(s);
            assert(forall|j: int| 0 <= j < pr.len() ==> pr[j] == r[j]);
        },
    }
    let path = path_part(s);
    assert(path[0] == '/');
    assert(forall|j: int| 1 <= j < path.len() ==> path[j] == path_rem(s)[j - 1]);
    match query_part(s) {
        None => {
            assert(wf_pairs(query_pairs(s)));
        },
        Some(q) => {
            lemma_pairs_of_wf(q);
        },
    }
}

/// Decomposing `http://<host>:<ptxt>/<rest>`: the separator is found at the
/// scheme's end, the authority splits at its `':'`, and `rest` is what
/// follows the slash.
proof fn lemma_shape(host: Seq<char>, ptxt: Seq<char>, rest: Seq<char>)
    requires
        host.len() > 0,
        forall|j: int| 0 <= j < host.len() ==> host[j] != ':' && host[j] != '/',
        ptxt.len() > 0,
        all_digits(ptxt),
    ensures
        ({
            let s = http_chars() + seq![':', '/', '/'] + host + seq![':'] + ptxt + seq!['/']
                + rest;
            &&& find_sep(s) == Some(4int)
            &&& scheme_part(s) == http_chars()
            &&& after_sep(s) == host + seq![':'] + ptxt + seq!['/'] + rest
            &&& authority(s) == host + seq![':'] + ptxt
            &&& rest_after_slash(s) == Some(rest)
            &&& host_part(s) == host
            &&& port_part(s) == Some(ptxt)
        }),
{
    let s = http_chars() + seq![':', '/', '/'] + host + seq![':'] + ptxt + seq!['/'] + rest;
    let a = host + seq![':'] + ptxt + seq!['/'] + rest;
    assert(s =~= (http_chars() + seq![':', '/', '/']) + a);
    assert(s[0] == 'h' && s[1] == 't' && s[2] == 't' && s[3] == 'p');
    assert(s[4] == ':' && s[5] == '/' && s[6] == '/');
    assert(sep_at(s, 4));
    assert forall|j: int| 0 <= j < 4 implies !sep_at(s, j) by {
        assert(s[j] != ':');
    }
    lemma_find_sep_is(s, 4);
    assert(scheme_part(s) =~= http_chars());
    assert(after_sep(s) =~= a);
    let left = host + seq![':'] + ptxt;
    let tail = seq!['/'] + rest;
    assert(a =~= left + tail);
    assert forall|j: int| 0 <= j < left.len() implies left[j] != '/' by {
        let hl = host.len() as int;
        if j < hl {
            assert(left[j] == host[j]);
        } else if j == hl {
            assert(left[j] == ':');
        } else {
            assert(left[j] == ptxt[j - hl - 1]);
            assert(is_digit(left[j]));
        }
    }
    assert(tail[0] == '/');
    lemma_find_ch_is(tail, '/', 0);
    lemma_find_ch_concat(left, tail, '/');
    assert(find_ch(a, '/') == Some(left.len() as int));
    assert(authority(s) =~= left);
    assert(rest_after_slash(s).unwrap() =~= rest);
    let colon_tail = seq![':'] + ptxt;
    assert(left =~= host + colon_tail);
    assert(colon_tail[0] == ':');
    lemma_find_ch_is(colon_tail, ':', 0);
    lemma_find_ch_concat(host, colon_tail, ':');
    assert(find_ch(left, ':') == Some(host.len() as int));
    assert(host_part(s) =~= host);
    assert(port_part(s).unwrap() =~= ptxt);
}

/// Parsing recovers each component of a URL written in the full form
/// `http://<host>:<port>/<path>?<query>`: the host, the port's value, the
/// path with its leading slash restored, and the query payload verbatim.
pub proof fn lemma_parse_recovers_components(
    host: Seq<char>,
    port_txt: Seq<char>,
    path_rest: Seq<char>,
    query: Seq<char>,
)
    requires
        host.len() > 0,
        forall|j: int| 0 <= j < host.len() ==> host[j] != ':' && host[j] != '/',
        valid_port_text(port_txt),
        forall|j: int| 0 <= j < path_rest.len() ==> path_rest[j] != '?',
    ensures
        ({
            let s = http_chars() + seq![':', '/', '/'] + host + seq![':'] + port_txt + seq!['/']
                + path_rest + seq!['?'] + query;
            &&& parses(s)
            &&& host_part(s) == host
            &&& port_part(s) == Some(port_txt)
            &&& port_num(s) == digits_val(port_txt)
            &&& path_part(s) == seq!['/'] + path_rest
            &&& query_part(s) == Some(query)
            &&& query_pairs(s) == pairs_of(query)
        }),
{
    let s = http_chars() + seq![':', '/', '/'] + host + seq![':'] + port_txt + seq!['/']
        + path_rest + seq!['?'] + query;
    let rest = path_rest + seq!['?'] + query;
    let s0 = http_chars() + seq![':', '/', '/'] + host + seq![':'] + port_txt + seq!['/'] + rest;
    assert(s =~= s0);
    lemma_shape(host, port_txt, rest);
    let qtail = seq!['?'] + query;
    assert(rest =~= path_rest + qtail);
    assert(qtail[0] == '?');
    lemma_find_ch_is(qtail, '?', 0);
    lemma_find_ch_concat(path_rest, qtail, '?');
    assert(find_ch(rest, '?') == Some(path_rest.len() as int));
    assert(path_rem(s) =~= rest.subrange(0, path_rest.len() as int));
    assert(path_rem(s) =~= path_rest);
    assert(path_part(s) =~= seq!['/'] + path_rest);
    assert(query_part(s).unwrap() =~= rest.subrange(
        path_rest.len() as int + 1,
        rest.len() as int,
    ));
    assert(query_part(s).unwrap() =~= query);
}

/// Parsing the canonical form of well-formed components recovers exactly
/// those components.
pub proof fn lemma_parse_canon(
    host: Seq<char>,
    port: int,
    path: Seq<char>,
    query: Seq<(Seq<char>, Seq<char>)>,
)
    requires
        wf_components(host, port, path, query),
    ensures
        ({
            let s = canon_of(host, port, path, query);
            &&& parses(s)
            &&& host_part(s) == host
            &&& port_num(s) == port
            &&& path_part(s) == path
            &&& query_pairs(s) == query
        }),
{
    let s = canon_of(host, port, path, query);
    let d = dec_digits(port as nat);
    lemma_dec_digits(port as nat);
    let prem = path.subrange(1, path.len() as int);
    let qs: Seq<char> = if query.len() == 0 {
        Seq::empty()
    } else {
        seq!['?'] + join_pairs(query)
    };
    let rest = prem + qs;
    let s0 = http_chars() + seq![':', '/', '/'] + host + seq![':'] + d + seq!['/'] + rest;
    assert(path =~= seq!['/'] + prem);
    assert(s =~= s0);
    lemma_shape(host, d, rest);
    assert(valid_port_text(d));
    assert(port_num(s) == port);
    assert(forall|j: int| 0 <= j < prem.len() ==> prem[j] == path[j + 1]);
    if query.len() == 0 {
        assert(rest =~= prem);
        lemma_find_ch_none(rest, '?');
        assert(path_rem(s) =~= prem);
        assert(path_part(s) =~= path);
        assert(query_part(s) is None);
        assert(query_pairs(s) =~= query);
    } else {
        let jq = join_pairs(query);
        assert(qs[0] == '?');
        lemma_find_ch_is(qs, '?', 0);
        lemma_find_ch_concat(prem, qs, '?');
        assert(find_ch(rest, '?') == Some(prem.len() as int));
        assert(path_rem(s) =~= rest.subrange(0, prem.len() as int));
        assert(path_rem(s) =~= prem);
        assert(path_part(s) =~= path);
        assert(query_part(s).unwrap() =~= rest.subrange(prem.len() as int + 1, rest.len() as int));
        assert(query_part(s).unwrap() =~= jq);
        lemma_pairs_of_join(query);
    }
}

} // verus!
