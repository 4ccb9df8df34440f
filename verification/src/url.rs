//! The structured URL value and the verified parser.
//!
//! `parse` turns a raw string into a `Url` — scheme, host, port, path and
//! query pairs — or into one of the four errors of the closed taxonomy.  Its
//! contract states, for every input, which outcome of the model in
//! `crate::model` it returns; a `Url` is only ever assembled on full success.

use vstd::prelude::*;
use vstd::string::*;
use crate::digits::{parse_port, port_string};
use crate::model::{
    after_sep, authority, canon_of, entry_seq, host_part, http_chars, join_pairs,
    lemma_parse_canon, lemma_parsed_wf, outcome_of, pair_of, pairs_of, parses, path_part, port_num,
    port_part, query_pairs, query_part, rest_after_slash, scheme_part, wf_components, Outcome,
};
use crate::scan::{find_char, find_scheme_sep, lemma_find_ch, lemma_find_sep};

verus! {

/// The closed set of supported schemes.
#[derive(Debug, Clone, Copy, PartialEq, Eq, Structural)]
pub enum Schema {
    Http,
}

/// The host component: the authority excluding any port.
#[derive(Debug, Clone)]
pub struct Host(pub String);

/// The port component, sixteen bits by construction.
#[derive(Debug, Clone, Copy, PartialEq, Eq, Structural)]
pub struct Port(pub u16);

/// A fully parsed URL; only a successful parse constructs one.
#[derive(Debug, Clone)]
pub struct Url {
    pub schema: Schema,
    pub host: Host,
    pub port: Port,
    pub path: String,
    pub query_strings: Vec<(String, String)>,
}

/// The closed error taxonomy of a parse, each variant carrying the
/// offending text where there is one.
#[derive(Debug, Clone)]
pub enum UrlError {
    /// No `"://"` in the input.
    MissingSchemeSeparator,
    /// The scheme candidate is not in the supported set.
    UnsupportedScheme(String),
    /// The authority, or its part before the first `':'`, is empty.
    MissingHost,
    /// The port segment is not a valid 16-bit numeral.
    InvalidPort(String),
}

impl PartialEq for Host {
    fn eq(&self, other: &Host) -> bool {
        self.0 == other.0
    }
}

impl vstd::std_specs::cmp::PartialEqSpecImpl for Host {
    open spec fn obeys_eq_spec() -> bool {
        true
    }

    open spec fn eq_spec(&self, other: &Host) -> bool {
        self.0@ == other.0@
    }
}

/// The description of an error, carrying the offending text.
pub open spec fn message_of(e: UrlError) -> Seq<char> {
    match e {
        UrlError::MissingSchemeSeparator => "missing scheme separator"@,
        UrlError::UnsupportedScheme(t) => "unsupported scheme: "@ + t@,
        UrlError::MissingHost => "missing host"@,
        UrlError::InvalidPort(t) => "invalid port: "@ + t@,
    }
}

impl UrlError {
    /// A description of the error for display, carrying the offending text.
    pub fn message(&self) -> (r: String)
        ensures
            r@ == message_of(*self),
    {
        match self {
            UrlError::MissingSchemeSeparator => String::from_str("missing scheme separator"),
            UrlError::UnsupportedScheme(t) => String::from_str("unsupported scheme: ").concat(
                t.as_str(),
            ),
            UrlError::MissingHost => String::from_str("missing host"),
            UrlError::InvalidPort(t) => String::from_str("invalid port: ").concat(t.as_str()),
        }
    }
}

/// The error value owed for an input that does not parse.
pub open spec fn err_matches(s: Seq<char>, e: UrlError) -> bool {
    match outcome_of(s) {
        Outcome::MissingSep => e matches UrlError::MissingSchemeSeparator,
        Outcome::BadScheme(t) => e matches UrlError::UnsupportedScheme(x) && x@ == t,
        Outcome::MissingHost => e matches UrlError::MissingHost,
        Outcome::BadPort(t) => e matches UrlError::InvalidPort(x) && x@ == t,
        Outcome::Parsed { .. } => false,
    }
}

/// The parsed value owed for an input that parses: every component equals
/// the model's.
pub open spec fn ok_matches(s: Seq<char>, u: Url) -> bool {
    &&& outcome_of(s) is Parsed
    &&& u.schema == Schema::Http
    &&& u.host.0@ == host_part(s)
    &&& u.port.0 == port_num(s)
    &&& u.path@ == path_part(s)
    &&& u.query_strings.deep_view() == query_pairs(s)
}

/// The parser's whole contract: the result matches the classification of
/// the input, success and error cases alike.
pub open spec fn result_matches(s: Seq<char>, r: Result<Url, UrlError>) -> bool {
    match r {
        Ok(u) => ok_matches(s, u),
        Err(e) => err_matches(s, e),
    }
}

/// The scheme candidate is exactly `http` (case-sensitively).
pub(crate) fn is_http(s: &str) -> (r: bool)
    ensures
        r == (s@ == http_chars()),
{
    let n: usize = s.unicode_len();
    if n != 4 {
        return false;
    }
    let r = s.get_char(0) == 'h' && s.get_char(1) == 't' && s.get_char(2) == 't' && s.get_char(3)
        == 'p';
    proof {
        if r {
            assert(s@ =~= http_chars());
        }
    }
    r
}

/// The string `"/"`.
pub(crate) fn slash() -> (r: &'static str)
    ensures
        r@ =~= seq!['/'],
{
    proof {
        reveal_strlit("/");
    }
    "/"
}

/// Split one query entry at its first `'='`.
fn parse_pair(e: &str) -> (r: (String, String))
    ensures
        r.deep_view() == pair_of(e@),
{
    let n: usize = e.unicode_len();
    match find_char(e, '=') {
        None => (e.to_owned(), String::new()),
        Some(i) => {
            proof {
                lemma_find_ch(e@, '=');
            }
            (e.substring_char(0, i).to_owned(), e.substring_char(i + 1, n).to_owned())
        },
    }
}

/// Decompose a query payload into its key/value pairs.
fn parse_query(q: &str) -> (r: Vec<(String, String)>)
    ensures
        r.deep_view() == pairs_of(q@),
{
    let mut out: Vec<(String, String)> = Vec::new();
    let mut rest: &str = q;
    proof {
        assert(out.deep_view() + pairs_of(rest@) =~= pairs_of(q@));
    }
    loop
        invariant
            out.deep_view() + pairs_of(rest@) == pairs_of(q@),
        decreases rest@.len(),
    {
        let n_rest: usize = rest.unicode_len();
        match find_char(rest, '&') {
            None => {
                if n_rest > 0 {
                    let ghost prev = out.deep_view();
                    let p = parse_pair(rest);
                    out.push(p);
                    proof {
                        assert(out.deep_view() =~= prev.push(pair_of(rest@)));
                        assert(pairs_of(rest@) =~= seq![pair_of(rest@)]);
                        assert(out.deep_view() =~= prev + pairs_of(rest@));
                    }
                } else {
                    proof {
                        assert(pairs_of(rest@) =~= Seq::<(Seq<char>, Seq<char>)>::empty());
                        assert(out.deep_view() + pairs_of(rest@) =~= out.deep_view());
                    }
                }
                return out;
            },
            Some(i) => {
                proof {
                    lemma_find_ch(rest@, '&');
                }
                let ghost prev = out.deep_view();
                let ghost whole = rest@;
                if i > 0 {
                    let p = parse_pair(rest.substring_char(0, i));
                    out.push(p);
                    proof {
                        assert(out.deep_view() =~= prev.push(pair_of(whole.subrange(0, i as int))));
                    }
                }
                let new_rest = rest.substring_char(i + 1, n_rest);
                proof {
                    assert(pairs_of(whole) == (if i == 0 {
                        Seq::<(Seq<char>, Seq<char>)>::empty()
                    } else {
                        seq![pair_of(whole.subrange(0, i as int))]
                    }) + pairs_of(whole.subrange(i + 1, whole.len() as int)));
                    assert(new_rest@ =~= whole.subrange(i + 1, whole.len() as int));
                    assert(out.deep_view() + pairs_of(new_rest@) =~= prev + pairs_of(whole));
                }
                rest = new_rest;
            },
        }
    }
}

/// The query vectors hold equal pairs of strings.
fn query_eq(a: &Vec<(String, String)>, b: &Vec<(String, String)>) -> (r: bool)
    ensures
        r == (a.deep_view() == b.deep_view()),
{
    if a.len() != b.len() {
        proof {
            assert(a.deep_view().len() != b.deep_view().len());
        }
        return false;
    }
    let n: usize = a.len();
    let mut i: usize = 0;
    while i < n
        invariant
            i <= n,
            n == a.len() == b.len(),
            forall|j: int|
                0 <= j < i ==> a@[j].0@ == b@[j].0@ && a@[j].1@ == b@[j].1@,
        decreases n - i,
    {
        if !(a[i].0 == b[i].0 && a[i].1 == b[i].1) {
            proof {
                assert(a.deep_view()[i as int] != b.deep_view()[i as int]);
            }
            return false;
        }
        i = i + 1;
    }
    proof {
        assert(a.deep_view() =~~= b.deep_view());
    }
    true
}

impl PartialEq for Url {
    fn eq(&self, other: &Url) -> bool {
        self.schema == other.schema && self.host == other.host && self.port == other.port
            && self.path == other.path && query_eq(&self.query_strings, &other.query_strings)
    }
}

impl vstd::std_specs::cmp::PartialEqSpecImpl for Url {
    open spec fn obeys_eq_spec() -> bool {
        true
    }

    open spec fn eq_spec(&self, other: &Url) -> bool {
        &&& self.schema == other.schema
        &&& self.host.0@ == other.host.0@
        &&& self.port == other.port
        &&& self.path@ == other.path@
        &&& self.query_strings.deep_view() == other.query_strings.deep_view()
    }
}

impl Url {
    /// Parse a raw string into a `Url` or one of the four errors; the
    /// result matches the model's classification of the input.
    pub fn parse(input: &str) -> (r: Result<Url, UrlError>)
        ensures
            result_matches(input@, r),
    {
        let n: usize = input.unicode_len();
        let sep_i: usize = match find_scheme_sep(input) {
            None => {
                return Err(UrlError::MissingSchemeSeparator);
            },
            Some(i) => i,
        };
        proof {
            lemma_find_sep(input@);
        }
        let scheme_s = input.substring_char(0, sep_i);
        proof {
            assert(scheme_s@ =~= scheme_part(input@));
        }
        if !is_http(scheme_s) {
            return Err(UrlError::UnsupportedScheme(scheme_s.to_owned()));
        }
        let after = input.substring_char(sep_i + 3, n);
        proof {
            assert(after@ =~= after_sep(input@));
        }
        let n_after: usize = after.unicode_len();
        let slash_i: Option<usize> = find_char(after, '/');
        let (auth_s, rest_opt): (&str, Option<&str>) = match slash_i {
            None => (after, None),
            Some(i) => {
                proof {
                    lemma_find_ch(after@, '/');
                }
                (after.substring_char(0, i), Some(after.substring_char(i + 1, n_after)))
            },
        };
        proof {
            assert(auth_s@ =~= authority(input@));
            if let Some(r) = rest_opt {
                assert(r@ =~= rest_after_slash(input@).unwrap());
            }
        }
        let n_auth: usize = auth_s.unicode_len();
        let colon_i: Option<usize> = find_char(auth_s, ':');
        let (host_s, port_opt): (&str, Option<&str>) = match colon_i {
            None => (auth_s, None),
            Some(i) => {
                proof {
                    lemma_find_ch(auth_s@, ':');
                }
                (auth_s.substring_char(0, i), Some(auth_s.substring_char(i + 1, n_auth)))
            },
        };
        proof {
            assert(host_s@ =~= host_part(input@));
            if let Some(p) = port_opt {
                assert(p@ =~= port_part(input@).unwrap());
            }
        }
        if host_s.unicode_len() == 0 {
            return Err(UrlError::MissingHost);
        }
        let port: u16 = match port_opt {
            None => 80,
            Some(p) => match parse_port(p) {
                None => {
                    return Err(UrlError::InvalidPort(p.to_owned()));
                },
                Some(v) => v,
            },
        };
        let (path, query): (String, Vec<(String, String)>) = match rest_opt {
            None => (String::from_str(slash()), Vec::new()),
            Some(rem) => {
                let n_rem: usize = rem.unicode_len();
                match find_char(rem, '?') {
                    None => (String::from_str(slash()).concat(rem), Vec::new()),
                    Some(i) => {
                        proof {
                            lemma_find_ch(rem@, '?');
                        }
                        let p = String::from_str(slash()).concat(rem.substring_char(0, i));
                        let q = rem.substring_char(i + 1, n_rem);
                        proof {
                            assert(q@ =~= query_part(input@).unwrap());
                        }
                        (p, parse_query(q))
                    },
                }
            },
        };
        proof {
            assert(path@ =~= path_part(input@));
            if query_part(input@) is None {
                assert(query.deep_view() =~= query_pairs(input@));
            }
        }
        Ok(
            Url {
                schema: Schema::Http,
                host: Host(host_s.to_owned()),
                port: Port(port),
                path,
                query_strings: query,
            },
        )
    }

    /// Build a `Url` from an input that is known to parse; inputs that do
    /// not parse are excluded, so this constructor cannot fail.  Callers
    /// that cannot guarantee their input use `parse` instead.
    pub fn new(url: String) -> (r: Url)
        requires
            parses(url@),
        ensures
            r.schema == Schema::Http,
            r.host.0@ == host_part(url@),
            r.port.0 == port_num(url@),
            r.path@ == path_part(url@),
            r.query_strings.deep_view() == query_pairs(url@),
    {
        match Url::parse(url.as_str()) {
            Ok(u) => u,
            Err(_) => vstd::pervasive::unreached(),
        }
    }

    /// The scheme of the input, validated like a full parse.
    pub fn extract_schema(url: &str) -> (r: Result<Schema, UrlError>)
        ensures
            parses(url@) ==> (r matches Ok(s) && s == Schema::Http),
            !parses(url@) ==> (r matches Err(e) && err_matches(url@, e)),
    {
        match Url::parse(url) {
            Ok(_) => Ok(Schema::Http),
            Err(e) => Err(e),
        }
    }

    /// The host of the input, validated like a full parse.
    pub fn extract_host(url: &str) -> (r: Result<Host, UrlError>)
        ensures
            parses(url@) ==> (r matches Ok(h) && h.0@ == host_part(url@)),
            !parses(url@) ==> (r matches Err(e) && err_matches(url@, e)),
    {
        match Url::parse(url) {
            Ok(u) => Ok(u.host),
            Err(e) => Err(e),
        }
    }

    /// The port of the input — the default `80` when absent — validated
    /// like a full parse.
    pub fn extract_port(url: &str) -> (r: Result<Port, UrlError>)
        ensures
            parses(url@) ==> (r matches Ok(p) && p.0 == port_num(url@)),
            !parses(url@) ==> (r matches Err(e) && err_matches(url@, e)),
    {
        match Url::parse(url) {
            Ok(u) => Ok(u.port),
            Err(e) => Err(e),
        }
    }

    /// The canonical form `scheme://host:port/path?query` of this value,
    /// the `?` omitted when there are no query pairs.
    pub fn canonical_string(&self) -> (r: String)
        ensures
            r@ == canon_of(
                self.host.0@,
                self.port.0 as int,
                self.path@,
                self.query_strings.deep_view(),
            ),
    {
        let mut s = String::from_str(http_str());
        s.append(sep_str());
        s.append(self.host.0.as_str());
        s.append(colon_str());
        let p = port_string(self.port.0);
        s.append(p.as_str());
        s.append(self.path.as_str());
        if self.query_strings.len() > 0 {
            s.append(qmark_str());
            let j = join_query_from(&self.query_strings, 0);
            s.append(j.as_str());
            proof {
                assert(self.query_strings.deep_view().subrange(
                    0,
                    self.query_strings.len() as int,
                ) =~= self.query_strings.deep_view());
                assert(s@ =~= canon_of(
                    self.host.0@,
                    self.port.0 as int,
                    self.path@,
                    self.query_strings.deep_view(),
                ));
            }
        } else {
            proof {
                assert(s@ =~= canon_of(
                    self.host.0@,
                    self.port.0 as int,
                    self.path@,
                    self.query_strings.deep_view(),
                ));
            }
        }
        s
    }
}

/// The string `"http"`.
fn http_str() -> (r: &'static str)
    ensures
        r@ =~= http_chars(),
{
    proof {
        reveal_strlit("http");
    }
    "http"
}

/// The string `"://"`.
fn sep_str() -> (r: &'static str)
    ensures
        r@ =~= seq![':', '/', '/'],
{
    proof {
        reveal_strlit("://");
    }
    "://"
}

/// The string `":"`.
fn colon_str() -> (r: &'static str)
    ensures
        r@ =~= seq![':'],
{
    proof {
        reveal_strlit(":");
    }
    ":"
}

/// The string `"?"`.
fn qmark_str() -> (r: &'static str)
    ensures
        r@ =~= seq!['?'],
{
    proof {
        reveal_strlit("?");
    }
    "?"
}

/// The string `"="`.
fn eq_str() -> (r: &'static str)
    ensures
        r@ =~= seq!['='],
{
    proof {
        reveal_strlit("=");
    }
    "="
}

/// The string `"&"`.
fn amp_str() -> (r: &'static str)
    ensures
        r@ =~= seq!['&'],
{
    proof {
        reveal_strlit("&");
    }
    "&"
}

/// Join the query pairs from index `i` on, `key=value` entries separated
/// by `'&'`.
fn join_query_from(q: &Vec<(String, String)>, i: usize) -> (r: String)
    requires
        i <= q.len(),
    ensures
        r@ == join_pairs(q.deep_view().subrange(i as int, q.len() as int)),
    decreases q.len() - i,
{
    let ghost sub = q.deep_view().subrange(i as int, q.len() as int);
    if i == q.len() {
        proof {
            assert(sub =~= Seq::<(Seq<char>, Seq<char>)>::empty());
        }
        String::new()
    } else {
        let mut s = String::from_str(q[i].0.as_str());
        s.append(eq_str());
        s.append(q[i].1.as_str());
        proof {
            assert(sub[0] == q.deep_view()[i as int]);
            assert(s@ =~= entry_seq(sub[0]));
        }
        if i + 1 == q.len() {
            proof {
                assert(sub.len() == 1);
            }
            s
        } else {
            s.append(amp_str());
            let rest = join_query_from(q, i + 1);
            s.append(rest.as_str());
            proof {
                assert(sub.subrange(1, sub.len() as int) =~= q.deep_view().subrange(
                    i as int + 1,
                    q.len() as int,
                ));
                assert(s@ =~= entry_seq(sub[0]) + seq!['&'] + join_pairs(
                    sub.subrange(1, sub.len() as int),
                ));
            }
            s
        }
    }
}

/// A well-formed `Url` value: exactly what every successful parse
/// produces, and what the canonical form carries faithfully.
pub open spec fn url_wf(u: Url) -> bool {
    wf_components(u.host.0@, u.port.0 as int, u.path@, u.query_strings.deep_view())
}

/// Every `Url` that `parse` returns is well-formed, so the round-trip law
/// below applies to it.
pub proof fn lemma_parse_gives_wf(s: Seq<char>, u: Url)
    requires
        ok_matches(s, u),
    ensures
        url_wf(u),
{
    lemma_parsed_wf(s);
}

/// Round-trip law: parsing the canonical form of a well-formed `Url`
/// recovers each of its components, hence an equal `Url`.
pub proof fn lemma_canonical_round_trip(u: Url)
    requires
        url_wf(u),
    ensures
        ({
            let s = canon_of(u.host.0@, u.port.0 as int, u.path@, u.query_strings.deep_view());
            &&& parses(s)
            &&& host_part(s) == u.host.0@
            &&& port_num(s) == u.port.0 as int
            &&& path_part(s) == u.path@
            &&& query_pairs(s) == u.query_strings.deep_view()
        }),
{
    lemma_parse_canon(u.host.0@, u.port.0 as int, u.path@, u.query_strings.deep_view());
}

} // verus!

