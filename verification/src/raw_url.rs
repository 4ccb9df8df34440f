//! A flat, textual view of a parsed URL.
//!
//! Here every component is kept as raw text: the port exactly as it stood in
//! the input (`"80"` when absent), and the search part with its leading
//! `'?'` (empty when absent).  Validation is all-or-nothing: every extractor
//! applies the full staged validation of the model, and a failure reports a
//! textual description carrying the offending substring.

use vstd::prelude::*;
use vstd::string::*;
use crate::digits::parse_port;
use crate::model::{
    after_sep, authority, host_part, outcome_of, parses, path_part, port_part, query_part,
    scheme_part, Outcome,
};
use crate::scan::{find_char, find_scheme_sep, lemma_find_ch, lemma_find_sep};
use crate::url::{is_http, slash};

verus! {

/// The port component as text: the input's digits, or `"80"` when absent.
pub open spec fn port_text(s: Seq<char>) -> Seq<char> {
    match port_part(s) {
        None => "80"@,
        Some(p) => p,
    }
}

/// The search part as text: `'?'` and the payload, or empty when absent.
pub open spec fn search_text(s: Seq<char>) -> Seq<char> {
    match query_part(s) {
        None => Seq::empty(),
        Some(q) => "?"@ + q,
    }
}

/// The textual description owed when an input does not parse.
pub open spec fn error_text(s: Seq<char>) -> Seq<char> {
    match outcome_of(s) {
        Outcome::MissingSep => "missing scheme separator"@,
        Outcome::BadScheme(t) => "unsupported scheme: "@ + t,
        Outcome::MissingHost => "missing host"@,
        Outcome::BadPort(t) => "invalid port: "@ + t,
        Outcome::Parsed { .. } => Seq::empty(),
    }
}

/// All four textual components of an input that parses, or the error text.
fn parts(url: &str) -> (r: Result<(String, String, String, String), String>)
    ensures
        match r {
            Ok(t) => {
                &&& parses(url@)
                &&& t.0@ == host_part(url@)
                &&& t.1@ == port_text(url@)
                &&& t.2@ == path_part(url@)
                &&& t.3@ == search_text(url@)
            },
            Err(m) => !parses(url@) && m@ == error_text(url@),
        },
{
    let n: usize = url.unicode_len();
    let sep_i: usize = match find_scheme_sep(url) {
        None => {
            return Err(String::from_str("missing scheme separator"));
        },
        Some(i) => i,
    };
    proof {
        lemma_find_sep(url@);
    }
    let scheme_s = url.substring_char(0, sep_i);
    proof {
        assert(scheme_s@ =~= scheme_part(url@));
    }
    if !is_http(scheme_s) {
        return Err(String::from_str("unsupported scheme: ").concat(scheme_s));
    }
    let after = url.substring_char(sep_i + 3, n);
    proof {
        assert(after@ =~= after_sep(url@));
    }
    let n_after: usize = after.unicode_len();
    let slash_i: Option<usize> = find_char(after, '/');
    let (auth_s, rest_opt): (&str, Option<&str>) = match slash_i {
        None => (after, None),
        Some(i) => {
            proof {
                lemma_find_ch(after@, '/');
            }
            (after.substring_char(0, i), Some(after.substring_char(i + 1, n_after)))
        },
    };
    proof {
        assert(auth_s@ =~= authority(url@));
    }
    let n_auth: usize = auth_s.unicode_len();
    let colon_i: Option<usize> = find_char(auth_s, ':');
    let (host_s, port_opt): (&str, Option<&str>) = match colon_i {
        None => (auth_s, None),
        Some(i) => {
            proof {
                lemma_find_ch(auth_s@, ':');
            }
            (auth_s.substring_char(0, i), Some(auth_s.substring_char(i + 1, n_auth)))
        },
    };
    proof {
        assert(host_s@ =~= host_part(url@));
        if let Some(p) = port_opt {
            assert(p@ =~= port_part(url@).unwrap());
        }
    }
    if host_s.unicode_len() == 0 {
        return Err(String::from_str("missing host"));
    }
    let port_s: String = match port_opt {
        None => String::from_str("80"),
        Some(p) => match parse_port(p) {
            None => {
                return Err(String::from_str("invalid port: ").concat(p));
            },
            Some(_) => p.to_owned(),
        },
    };
    let (path_s, search_s): (String, String) = match rest_opt {
        None => (String::from_str(slash()), String::new()),
        Some(rem) => {
            let n_rem: usize = rem.unicode_len();
            match find_char(rem, '?') {
                None => (String::from_str(slash()).concat(rem), String::new()),
                Some(i) => {
                    proof {
                        lemma_find_ch(rem@, '?');
                    }
                    (
                        String::from_str(slash()).concat(rem.substring_char(0, i)),
                        String::from_str("?").concat(rem.substring_char(i + 1, n_rem)),
                    )
                },
            }
        },
    };
    proof {
        assert(path_s@ =~= path_part(url@));
    }
    Ok((host_s.to_owned(), port_s, path_s, search_s))
}

/// A URL held with each component as raw text, filled in by `parse`.
#[derive(Debug, Clone)]
pub struct Url {
    pub url: String,
    pub host: String,
    pub port: String,
    pub path: String,
    pub search_part: String,
}

impl PartialEq for Url {
    fn eq(&self, other: &Url) -> bool {
        self.url == other.url && self.host == other.host && self.port == other.port && self.path
            == other.path && self.search_part == other.search_part
    }
}

impl vstd::std_specs::cmp::PartialEqSpecImpl for Url {
    open spec fn obeys_eq_spec() -> bool {
        true
    }

    open spec fn eq_spec(&self, other: &Url) -> bool {
        &&& self.url@ == other.url@
        &&& self.host@ == other.host@
        &&& self.port@ == other.port@
        &&& self.path@ == other.path@
        &&& self.search_part@ == other.search_part@
    }
}

impl Url {
    /// Hold the raw input, with every component still empty until `parse`.
    pub fn new(url: String) -> (r: Url)
        ensures
            r.url@ == url@,
            r.host@ == Seq::<char>::empty(),
            r.port@ == Seq::<char>::empty(),
            r.path@ == Seq::<char>::empty(),
            r.search_part@ == Seq::<char>::empty(),
    {
        Url {
            url,
            host: String::new(),
            port: String::new(),
            path: String::new(),
            search_part: String::new(),
        }
    }

    /// Fill every component from the held input and return the result; on
    /// failure, report the error text and leave the value untouched.
    pub fn parse(&mut self) -> (r: Result<Url, String>)
        ensures
            ({
                let s = old(self).url@;
                if parses(s) {
                    &&& final(self).url@ == s
                    &&& final(self).host@ == host_part(s)
                    &&& final(self).port@ == port_text(s)
                    &&& final(self).path@ == path_part(s)
                    &&& final(self).search_part@ == search_text(s)
                    &&& (r matches Ok(u) && u.url@ == s && u.host@ == host_part(s) && u.port@
                        == port_text(s) && u.path@ == path_part(s) && u.search_part@
                        == search_text(s))
                } else {
                    &&& *final(self) == *old(self)
                    &&& (r matches Err(m) && m@ == error_text(s))
                }
            }),
    {
        match parts(self.url.as_str()) {
            Err(m) => Err(m),
            Ok(t) => {
                let (h, po, pa, se) = t;
                self.host = h;
                self.port = po;
                self.path = pa;
                self.search_part = se;
                Ok(
                    Url {
                        url: self.url.clone(),
                        host: self.host.clone(),
                        port: self.port.clone(),
                        path: self.path.clone(),
                        search_part: self.search_part.clone(),
                    },
                )
            },
        }
    }

    /// The host of the input, validated like a full parse.
    pub fn extract_host(url: &str) -> (r: Result<String, String>)
        ensures
            match r {
                Ok(h) => parses(url@) && h@ == host_part(url@),
                Err(m) => !parses(url@) && m@ == error_text(url@),
            },
    {
        match parts(url) {
            Ok(t) => Ok(t.0),
            Err(m) => Err(m),
        }
    }

    /// The port text of the input — `"80"` when absent — validated like a
    /// full parse.
    pub fn extract_port(url: &str) -> (r: Result<String, String>)
        ensures
            match r {
                Ok(p) => parses(url@) && p@ == port_text(url@),
                Err(m) => !parses(url@) && m@ == error_text(url@),
            },
    {
        match parts(url) {
            Ok(t) => Ok(t.1),
            Err(m) => Err(m),
        }
    }

    /// The path of the input, validated like a full parse.
    pub fn extract_path(url: &str) -> (r: Result<String, String>)
        ensures
            match r {
                Ok(p) => parses(url@) && p@ == path_part(url@),
                Err(m) => !parses(url@) && m@ == error_text(url@),
            },
    {
        match parts(url) {
            Ok(t) => Ok(t.2),
            Err(m) => Err(m),
        }
    }

    /// The search part of the input — empty when absent — validated like a
    /// full parse.
    pub fn extract_search_part(url: &str) -> (r: Result<String, String>)
        ensures
            match r {
                Ok(p) => parses(url@) && p@ == search_text(url@),
                Err(m) => !parses(url@) && m@ == error_text(url@),
            },
    {
        match parts(url) {
            Ok(t) => Ok(t.3),
            Err(m) => Err(m),
        }
    }
}

} // verus!
