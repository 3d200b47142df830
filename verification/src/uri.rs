//! The URI resolver: parses a textual URI against a fixed grammar of
//! optional `scheme://`, domain, optional `:port`, optional `/path` and
//! optional `?query`, and carries the pieces as Address and Target
//! values.
use vstd::prelude::*;
use crate::bytes::{spec_lower, lower, bytes_eq, subvec, append_bytes, spec_find, find_byte, lemma_find_props, spec_split, split, spec_parse_dec, parse_dec};
use crate::tokens::Protocol;

verus! {

/// One query parameter: a name and an optional value.
pub struct Parameter {
    pub name: Vec<u8>,
    pub value: Option<Vec<u8>>,
}

/// A parameter as the specification sees it.
pub type ParamPair = (Seq<u8>, Option<Seq<u8>>);

/// The pair a Parameter stands for.
pub open spec fn spec_param_view(p: Parameter) -> ParamPair {
    (p.name@, match p.value {
        Some(v) => Some(v@),
        None => None,
    })
}

/// The pairs a parameter list stands for.
pub open spec fn spec_params_view(ps: Seq<Parameter>) -> Seq<ParamPair> {
    ps.map_values(|p: Parameter| spec_param_view(p))
}

/// One parameter read from query text: split at `=`; text without `=`
/// is a name alone, text with more than one `=` is rejected whole.
pub open spec fn spec_parse_parameter(s: Seq<u8>) -> Option<ParamPair> {
    let parts = spec_split(s, 61);
    if parts.len() > 2 {
        None
    } else if parts.len() == 1 {
        Some((parts[0], None))
    } else {
        Some((parts[0], Some(parts[1])))
    }
}

/// The parameters of a query string: split at `&`, each piece parsed,
/// rejected pieces dropped whole.
pub open spec fn spec_parse_parameters(parts: Seq<Seq<u8>>) -> Seq<ParamPair>
    decreases parts.len(),
{
    if parts.len() == 0 {
        Seq::empty()
    } else {
        let rest = spec_parse_parameters(parts.drop_first());
        match spec_parse_parameter(parts.first()) {
            Some(p) => seq![p] + rest,
            None => rest,
        }
    }
}

/// A query string's parameters, in order of appearance.
pub open spec fn spec_parse_query(s: Seq<u8>) -> Seq<ParamPair> {
    spec_parse_parameters(spec_split(s, 38))
}

/// One parameter rendered back to query text.
pub open spec fn spec_construct_parameter(p: ParamPair) -> Seq<u8> {
    match p.1 {
        Some(v) => p.0 + seq![61u8] + v,
        None => p.0,
    }
}

impl Parameter {
    /// Packs a name and an optional value.
    pub fn new(name: Vec<u8>, value: Option<Vec<u8>>) -> (r: Parameter)
        ensures
            r.name@ == name@,
            r.value == value,
    {
        Parameter { name, value }
    }

    /// Splits one piece of query text at `=`; a piece with more than
    /// one `=` is rejected whole.
    pub fn parse(parameter: &Vec<u8>) -> (r: Option<Parameter>)
        ensures
            match r {
                Some(p) => spec_parse_parameter(parameter@) == Some(spec_param_view(p)),
                None => spec_parse_parameter(parameter@) == None::<ParamPair>,
            },
    {
        let mut parts = split(parameter, 61);
        if parts.len() > 2 {
            return None;
        }
        proof {
            assert(parts.deep_view()[0] == parts@[0]@);
        }
        if parts.len() == 1 {
            let name = parts.pop().unwrap();
            Some(Parameter { name, value: None })
        } else {
            proof {
                assert(parts.deep_view()[1] == parts@[1]@);
            }
            let value = parts.pop().unwrap();
            let name = parts.pop().unwrap();
            Some(Parameter { name, value: Some(value) })
        }
    }

    /// Parses a whole query string: split at `&`, each piece parsed,
    /// rejected pieces dropped whole, order kept.
    #[verifier::loop_isolation(false)]
    pub fn parse_many(parameters: &Vec<u8>) -> (r: Vec<Parameter>)
        ensures
            spec_params_view(r@) == spec_parse_query(parameters@),
    {
        let parts = split(parameters, 38);
        let ghost all = parts.deep_view();
        let mut out: Vec<Parameter> = Vec::new();
        let mut i: usize = 0;
        proof {
            assert(all.skip(0) =~= all);
            assert(spec_params_view(out@) + spec_parse_parameters(all)
                =~= spec_parse_parameters(all));
        }
        while i < parts.len()
            invariant
                i <= parts@.len(),
                all == parts.deep_view(),
                spec_parse_parameters(all) == spec_params_view(out@)
                    + spec_parse_parameters(all.skip(i as int)),
            decreases parts.len() - i,
        {
            proof {
                assert(all.skip(i as int).first() == all[i as int]);
                assert(all.skip(i as int).drop_first() =~= all.skip(i + 1));
                assert(all[i as int] == parts@[i as int]@);
            }
            let ghost out0 = out@;
            match Parameter::parse(&parts[i]) {
                Some(p) => {
                    out.push(p);
                    proof {
                        assert(spec_params_view(out@) =~= spec_params_view(out0).push(
                            spec_param_view(out@[out@.len() - 1])));
                    }
                },
                None => {},
            }
            proof {
                assert(spec_parse_parameters(all) =~= spec_params_view(out@)
                    + spec_parse_parameters(all.skip(i + 1)));
            }
            i = i + 1;
        }
        proof {
            assert(all.skip(all.len() as int) =~= Seq::<Seq<u8>>::empty());
            assert(spec_parse_parameters(all) =~= spec_params_view(out@));
        }
        out
    }

    /// Renders this parameter back to query text.
    pub fn construct(&self) -> (r: Vec<u8>)
        ensures
            r@ == spec_construct_parameter(spec_param_view(*self)),
    {
        match &self.value {
            Some(v) => {
                let mut out: Vec<u8> = Vec::new();
                append_bytes(&mut out, &self.name);
                out.push(61u8);
                append_bytes(&mut out, v);
                proof {
                    assert(out@ =~= self.name@ + seq![61u8] + v@);
                }
                out
            },
            None => subvec(&self.name, 0, self.name.len()),
        }
    }
}

/// A request target: a location path and the query parameters, in
/// order of appearance.
pub struct Target {
    pub location: Vec<u8>,
    pub parameters: Vec<Parameter>,
}

/// Splitting a target at its first `?`: the location before it and the
/// query parameters after it; without `?` the whole text is the
/// location and there are no parameters.
pub open spec fn spec_parse_target(s: Seq<u8>) -> (Seq<u8>, Seq<ParamPair>) {
    let q = spec_find(s, 0, 63);
    if q < 0 {
        (s, Seq::empty())
    } else {
        (s.subrange(0, q), spec_parse_query(s.subrange(q + 1, s.len() as int)))
    }
}

/// A target rendered back to text: the location, then `?` and the
/// `&`-joined parameters when there are any.
pub open spec fn spec_construct_target(location: Seq<u8>, params: Seq<ParamPair>) -> Seq<u8> {
    if params.len() == 0 {
        location
    } else {
        location + seq![63u8] + spec_join_params(params)
    }
}

/// Parameters joined by `&`.
pub open spec fn spec_join_params(params: Seq<ParamPair>) -> Seq<u8>
    decreases params.len(),
{
    if params.len() == 0 {
        Seq::empty()
    } else if params.len() == 1 {
        spec_construct_parameter(params.last())
    } else {
        spec_join_params(params.drop_last()) + seq![38u8] + spec_construct_parameter(params.last())
    }
}

/// Joining one more parameter appends `&` and its text.
pub proof fn lemma_join_params_snoc(params: Seq<ParamPair>, p: ParamPair)
    ensures
        params.len() == 0 ==> spec_join_params(params.push(p)) == spec_construct_parameter(p),
        params.len() > 0 ==> spec_join_params(params.push(p))
            == spec_join_params(params) + seq![38u8] + spec_construct_parameter(p),
{
    assert(params.push(p).drop_last() =~= params);
    assert(params.push(p).last() == p);
}

impl Target {
    /// The default target: location `/`, no parameters.
    pub fn default() -> (r: Target)
        ensures
            r.location@ == seq![47u8],
            r.parameters@.len() == 0,
    {
        let location: Vec<u8> = vec![47u8];
        proof {
            assert(location@ =~= seq![47u8]);
        }
        Target { location, parameters: Vec::new() }
    }

    /// Splits a target at its first `?` into location and parameters.
    pub fn parse(target: &Vec<u8>) -> (r: Option<Target>)
        ensures
            match r {
                Some(t) => (t.location@, spec_params_view(t.parameters@))
                    == spec_parse_target(target@),
                None => false,
            },
    {
        let n = target.len();
        proof {
            lemma_find_props(target@, 0, 63);
        }
        match find_byte(target, 0, 63) {
            Some(q) => {
                let location = subvec(target, 0, q);
                let query = subvec(target, q + 1, n);
                let parameters = Parameter::parse_many(&query);
                Some(Target { location, parameters })
            },
            None => {
                let location = subvec(target, 0, target.len());
                proof {
                    assert(target@.subrange(0, target@.len() as int) =~= target@);
                }
                Some(Target { location, parameters: Vec::new() })
            },
        }
    }

    /// Renders this target back to text.
    #[verifier::loop_isolation(false)]
    pub fn construct(&self) -> (r: Vec<u8>)
        ensures
            r@ == spec_construct_target(self.location@, spec_params_view(self.parameters@)),
    {
        let mut out = subvec(&self.location, 0, self.location.len());
        if self.parameters.len() == 0 {
            return out;
        }
        out.push(63u8);
        let ghost params = spec_params_view(self.parameters@);
        let mut i: usize = 0;
        while i < self.parameters.len()
            invariant
                i <= self.parameters@.len(),
                params == spec_params_view(self.parameters@),
                params.len() == self.parameters@.len(),
                out@ == self.location@ + seq![63u8] + spec_join_params(params.take(i as int)),
            decreases self.parameters.len() - i,
        {
            if i > 0 {
                out.push(38u8);
            }
            let piece = self.parameters[i].construct();
            append_bytes(&mut out, &piece);
            proof {
                assert(params[i as int] == spec_param_view(self.parameters@[i as int]));
                lemma_join_params_snoc(params.take(i as int), params[i as int]);
                assert(params.take(i + 1) =~= params.take(i as int).push(params[i as int]));
                assert(out@ =~= self.location@ + seq![63u8] + spec_join_params(params.take(i + 1)));
            }
            i = i + 1;
        }
        proof {
            assert(params.take(params.len() as int) =~= params);
        }
        out
    }
}

/// A dial address: a domain and a port.
pub struct Address {
    pub domain: Vec<u8>,
    pub port: usize,
}

impl Address {
    /// Packs a domain with an explicit port, or the plain default
    /// port 80.
    pub fn new(domain: Vec<u8>, port: Option<usize>) -> (r: Address)
        ensures
            r.domain@ == domain@,
            r.port == match port {
                Some(p) => p,
                None => 80usize,
            },
    {
        let port = match port {
            Some(p) => p,
            None => 80,
        };
        Address { domain, port }
    }

    /// The `domain:port` dial text.
    pub fn to_string(&self) -> (r: Vec<u8>)
        ensures
            r@ == self.domain@ + seq![58u8] + crate::bytes::spec_dec_of(self.port as int),
    {
        let mut out = subvec(&self.domain, 0, self.domain.len());
        out.push(58u8);
        let digits = crate::bytes::dec_of(self.port);
        append_bytes(&mut out, &digits);
        proof {
            assert(out@ =~= self.domain@ + seq![58u8] + crate::bytes::spec_dec_of(self.port as int));
        }
        out
    }

    /// The `Host` header text: `www.` before the domain.
    pub fn host(&self) -> (r: Vec<u8>)
        ensures
            r@ == seq![119u8, 119u8, 119u8, 46u8] + self.domain@,
    {
        let mut out: Vec<u8> = vec![119u8, 119u8, 119u8, 46u8];
        append_bytes(&mut out, &self.domain);
        proof {
            assert(out@ =~= seq![119u8, 119u8, 119u8, 46u8] + self.domain@);
        }
        out
    }
}

/// A parsed URI: dial address, request target, optional scheme.
pub struct Uri {
    pub address: Address,
    pub target: Target,
    pub protocol: Option<Protocol>,
}

/// Whether `b` may stand in a domain: an ASCII letter, digit, hyphen
/// or dot.
pub open spec fn spec_is_domain_byte(b: u8) -> bool {
    (48 <= b <= 57) || (65 <= b <= 90) || (97 <= b <= 122) || b == 45 || b == 46
}

/// First index at `i` or later holding no domain byte; the length when
/// there is none.
pub open spec fn spec_scan_domain(s: Seq<u8>, i: int) -> int
    recommends
        0 <= i <= s.len(),
    decreases s.len() - i,
{
    if i < 0 || i >= s.len() {
        s.len() as int
    } else if !spec_is_domain_byte(s[i]) {
        i
    } else {
        spec_scan_domain(s, i + 1)
    }
}

/// Scans the domain bytes from `i`.
pub fn scan_domain(s: &Vec<u8>, i: usize) -> (r: usize)
    requires
        i <= s@.len(),
    ensures
        r == spec_scan_domain(s@, i as int),
        i <= r <= s@.len(),
    decreases s@.len() - i,
{
    if i >= s.len() {
        s.len()
    } else {
        let b = s[i];
        if (48 <= b && b <= 57) || (65 <= b && b <= 90) || (97 <= b && b <= 122) || b == 45 || b == 46 {
            scan_domain(s, i + 1)
        } else {
            i
        }
    }
}

/// First index at `i` or later holding no decimal digit; the length
/// when there is none.
pub open spec fn spec_scan_digits(s: Seq<u8>, i: int) -> int
    recommends
        0 <= i <= s.len(),
    decreases s.len() - i,
{
    if i < 0 || i >= s.len() {
        s.len() as int
    } else if !(48 <= s[i] <= 57) {
        i
    } else {
        spec_scan_digits(s, i + 1)
    }
}

/// Scans the digit bytes from `i`.
pub fn scan_digits(s: &Vec<u8>, i: usize) -> (r: usize)
    requires
        i <= s@.len(),
    ensures
        r == spec_scan_digits(s@, i as int),
        i <= r <= s@.len(),
    decreases s@.len() - i,
{
    if i >= s.len() {
        s.len()
    } else {
        let b = s[i];
        if 48 <= b && b <= 57 {
            scan_digits(s, i + 1)
        } else {
            i
        }
    }
}

/// The lower-case `http://` prefix.
pub open spec fn spec_http_prefix() -> Seq<u8> {
    seq![104u8, 116u8, 116u8, 112u8, 58u8, 47u8, 47u8]
}

/// The lower-case `https://` prefix.
pub open spec fn spec_https_prefix() -> Seq<u8> {
    seq![104u8, 116u8, 116u8, 112u8, 115u8, 58u8, 47u8, 47u8]
}

/// URI parsing: optional case-insensitive `scheme://`, a non-empty
/// domain of letters, digits, hyphens and dots, an optional `:port` of
/// digits that must fit a machine word, an optional location from `/`
/// to the first `?`, and an optional query after `?`.  The location
/// defaults to `/`; the port to 443 under the secure scheme, else 80.
/// Anything else trailing makes the whole parse fail.
pub open spec fn spec_parse_uri(s: Seq<u8>) -> Option<(Seq<u8>, int, Seq<u8>, Seq<ParamPair>, Option<Protocol>)> {
    let proto: Option<Protocol> = if s.len() >= 8 && spec_lower(s.take(8)) == spec_https_prefix() {
        Some(Protocol::Https)
    } else if s.len() >= 7 && spec_lower(s.take(7)) == spec_http_prefix() {
        Some(Protocol::Http)
    } else {
        None
    };
    let i: int = match proto {
        Some(Protocol::Https) => 8,
        Some(Protocol::Http) => 7,
        None => 0,
    };
    let d = spec_scan_domain(s, i);
    if d <= i {
        None
    } else {
        let domain = s.subrange(i, d);
        let has_port = d < s.len() && s[d] == 58;
        let e = if has_port {
            spec_scan_digits(s, d + 1)
        } else {
            d
        };
        if has_port && (e <= d + 1 || spec_parse_dec(s.subrange(d + 1, e)) is None) {
            None
        } else {
            let port: int = if has_port {
                spec_parse_dec(s.subrange(d + 1, e)).unwrap()
            } else if proto == Some(Protocol::Https) {
                443
            } else {
                80
            };
            let has_loc = e < s.len() && s[e] == 47;
            let q = spec_find(s, e, 63);
            let lend: int = if !has_loc {
                e
            } else if q < 0 {
                s.len() as int
            } else {
                q
            };
            let location: Seq<u8> = if has_loc {
                s.subrange(e, lend)
            } else {
                seq![47u8]
            };
            if lend == s.len() {
                Some((domain, port, location, Seq::empty(), proto))
            } else if s[lend] == 63 {
                Some((domain, port, location, spec_parse_query(s.subrange(lend + 1, s.len() as int)), proto))
            } else {
                None
            }
        }
    }
}

impl Uri {
    /// Parses a URI; text that does not fit the grammar yields `None`.
    pub fn parse(uri: &Vec<u8>) -> (r: Option<Uri>)
        ensures
            match r {
                Some(u) => spec_parse_uri(uri@) == Some(
                    (u.address.domain@, u.address.port as int, u.target.location@,
                        spec_params_view(u.target.parameters@), u.protocol)),
                None => spec_parse_uri(uri@) == None::<(Seq<u8>, int, Seq<u8>, Seq<ParamPair>, Option<Protocol>)>,
            },
    {
        let len = uri.len();
        let mut proto: Option<Protocol> = None;
        let mut i: usize = 0;
        if len >= 8 {
            let pre = lower(&subvec(uri, 0, 8));
            let https: Vec<u8> = vec![104u8, 116u8, 116u8, 112u8, 115u8, 58u8, 47u8, 47u8];
            proof {
                assert(https@ =~= spec_https_prefix());
                assert(uri@.subrange(0, 8) =~= uri@.take(8));
            }
            if bytes_eq(&pre, &https) {
                proto = Some(Protocol::Https);
                i = 8;
            }
        }
        if proto.is_none() && len >= 7 {
            let pre = lower(&subvec(uri, 0, 7));
            let http: Vec<u8> = vec![104u8, 116u8, 116u8, 112u8, 58u8, 47u8, 47u8];
            proof {
                assert(http@ =~= spec_http_prefix());
                assert(uri@.subrange(0, 7) =~= uri@.take(7));
            }
            if bytes_eq(&pre, &http) {
                proto = Some(Protocol::Http);
                i = 7;
            }
        }
        let d = scan_domain(uri, i);
        if d <= i {
            return None;
        }
        let domain = subvec(uri, i, d);
        let has_port = d < len && uri[d] == 58;
        let e = if has_port {
            scan_digits(uri, d + 1)
        } else {
            d
        };
        let mut port: usize = if proto == Some(Protocol::Https) {
            443
        } else {
            80
        };
        if has_port {
            if e <= d + 1 {
                return None;
            }
            let digits = subvec(uri, d + 1, e);
            match parse_dec(&digits) {
                Some(p) => {
                    port = p;
                },
                None => {
                    return None;
                },
            }
        }
        let has_loc = e < len && uri[e] == 47;
        proof {
            lemma_find_props(uri@, e as int, 63);
        }
        let q = find_byte(uri, e, 63);
        let lend: usize = if !has_loc {
            e
        } else {
            match q {
                Some(q) => q,
                None => len,
            }
        };
        let location: Vec<u8> = if has_loc {
            subvec(uri, e, lend)
        } else {
            let v: Vec<u8> = vec![47u8];
            proof {
                assert(v@ =~= seq![47u8]);
            }
            v
        };
        let parameters: Vec<Parameter> = if lend == len {
            Vec::new()
        } else if uri[lend] == 63 {
            let query = subvec(uri, lend + 1, len);
            Parameter::parse_many(&query)
        } else {
            return None;
        };
        Some(Uri {
            address: Address { domain, port },
            target: Target { location, parameters },
            protocol: proto,
        })
    }
}

} // verus!
