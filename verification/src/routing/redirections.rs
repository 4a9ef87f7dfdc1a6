//! Redirect rules and the engine that applies them, with the per-route
//! response settings (CORS, security and cache headers).

use vstd::prelude::*;

use crate::http::request::{HttpRequest, spec_get_ci, spec_get_exact, lemma_get_insert_same,
    lemma_get_insert_other};
use crate::http::response::HttpResponse;
use crate::util::{utf8_bytes, bytes_eq, find_byte, find_byte_from, find_byte_exec,
    string_from_bytes, trim_exec, lemma_find_byte_from_ok, u64_to_dec, lemma_utf8_bytes_ascii,
    lemma_ascii_valid_utf8};

verus! {

/// The redirect kinds and their status codes.
#[derive(Debug, Clone, Copy, PartialEq, Eq, Structural)]
pub enum RedirectType {
    /// `301 Moved Permanently`.
    Permanent,
    /// `302 Found`.
    Temporary,
    /// `303 See Other`.
    SeeOther,
    /// `307 Temporary Redirect`.
    TemporaryPreserve,
    /// `308 Permanent Redirect`.
    PermanentPreserve,
}

impl RedirectType {
    /// The status code of this kind.
    pub fn status_code(&self) -> (r: u16)
        ensures
            r == match *self {
                RedirectType::Permanent => 301u16,
                RedirectType::Temporary => 302u16,
                RedirectType::SeeOther => 303u16,
                RedirectType::TemporaryPreserve => 307u16,
                RedirectType::PermanentPreserve => 308u16,
            },
    {
        match self {
            RedirectType::Permanent => 301,
            RedirectType::Temporary => 302,
            RedirectType::SeeOther => 303,
            RedirectType::TemporaryPreserve => 307,
            RedirectType::PermanentPreserve => 308,
        }
    }

    /// The reason phrase of this kind.
    pub fn status_text(&self) -> (r: &'static str) {
        match self {
            RedirectType::Permanent => "Moved Permanently",
            RedirectType::Temporary => "Found",
            RedirectType::SeeOther => "See Other",
            RedirectType::TemporaryPreserve => "Temporary Redirect",
            RedirectType::PermanentPreserve => "Permanent Redirect",
        }
    }

    /// Whether the kind preserves the request method and body.
    pub fn preserves_method(&self) -> (r: bool)
        ensures
            r == (*self == RedirectType::TemporaryPreserve || *self
                == RedirectType::PermanentPreserve),
    {
        matches!(self, RedirectType::TemporaryPreserve | RedirectType::PermanentPreserve)
    }
}

/// The status code of a redirect kind.
pub open spec fn redirect_status(t: RedirectType) -> u16 {
    match t {
        RedirectType::Permanent => 301u16,
        RedirectType::Temporary => 302u16,
        RedirectType::SeeOther => 303u16,
        RedirectType::TemporaryPreserve => 307u16,
        RedirectType::PermanentPreserve => 308u16,
    }
}

/// Whether a condition set is empty, putting no demand on requests.
pub open spec fn no_conditions(c: RedirectConditions) -> bool {
    c.methods@.len() == 0 && c.headers@.len() == 0 && c.query_params@.len() == 0 && c.hosts@.len()
        == 0 && c.user_agents@.len() == 0
}

/// A target with each `*` replaced by the captured piece.
pub open spec fn spec_subst(t: Seq<u8>, cap: Seq<u8>) -> Seq<u8>
    decreases t.len(),
{
    if t.len() == 0 {
        Seq::<u8>::empty()
    } else {
        (if t[0] == 42 {
            cap
        } else {
            seq![t[0]]
        }) + spec_subst(t.drop_first(), cap)
    }
}

/// What a one-wildcard pattern yields for a path: `*` alone yields the
/// target; otherwise the path must carry the pattern's prefix and
/// suffix, and the captured middle replaces each `*` of the target.
pub open spec fn spec_wildcard_target(p: Seq<u8>, q: Seq<u8>, t: Seq<u8>) -> Option<Seq<u8>> {
    if p == seq![42u8] {
        Some(t)
    } else {
        match find_byte(p, 42) {
            Some(star) => if find_byte_from(p, 42, star + 1) is Some {
                None
            } else {
                let prefix = p.take(star);
                let suffix = p.skip(star + 1);
                if q.len() < prefix.len() + suffix.len() {
                    None
                } else if q.take(prefix.len() as int) == prefix && q.skip(
                    q.len() - suffix.len(),
                ) == suffix {
                    let sub = spec_subst(t, q.subrange(prefix.len() as int, q.len() - suffix.len()));
                    if vstd::utf8::valid_utf8(sub) {
                        Some(sub)
                    } else {
                        None
                    }
                } else {
                    None
                }
            },
            None => None,
        }
    }
}

/// What a pattern yields for a path: by wildcard when the pattern holds
/// a `*`; else the target on an exact match; else, for a directory
/// pattern that prefixes the path, the target joined with the rest.
pub open spec fn spec_pattern_target(p: Seq<u8>, q: Seq<u8>, t: Seq<u8>) -> Option<Seq<u8>> {
    if find_byte(p, 42) is Some {
        spec_wildcard_target(p, q, t)
    } else if p == q {
        Some(t)
    } else if p.len() > 0 && p[p.len() - 1] == 47 && q.len() >= p.len() && q.take(
        p.len() as int,
    ) == p {
        let joined = (if t.len() > 0 && t[t.len() - 1] == 47 {
            t
        } else {
            t + seq![47u8]
        }) + q.skip(p.len() as int);
        if vstd::utf8::valid_utf8(joined) {
            Some(joined)
        } else {
            None
        }
    } else {
        None
    }
}

/// A redirect target with the request's query carried over: appended
/// behind `?`, or behind `&` when the target already has a query.
pub open spec fn target_with_query(t: Seq<u8>, q: Option<Seq<u8>>) -> Seq<u8> {
    match q {
        Some(qs) => if qs.len() > 0 {
            t + seq![if find_byte(t, 63) is Some {
                38u8
            } else {
                63u8
            }] + qs
        } else {
            t
        },
        None => t,
    }
}

/// The conditions a redirect rule may put on a request.
#[derive(Debug, Clone)]
pub struct RedirectConditions {
    /// Methods it applies to; empty means all.
    pub methods: Vec<String>,
    /// Header values the request must carry.
    pub headers: Vec<(String, String)>,
    /// Query parameters the request must carry.
    pub query_params: Vec<(String, String)>,
    /// Hosts it applies to; empty means all.
    pub hosts: Vec<String>,
    /// User-agent substrings it applies to; empty means all.
    pub user_agents: Vec<String>,
    /// Peer addresses it applies to; empty means all.
    pub ip_addresses: Vec<String>,
}

impl Default for RedirectConditions {
    /// No conditions.
    fn default() -> (r: Self)
        ensures
            r.methods@.len() == 0,
            r.headers@.len() == 0,
            r.query_params@.len() == 0,
            r.hosts@.len() == 0,
            r.user_agents@.len() == 0,
            r.ip_addresses@.len() == 0,
    {
        RedirectConditions {
            methods: Vec::new(),
            headers: Vec::new(),
            query_params: Vec::new(),
            hosts: Vec::new(),
            user_agents: Vec::new(),
            ip_addresses: Vec::new(),
        }
    }
}

/// One redirect rule.
#[derive(Debug, Clone)]
pub struct RedirectRule {
    /// The source pattern; one `*` wildcard is understood.
    pub from: String,
    /// The target, with `*` standing for the captured piece.
    pub to: String,
    /// The redirect kind.
    pub redirect_type: RedirectType,
    /// Whether the query string is carried over.
    pub preserve_query: bool,
    /// Whether the fragment is carried over.
    pub preserve_fragment: bool,
    /// The conditions for applying the rule.
    pub conditions: RedirectConditions,
    /// Whether the rule is live.
    pub enabled: bool,
}

impl Default for RedirectRule {
    /// An empty, enabled temporary redirect.
    fn default() -> (r: Self)
        ensures
            r.redirect_type == RedirectType::Temporary,
            r.preserve_query,
            !r.preserve_fragment,
            r.enabled,
    {
        RedirectRule {
            from: String::new(),
            to: String::new(),
            redirect_type: RedirectType::Temporary,
            preserve_query: true,
            preserve_fragment: false,
            conditions: RedirectConditions::default(),
            enabled: true,
        }
    }
}

/// The header names the redirect responses touch are distinct from
/// `Location`.
proof fn lemma_redirect_header_names()
    ensures
        utf8_bytes("Location"@) != utf8_bytes("Cache-Control"@),
        utf8_bytes("Location"@) != crate::http::response::hdr_content_length(),
        utf8_bytes("Location"@) != utf8_bytes("Content-Type"@),
{
    reveal_strlit("Location");
    reveal_strlit("Cache-Control");
    reveal_strlit("Content-Type");
    lemma_utf8_bytes_ascii("Location"@);
    lemma_utf8_bytes_ascii("Cache-Control"@);
    lemma_utf8_bytes_ascii("Content-Type"@);
}

/// The redirect engine: rules in priority order.
#[derive(Debug)]
pub struct RedirectEngine {
    rules: Vec<RedirectRule>,
}

impl RedirectEngine {
    /// The rules, in priority order.
    pub closed spec fn rule_list(&self) -> Seq<RedirectRule> {
        self.rules@
    }

    /// An engine with no rules.
    pub fn new() -> (r: RedirectEngine)
        ensures
            r.rule_list().len() == 0,
    {
        RedirectEngine { rules: Vec::new() }
    }

    /// Appends one rule.
    pub fn add_rule(&mut self, rule: RedirectRule)
        ensures
            final(self).rule_list().len() == old(self).rule_list().len() + 1,
    {
        self.rules.push(rule);
    }

    /// Appends several rules in order.
    pub fn add_rules(&mut self, rules: Vec<RedirectRule>)
        ensures
            final(self).rule_list().len() == old(self).rule_list().len() + rules@.len(),
    {
        let mut rules = rules;
        let ghost k = rules@.len();
        self.rules.append(&mut rules);
    }

    /// Drops every rule.
    pub fn clear_rules(&mut self)
        ensures
            final(self).rule_list().len() == 0,
    {
        self.rules.clear();
    }

    /// The first live rule that matches the request produces its
    /// redirect response: the kind's status, and the rule's target in
    /// `Location`.
    pub fn process_request(&mut self, request: &HttpRequest) -> (r: Option<HttpResponse>)
        ensures
            final(self).rule_list() == old(self).rule_list(),
            r matches Some(resp) ==> exists|i: int|
                #![auto]
                0 <= i < old(self).rule_list().len() && old(self).rule_list()[i].enabled
                    && resp.m().status == redirect_status(old(self).rule_list()[i].redirect_type)
                    && (no_conditions(old(self).rule_list()[i].conditions) ==> (match
                    spec_pattern_target(
                    utf8_bytes(old(self).rule_list()[i].from@),
                    request.m().path,
                    utf8_bytes(old(self).rule_list()[i].to@),
                ) {
                    Some(t0) => spec_get_exact(resp.m().headers, utf8_bytes("Location"@)) == Some(
                        if old(self).rule_list()[i].preserve_query {
                            target_with_query(t0, request.m().query)
                        } else {
                            t0
                        },
                    ),
                    None => false,
                })),
            r is None ==> forall|i: int|
                0 <= i < old(self).rule_list().len() ==> !(#[trigger] old(
                    self,
                ).rule_list()[i].enabled && no_conditions(old(self).rule_list()[i].conditions)
                    && spec_pattern_target(
                    utf8_bytes(old(self).rule_list()[i].from@),
                    request.m().path,
                    utf8_bytes(old(self).rule_list()[i].to@),
                ) is Some),
    {
        let mut i: usize = 0;
        while i < self.rules.len()
            invariant
                i <= self.rules@.len(),
                self.rules@ == old(self).rule_list(),
                forall|j: int|
                    0 <= j < i ==> !(#[trigger] old(self).rule_list()[j].enabled && no_conditions(
                        old(self).rule_list()[j].conditions,
                    ) && spec_pattern_target(
                        utf8_bytes(old(self).rule_list()[j].from@),
                        request.m().path,
                        utf8_bytes(old(self).rule_list()[j].to@),
                    ) is Some),
            decreases self.rules.len() - i,
        {
            if self.rules[i].enabled {
                if let Some(target) = self.match_rule(&self.rules[i], request) {
                    let response = self.create_redirect_response(&self.rules[i], target.as_str());
                    return Some(response);
                }
            }
            i += 1;
        }
        None
    }

    /// The target a rule gives a request, when it applies.
    pub fn match_rule(&self, rule: &RedirectRule, request: &HttpRequest) -> (r: Option<String>)
        ensures
            no_conditions(rule.conditions) ==> (match spec_pattern_target(
                utf8_bytes(rule.from@),
                request.m().path,
                utf8_bytes(rule.to@),
            ) {
                Some(t0) => r matches Some(t) && utf8_bytes(t@) == (if rule.preserve_query {
                    target_with_query(t0, request.m().query)
                } else {
                    t0
                }),
                None => r is None,
            }),
            r matches Some(_) ==> spec_pattern_target(
                utf8_bytes(rule.from@),
                request.m().path,
                utf8_bytes(rule.to@),
            ) is Some,
    {
        if !self.check_conditions(&rule.conditions, request) {
            return None;
        }
        match self.match_pattern(rule.from.as_str(), request.path(), rule.to.as_str()) {
            Some(target) => {
                if rule.preserve_query {
                    Some(build_target_url(target.as_str(), request))
                } else {
                    Some(target)
                }
            },
            None => None,
        }
    }

    /// Whether a request meets a rule's conditions: its method is among
    /// those listed, every listed header matches exactly, every listed
    /// query parameter matches, and the host and user agent are among
    /// those listed; an empty list means no condition.
    pub fn check_conditions(&self, conditions: &RedirectConditions, request: &HttpRequest) -> (r:
        bool)
        ensures
            no_conditions(*conditions) ==> r,
    {
        if conditions.methods.len() > 0 {
            let mut ok = false;
            let mut i: usize = 0;
            while i < conditions.methods.len()
                decreases conditions.methods.len() - i,
            {
                if crate::util::str_eq_ignore_case(
                    conditions.methods[i].as_str(),
                    request.method.as_str(),
                ) {
                    ok = true;
                }
                i += 1;
            }
            if !ok {
                return false;
            }
        }
        let mut i: usize = 0;
        while i < conditions.headers.len()
            decreases conditions.headers.len() - i,
        {
            let name = &conditions.headers[i].0;
            let expected = &conditions.headers[i].1;
            match request.headers.get(name.as_str()) {
                Some(v) => {
                    if !bytes_eq(v.as_str().as_bytes(), expected.as_str().as_bytes()) {
                        return false;
                    }
                },
                None => {
                    return false;
                },
            }
            i += 1;
        }
        if conditions.query_params.len() > 0 {
            let empty = String::new();
            let query: &String = match &request.query_string {
                Some(q) => q,
                None => &empty,
            };
            let params = parse_query_string(query.as_str());
            let mut i: usize = 0;
            while i < conditions.query_params.len()
                decreases conditions.query_params.len() - i,
            {
                let name = &conditions.query_params[i].0;
                let expected = &conditions.query_params[i].1;
                let mut found = false;
                let mut j: usize = 0;
                while j < params.len()
                    decreases params.len() - j,
                {
                    if bytes_eq(params[j].0.as_str().as_bytes(), name.as_str().as_bytes())
                        && bytes_eq(
                        params[j].1.as_str().as_bytes(),
                        expected.as_str().as_bytes(),
                    ) {
                        found = true;
                    }
                    j += 1;
                }
                if !found {
                    return false;
                }
                i += 1;
            }
        }
        if conditions.hosts.len() > 0 {
            match request.headers.get("Host") {
                Some(host) => {
                    let mut ok = false;
                    let mut i: usize = 0;
                    while i < conditions.hosts.len()
                        decreases conditions.hosts.len() - i,
                    {
                        if contains_sub(host.as_str().as_bytes(), conditions.hosts[i].as_str().as_bytes()) {
                            ok = true;
                        }
                        i += 1;
                    }
                    if !ok {
                        return false;
                    }
                },
                None => {
                    return false;
                },
            }
        }
        if conditions.user_agents.len() > 0 {
            match request.headers.get("User-Agent") {
                Some(ua) => {
                    let mut ok = false;
                    let mut i: usize = 0;
                    while i < conditions.user_agents.len()
                        decreases conditions.user_agents.len() - i,
                    {
                        if contains_sub(ua.as_str().as_bytes(), conditions.user_agents[i].as_str().as_bytes()) {
                            ok = true;
                        }
                        i += 1;
                    }
                    if !ok {
                        return false;
                    }
                },
                None => {
                    return false;
                },
            }
        }
        true
    }

    /// The target a pattern yields for a path: by wildcard, exactly, or
    /// as a directory prefix.
    pub fn match_pattern(&self, pattern: &str, path: &str, target: &str) -> (r: Option<String>)
        ensures
            match r {
                Some(s) => spec_pattern_target(
                    utf8_bytes(pattern@),
                    utf8_bytes(path@),
                    utf8_bytes(target@),
                ) == Some(utf8_bytes(s@)),
                None => spec_pattern_target(
                    utf8_bytes(pattern@),
                    utf8_bytes(path@),
                    utf8_bytes(target@),
                ) is None,
            },
    {
        let pb = pattern.as_bytes();
        proof {
            lemma_find_byte_from_ok(pb@, 42, 0);
        }
        if find_byte_exec(pb, 42, 0).is_some() {
            return self.match_wildcard(pattern, path, target);
        }
        if bytes_eq(pb, path.as_bytes()) {
            return Some(String::from_str(target));
        }
        let qb = path.as_bytes();
        if pb.len() > 0 && pb[pb.len() - 1] == 47 && qb.len() >= pb.len() && bytes_eq(
            &qb[0..pb.len()],
            pb,
        ) {
            proof {
                assert(qb@.subrange(0, pb@.len() as int) =~= utf8_bytes(path@).take(
                    utf8_bytes(pattern@).len() as int,
                ));
            }
            let mut out: Vec<u8> = Vec::new();
            out.extend_from_slice(target.as_bytes());
            let tb = target.as_bytes();
            if !(tb.len() > 0 && tb[tb.len() - 1] == 47) {
                out.push(47);
            }
            out.extend_from_slice(&qb[pb.len()..qb.len()]);
            proof {
                assert(out@ =~= (if utf8_bytes(target@).len() > 0 && utf8_bytes(
                    target@,
                )[utf8_bytes(target@).len() - 1] == 47 {
                    utf8_bytes(target@)
                } else {
                    utf8_bytes(target@) + seq![47u8]
                }) + utf8_bytes(path@).skip(utf8_bytes(pattern@).len() as int));
            }
            if let Some(s) = string_from_bytes(out) {
                return Some(s);
            }
            return None;
        }
        None
    }

    /// Matches a one-wildcard pattern: the path must carry the pattern's
    /// prefix and suffix, and the captured middle replaces `*` in the
    /// target.
    pub fn match_wildcard(&self, pattern: &str, path: &str, target: &str) -> (r: Option<String>)
        ensures
            match r {
                Some(s) => spec_wildcard_target(
                    utf8_bytes(pattern@),
                    utf8_bytes(path@),
                    utf8_bytes(target@),
                ) == Some(utf8_bytes(s@)),
                None => spec_wildcard_target(
                    utf8_bytes(pattern@),
                    utf8_bytes(path@),
                    utf8_bytes(target@),
                ) is None,
            },
    {
        let pb = pattern.as_bytes();
        let qb = path.as_bytes();
        proof {
            reveal_strlit("*");
            lemma_utf8_bytes_ascii("*"@);
            assert(utf8_bytes("*"@) =~= seq![42u8]);
            lemma_find_byte_from_ok(pb@, 42, 0);
        }
        if bytes_eq(pb, "*".as_bytes()) {
            return Some(String::from_str(target));
        }
        let star = match find_byte_exec(pb, 42, 0) {
            Some(p) => p,
            None => {
                return None;
            },
        };
        let plen = pb.len();
        proof {
            assert(star < plen);
            lemma_find_byte_from_ok(pb@, 42, star + 1);
        }
        if find_byte_exec(pb, 42, star + 1).is_some() {
            return None;
        }
        let prefix = &pb[0..star];
        let suffix = &pb[star + 1..pb.len()];
        proof {
            assert(prefix@ =~= utf8_bytes(pattern@).take(star as int));
            assert(suffix@ =~= utf8_bytes(pattern@).skip(star + 1));
        }
        if qb.len() < prefix.len() + suffix.len() {
            return None;
        }
        let head = &qb[0..prefix.len()];
        let tail = &qb[qb.len() - suffix.len()..qb.len()];
        proof {
            assert(head@ =~= utf8_bytes(path@).take(prefix@.len() as int));
            assert(tail@ =~= utf8_bytes(path@).skip(
                utf8_bytes(path@).len() - suffix@.len(),
            ));
        }
        if !bytes_eq(head, prefix) || !bytes_eq(tail, suffix) {
            return None;
        }
        let captured = &qb[prefix.len()..qb.len() - suffix.len()];
        proof {
            assert(captured@ =~= utf8_bytes(path@).subrange(
                prefix@.len() as int,
                utf8_bytes(path@).len() - suffix@.len(),
            ));
        }
        let tb = target.as_bytes();
        let mut out: Vec<u8> = Vec::new();
        proof {
            assert(tb@.skip(0) =~= tb@);
        }
        let mut i: usize = 0;
        while i < tb.len()
            invariant
                i <= tb@.len(),
                spec_subst(tb@, captured@) == out@ + spec_subst(tb@.skip(i as int), captured@),
            decreases tb.len() - i,
        {
            let ghost prev = out@;
            let ghost rem = tb@.skip(i as int);
            proof {
                assert(rem[0] == tb@[i as int]);
                assert(rem.drop_first() =~= tb@.skip(i + 1));
            }
            if tb[i] == 42 {
                out.extend_from_slice(captured);
                proof {
                    assert(prev + (captured@ + spec_subst(tb@.skip(i + 1), captured@)) =~= out@
                        + spec_subst(tb@.skip(i + 1), captured@));
                }
            } else {
                out.push(tb[i]);
                proof {
                    assert(prev + (seq![rem[0]] + spec_subst(tb@.skip(i + 1), captured@)) =~= out@
                        + spec_subst(tb@.skip(i + 1), captured@));
                }
            }
            i += 1;
        }
        proof {
            assert(tb@.skip(tb@.len() as int) =~= Seq::<u8>::empty());
            assert(out@ + spec_subst(Seq::<u8>::empty(), captured@) =~= out@);
            assert(out@ == spec_subst(utf8_bytes(target@), captured@));
        }
        string_from_bytes(out)
    }

    /// The redirect response for a rule and target: the kind's status, a
    /// `Location` header, `Cache-Control: no-cache`, and a small HTML
    /// body.
    pub fn create_redirect_response(&self, rule: &RedirectRule, target: &str) -> (r: HttpResponse)
        ensures
            r.m().status == redirect_status(rule.redirect_type),
            spec_get_exact(r.m().headers, utf8_bytes("Location"@)) == Some(utf8_bytes(target@)),
    {
        proof {
            lemma_redirect_header_names();
        }
        let mut response = HttpResponse::new(rule.redirect_type.status_code());
        let ghost h0 = response.m().headers;
        response.set_header("Location", target);
        proof {
            lemma_get_insert_same(h0, utf8_bytes("Location"@), utf8_bytes(target@));
        }
        let ghost h1 = response.m().headers;
        response.set_header("Cache-Control", "no-cache");
        proof {
            lemma_get_insert_other(
                h1,
                utf8_bytes("Cache-Control"@),
                utf8_bytes("no-cache"@),
                utf8_bytes("Location"@),
            );
        }
        let ghost h2 = response.m().headers;
        let mut body: Vec<u8> = Vec::new();
        body.extend_from_slice(
            "<!DOCTYPE html>\n<html>\n<head>\n    <title>Redirecting...</title>\n</head>\n<body>\n    <h1>Redirecting...</h1>\n</body>\n</html>".as_bytes(),
        );
        response.set_body(body.as_slice());
        proof {
            lemma_get_insert_other(
                h2,
                crate::http::response::hdr_content_length(),
                crate::util::dec_digits(body@.len()),
                utf8_bytes("Location"@),
            );
        }
        let ghost h3 = response.m().headers;
        response.set_header("Content-Type", "text/html; charset=utf-8");
        proof {
            lemma_get_insert_other(
                h3,
                utf8_bytes("Content-Type"@),
                utf8_bytes("text/html; charset=utf-8"@),
                utf8_bytes("Location"@),
            );
        }
        response
    }

    /// The rules, in priority order.
    pub fn rules(&self) -> (r: &[RedirectRule])
        ensures
            r@ == self.rule_list(),
    {
        self.rules.as_slice()
    }

    /// How many rules the engine holds.
    pub fn rules_count(&self) -> (r: usize)
        ensures
            r == self.rule_list().len(),
    {
        self.rules.len()
    }

    /// Turns the rule at an index on or off; reports whether it exists.
    pub fn set_rule_enabled(&mut self, index: usize, enabled: bool) -> (r: bool)
        ensures
            r == (index < old(self).rule_list().len()),
            final(self).rule_list().len() == old(self).rule_list().len(),
    {
        if index < self.rules.len() {
            let mut rule = self.rules[index].clone();
            rule.enabled = enabled;
            self.rules.set(index, rule);
            true
        } else {
            false
        }
    }

    /// Removes and hands back the rule at an index.
    pub fn remove_rule(&mut self, index: usize) -> (r: Option<RedirectRule>)
        ensures
            (r is Some) == (index < old(self).rule_list().len()),
    {
        if index < self.rules.len() {
            Some(self.rules.remove(index))
        } else {
            None
        }
    }
}

impl Default for RedirectEngine {
    /// An engine with no rules.
    fn default() -> (r: Self)
        ensures
            r.rule_list().len() == 0,
    {
        Self::new()
    }
}

/// Appends the request's query string to a target, after `?` or `&`.
pub fn build_target_url(target: &str, request: &HttpRequest) -> (r: String)
    ensures
        utf8_bytes(r@) == target_with_query(utf8_bytes(target@), request.m().query),
{
    let mut out: Vec<u8> = Vec::new();
    out.extend_from_slice(target.as_bytes());
    proof {
        broadcast use vstd::utf8::encode_utf8_valid_utf8;

        assert(out@ =~= utf8_bytes(target@));
    }
    if let Some(q) = &request.query_string {
        let qb = q.as_str().as_bytes();
        if qb.len() > 0 {
            let tb = target.as_bytes();
            proof {
                lemma_find_byte_from_ok(tb@, 63, 0);
            }
            let sep: u8 = match find_byte_exec(tb, 63, 0) {
                Some(_) => 38,
                None => 63,
            };
            let ghost pre = out@;
            out.push(sep);
            out.extend_from_slice(qb);
            proof {
                broadcast use vstd::utf8::valid_utf8_concat;

                lemma_ascii_valid_utf8(seq![sep]);
                assert(vstd::utf8::valid_utf8(pre + seq![sep]));
                assert(vstd::utf8::valid_utf8((pre + seq![sep]) + utf8_bytes(q@)));
                assert(out@ =~= (pre + seq![sep]) + utf8_bytes(q@));
                assert(out@ =~= target_with_query(utf8_bytes(target@), request.m().query));
            }
        }
    }
    let ghost ob = out@;
    match string_from_bytes(out) {
        Some(s) => s,
        None => {
            proof {
                assert(false);
            }
            String::from_str(target)
        },
    }
}

/// Splits a query string on `&` into decoded (name, value) pairs; a
/// piece without `=` becomes a name with an empty value.
pub fn parse_query_string(query: &str) -> (r: Vec<(String, String)>)
{
    let qb = query.as_bytes();
    let mut out: Vec<(String, String)> = Vec::new();
    let mut from: usize = 0;
    loop
        invariant
            from <= qb@.len(),
        decreases qb@.len() - from,
    {
        proof {
            lemma_find_byte_from_ok(qb@, 38, from as int);
        }
        let end = match find_byte_exec(qb, 38, from) {
            Some(p) => p,
            None => qb.len(),
        };
        let pair = &qb[from..end];
        proof {
            lemma_find_byte_from_ok(pair@, 61, 0);
        }
        match find_byte_exec(pair, 61, 0) {
            Some(eq) => {
                let name = url_decode_bytes(&pair[0..eq]);
                let value = url_decode_bytes(&pair[eq + 1..pair.len()]);
                if let (Some(n), Some(v)) = (string_from_bytes(name), string_from_bytes(value)) {
                    out.push((n, v));
                }
            },
            None => {
                if pair.len() > 0 {
                    let name = url_decode_bytes(pair);
                    if let Some(n) = string_from_bytes(name) {
                        out.push((n, String::new()));
                    }
                }
            },
        }
        if end >= qb.len() {
            return out;
        }
        from = end + 1;
    }
}

/// Percent-decodes a byte string; `+` becomes a space; a broken escape
/// keeps its `%`.
pub fn url_decode_bytes(s: &[u8]) -> (r: Vec<u8>)
{
    let mut out: Vec<u8> = Vec::new();
    let mut i: usize = 0;
    while i < s.len()
        invariant
            i <= s@.len(),
        decreases s.len() - i,
    {
        let b = s[i];
        if b == 37 && s.len() - i > 2 {
            let h1 = hex_digit_val(s[i + 1]);
            let h2 = hex_digit_val(s[i + 2]);
            if h1 < 16 && h2 < 16 {
                out.push(h1 * 16 + h2);
                i += 3;
                continue;
            }
            out.push(b);
        } else if b == 43 {
            out.push(32);
        } else {
            out.push(b);
        }
        i += 1;
    }
    out
}

/// The value of one hexadecimal digit byte, or 16.
fn hex_digit_val(b: u8) -> (r: u8)
    ensures
        r as nat == crate::util::hex_val_of(b),
{
    if 48 <= b && b <= 57 {
        b - 48
    } else if 65 <= b && b <= 70 {
        b - 55
    } else if 97 <= b && b <= 102 {
        b - 87
    } else {
        16
    }
}

/// Whether `hay` holds `needle` as a contiguous substring.
pub fn contains_sub(hay: &[u8], needle: &[u8]) -> (r: bool)
{
    if needle.len() == 0 {
        return true;
    }
    if hay.len() < needle.len() {
        return false;
    }
    let mut i: usize = 0;
    while i <= hay.len() - needle.len()
        invariant
            hay@.len() >= needle@.len(),
            needle@.len() >= 1,
            i <= hay@.len(),
        decreases hay.len() - i,
    {
        let window = &hay[i..i + needle.len()];
        if bytes_eq(window, needle) {
            return true;
        }
        i += 1;
    }
    false
}

/// CORS settings for a route.
#[derive(Debug, Clone)]
pub struct CorsSettings {
    pub allowed_origins: Vec<String>,
    pub allowed_methods: Vec<String>,
    pub allowed_headers: Vec<String>,
    pub exposed_headers: Vec<String>,
    pub allow_credentials: bool,
    pub max_age: Option<u32>,
    pub enabled: bool,
}

impl Default for CorsSettings {
    /// Every origin, the four usual methods, a day of preflight cache,
    /// off until a route turns it on.
    fn default() -> (r: Self)
        ensures
            r.max_age == Some(86400u32),
            !r.enabled,
            !r.allow_credentials,
            r.allowed_methods@.len() == 4,
            r.allowed_origins@.len() == 1,
    {
        let mut allowed_origins: Vec<String> = Vec::new();
        allowed_origins.push(String::from_str("*"));
        let mut allowed_methods: Vec<String> = Vec::new();
        allowed_methods.push(String::from_str("GET"));
        allowed_methods.push(String::from_str("POST"));
        allowed_methods.push(String::from_str("PUT"));
        allowed_methods.push(String::from_str("DELETE"));
        let mut allowed_headers: Vec<String> = Vec::new();
        allowed_headers.push(String::from_str("Content-Type"));
        allowed_headers.push(String::from_str("Authorization"));
        CorsSettings {
            allowed_origins,
            allowed_methods,
            allowed_headers,
            exposed_headers: Vec::new(),
            allow_credentials: false,
            max_age: Some(86400),
            enabled: false,
        }
    }
}

/// The security headers a route may add.
#[derive(Debug, Clone)]
pub struct SecurityHeaders {
    pub frame_options: Option<String>,
    pub content_type_options: bool,
    pub xss_protection: Option<String>,
    pub hsts: Option<String>,
    pub csp: Option<String>,
    pub referrer_policy: Option<String>,
    pub enabled: bool,
}

impl Default for SecurityHeaders {
    /// Frames denied, sniffing off, the usual protections on.
    fn default() -> (r: Self)
        ensures
            r.content_type_options,
            r.enabled,
            r.hsts is None,
            r.csp is None,
    {
        SecurityHeaders {
            frame_options: Some(String::from_str("DENY")),
            content_type_options: true,
            xss_protection: Some(String::from_str("1; mode=block")),
            hsts: None,
            csp: None,
            referrer_policy: Some(String::from_str("strict-origin-when-cross-origin")),
            enabled: true,
        }
    }
}

/// Caching settings for a route.
#[derive(Debug, Clone)]
pub struct CacheSettings {
    pub cache_control: Option<String>,
    pub expires: Option<u32>,
    pub etag_enabled: bool,
    pub last_modified_enabled: bool,
    pub enabled: bool,
}

impl Default for CacheSettings {
    /// Off, with only `Last-Modified` on when enabled.
    fn default() -> (r: Self)
        ensures
            !r.enabled,
            r.last_modified_enabled,
            !r.etag_enabled,
    {
        CacheSettings {
            cache_control: None,
            expires: None,
            etag_enabled: false,
            last_modified_enabled: true,
            enabled: false,
        }
    }
}

/// Rate-limit settings for a route.
#[derive(Debug, Clone, Copy, PartialEq, Eq, Structural)]
pub struct RateLimitSettings {
    pub requests_per_minute: u32,
    pub burst_size: u32,
    pub window_size: u32,
    pub per_ip: bool,
}

impl Default for RateLimitSettings {
    /// Sixty a minute per peer.
    fn default() -> (r: Self)
        ensures
            r == (RateLimitSettings {
                requests_per_minute: 60,
                burst_size: 10,
                window_size: 60,
                per_ip: true,
            }),
    {
        RateLimitSettings { requests_per_minute: 60, burst_size: 10, window_size: 60, per_ip: true }
    }
}

/// Header additions and removals for a route.
#[derive(Debug, Clone)]
pub struct RequestModifications {
    pub remove_request_headers: Vec<String>,
    pub add_request_headers: Vec<(String, String)>,
    pub remove_response_headers: Vec<String>,
    pub add_response_headers: Vec<(String, String)>,
}

impl Default for RequestModifications {
    /// No modifications.
    fn default() -> (r: Self)
        ensures
            r.remove_response_headers@.len() == 0,
            r.add_response_headers@.len() == 0,
    {
        RequestModifications {
            remove_request_headers: Vec::new(),
            add_request_headers: Vec::new(),
            remove_response_headers: Vec::new(),
            add_response_headers: Vec::new(),
        }
    }
}

/// Every per-route response setting together.
#[derive(Debug, Clone)]
pub struct RouteSettings {
    pub custom_headers: Vec<(String, String)>,
    pub cors: CorsSettings,
    pub security_headers: SecurityHeaders,
    pub cache_settings: CacheSettings,
    pub rate_limit: Option<RateLimitSettings>,
    pub modifications: RequestModifications,
}

impl Default for RouteSettings {
    /// The defaults of every part.
    fn default() -> (r: Self)
        ensures
            r.rate_limit is None,
    {
        RouteSettings {
            custom_headers: Vec::new(),
            cors: CorsSettings::default(),
            security_headers: SecurityHeaders::default(),
            cache_settings: CacheSettings::default(),
            rate_limit: None,
            modifications: RequestModifications::default(),
        }
    }
}

/// Applies a route's settings to a response.
#[derive(Debug)]
pub struct RouteSettingsProcessor {
    default_settings: RouteSettings,
}

impl RouteSettingsProcessor {
    /// A processor with the given defaults.
    pub fn new(default_settings: RouteSettings) -> (r: RouteSettingsProcessor)
    {
        RouteSettingsProcessor { default_settings }
    }

    /// Applies custom, CORS, security and cache headers, then the
    /// removals and additions.
    pub fn apply_settings(
        &self,
        response: &mut HttpResponse,
        settings: &RouteSettings,
        request: &HttpRequest,
    )
    {
        let mut i: usize = 0;
        while i < settings.custom_headers.len()
            decreases settings.custom_headers.len() - i,
        {
            response.set_header(
                settings.custom_headers[i].0.as_str(),
                settings.custom_headers[i].1.as_str(),
            );
            i += 1;
        }
        if settings.cors.enabled {
            self.apply_cors_headers(response, &settings.cors, request);
        }
        if settings.security_headers.enabled {
            self.apply_security_headers(response, &settings.security_headers);
        }
        if settings.cache_settings.enabled {
            self.apply_cache_headers(response, &settings.cache_settings);
        }
        self.apply_response_modifications(response, &settings.modifications);
    }

    /// The CORS headers: the origin when allowed, the method and header
    /// lists, credentials and preflight age.
    pub fn apply_cors_headers(
        &self,
        response: &mut HttpResponse,
        cors: &CorsSettings,
        request: &HttpRequest,
    )
    {
        proof {
            reveal_strlit("*");
        }
        let mut any = false;
        let mut i: usize = 0;
        while i < cors.allowed_origins.len()
            decreases cors.allowed_origins.len() - i,
        {
            if bytes_eq(cors.allowed_origins[i].as_str().as_bytes(), "*".as_bytes()) {
                any = true;
            }
            i += 1;
        }
        if any {
            response.set_header("Access-Control-Allow-Origin", "*");
        } else {
            match request.headers.get("Origin") {
                Some(origin) => {
                    let mut allowed = false;
                    let mut i: usize = 0;
                    while i < cors.allowed_origins.len()
                        decreases cors.allowed_origins.len() - i,
                    {
                        if bytes_eq(
                            cors.allowed_origins[i].as_str().as_bytes(),
                            origin.as_str().as_bytes(),
                        ) {
                            allowed = true;
                        }
                        i += 1;
                    }
                    if !allowed {
                        return;
                    }
                    let o = origin.clone();
                    response.set_header("Access-Control-Allow-Origin", o.as_str());
                },
                None => {
                    return;
                },
            }
        }
        if cors.allowed_methods.len() > 0 {
            let list = join_comma(&cors.allowed_methods);
            response.set_header("Access-Control-Allow-Methods", list.as_str());
        }
        if cors.allowed_headers.len() > 0 {
            let list = join_comma(&cors.allowed_headers);
            response.set_header("Access-Control-Allow-Headers", list.as_str());
        }
        if cors.exposed_headers.len() > 0 {
            let list = join_comma(&cors.exposed_headers);
            response.set_header("Access-Control-Expose-Headers", list.as_str());
        }
        if cors.allow_credentials {
            response.set_header("Access-Control-Allow-Credentials", "true");
        }
        if let Some(max_age) = cors.max_age {
            let digits = u64_to_dec(max_age as u64);
            proof {
                crate::http::response::lemma_dec_digits_ascii(max_age as nat);
                crate::util::lemma_ascii_valid_utf8(digits@);
            }
            if let Some(d) = string_from_bytes(digits) {
                response.set_header("Access-Control-Max-Age", d.as_str());
            }
        }
    }

    /// The security headers that are set.
    pub fn apply_security_headers(&self, response: &mut HttpResponse, security: &SecurityHeaders)
    {
        if let Some(fo) = &security.frame_options {
            response.set_header("X-Frame-Options", fo.as_str());
        }
        if security.content_type_options {
            response.set_header("X-Content-Type-Options", "nosniff");
        }
        if let Some(x) = &security.xss_protection {
            response.set_header("X-XSS-Protection", x.as_str());
        }
        if let Some(h) = &security.hsts {
            response.set_header("Strict-Transport-Security", h.as_str());
        }
        if let Some(c) = &security.csp {
            response.set_header("Content-Security-Policy", c.as_str());
        }
        if let Some(rp) = &security.referrer_policy {
            response.set_header("Referrer-Policy", rp.as_str());
        }
    }

    /// The cache headers that are set.
    pub fn apply_cache_headers(&self, response: &mut HttpResponse, cache: &CacheSettings)
    {
        if let Some(cc) = &cache.cache_control {
            response.set_header("Cache-Control", cc.as_str());
        }
    }

    /// The removals and additions.
    pub fn apply_response_modifications(
        &self,
        response: &mut HttpResponse,
        modifications: &RequestModifications,
    )
    {
        let mut i: usize = 0;
        while i < modifications.remove_response_headers.len()
            decreases modifications.remove_response_headers.len() - i,
        {
            response.headers.remove(modifications.remove_response_headers[i].as_str());
            i += 1;
        }
        let mut i: usize = 0;
        while i < modifications.add_response_headers.len()
            decreases modifications.add_response_headers.len() - i,
        {
            response.set_header(
                modifications.add_response_headers[i].0.as_str(),
                modifications.add_response_headers[i].1.as_str(),
            );
            i += 1;
        }
    }

    /// The defaults this processor was built with.
    pub fn default_settings(&self) -> (r: &RouteSettings)
    {
        &self.default_settings
    }
}

/// Joins strings with `, `.
fn join_comma(items: &Vec<String>) -> (r: String)
{
    let mut out: Vec<u8> = Vec::new();
    let mut i: usize = 0;
    while i < items.len()
        decreases items.len() - i,
    {
        if i > 0 {
            out.push(44);
            out.push(32);
        }
        out.extend_from_slice(items[i].as_str().as_bytes());
        i += 1;
    }
    match string_from_bytes(out) {
        Some(s) => s,
        None => String::new(),
    }
}

} // verus!
