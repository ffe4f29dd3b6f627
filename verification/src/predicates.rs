//! Predicate evaluation.
//!
//! A stub matches a request where all its predicates do. Evaluation is a function of the request
//! and of the findings it is given; where it needs an answer that is not among them it stops and
//! names the lookup. A failing `inject` script fails the evaluation, and the failure passes through
//! `not`, `or` and `and` instead of counting as a mismatch.

use crate::compare;
use crate::compare::{Comparator, Relation, Rule};
use crate::fields;
use crate::fields::{Subject, SubjectModel};
use crate::json;
use crate::json::{Json, JsonObject};
use crate::lookup;
use crate::predicate;
use crate::predicate::{
    Answer, AnswerModel, Finding, Lookup, LookupModel, MatchError, MatchErrorModel, Predicate,
    PredicateOperation, PredicateParameters, PredicateSelector,
};
use crate::query;
use crate::regex_cache::RegexCache;
use crate::text;
use regex::Regex;
use std::sync::Arc;
use vstd::prelude::*;

verus! {

/// A request as predicates see it.
pub struct RequestParts<'a> {
    pub method: &'a str,
    pub path: &'a str,
    pub query: Option<&'a str>,
    pub headers: &'a Vec<(String, String)>,
    pub body: Option<&'a str>,
    pub request_from: Option<&'a str>,
    pub client_ip: Option<&'a str>,
    pub form: Option<&'a Vec<(String, String)>>,
}

/// A request as contracts see it.
pub struct RequestModel {
    pub method: Seq<char>,
    pub path: Seq<char>,
    pub query: Option<Seq<char>>,
    pub headers: Seq<(Seq<char>, Seq<char>)>,
    pub body: Option<Seq<char>>,
    pub request_from: Option<Seq<char>>,
    pub client_ip: Option<Seq<char>>,
    pub form: Option<Seq<(Seq<char>, Seq<char>)>>,
}

impl<'a> RequestParts<'a> {
    /// The request as contracts see it.
    pub open spec fn view(&self) -> RequestModel {
        request_model(
            self.method,
            self.path,
            self.query,
            self.headers,
            self.body,
            self.request_from,
            self.client_ip,
            self.form,
        )
    }
}

/// The request that these parts make.
pub open spec fn request_model(
    method: &str,
    path: &str,
    query: Option<&str>,
    headers: &Vec<(String, String)>,
    body: Option<&str>,
    request_from: Option<&str>,
    client_ip: Option<&str>,
    form: Option<&Vec<(String, String)>>,
) -> RequestModel {
    RequestModel {
        method: method@,
        path: path@,
        query: text::optional_str(query),
        headers: lookup::pairs(headers@),
        body: text::optional_str(body),
        request_from: text::optional_str(request_from),
        client_ip: text::optional_str(client_ip),
        form: fields::optional_pairs(form),
    }
}

/// What field maps are held against, with this body.
pub open spec fn subject_of(r: RequestModel, body: Seq<char>) -> SubjectModel {
    SubjectModel {
        method: r.method,
        path: r.path,
        query: query::optional_query_parameters(r.query),
        headers: r.headers,
        body,
        request_from: r.request_from,
        client_ip: r.client_ip,
        form: r.form,
    }
}

/// The rule a predicate compares by.
pub open spec fn rule_of(p: PredicateParameters, relation: Relation, deep: bool) -> Rule {
    Rule {
        relation,
        case_sensitive: p.value_case(),
        key_case_sensitive: p.key_case(),
        deep,
        except: compare::effective_except(p.except@),
    }
}

/// The lookup a selector asks for.
pub open spec fn selector_lookup(s: PredicateSelector) -> LookupModel {
    match s {
        PredicateSelector::JsonPath { selector } => LookupModel::JsonPath(selector@),
        PredicateSelector::XPath { selector, namespaces } => LookupModel::XPath(
            selector@,
            lookup::pairs(namespaces@),
        ),
    }
}

/// The body a predicate looks at: the request's, or what its selector selects from it. A selector
/// that selects nothing gives an empty body.
pub open spec fn effective_body(
    p: PredicateParameters,
    r: RequestModel,
    findings: Seq<Finding>,
) -> Result<Seq<char>, MatchErrorModel> {
    match p.selector {
        None => Ok(fields::text_or_empty(r.body)),
        Some(s) => match predicate::answer_for(findings, selector_lookup(s)) {
            Some(AnswerModel::Extracted(x)) => Ok(fields::text_or_empty(x)),
            _ => Err(MatchErrorModel::Unresolved(selector_lookup(s))),
        },
    }
}

/// What a field map comes to under a relation.
pub open spec fn fields_verdict(
    p: PredicateParameters,
    want: Seq<(Seq<char>, json::JsonModel)>,
    relation: Relation,
    deep: bool,
    r: RequestModel,
    findings: Seq<Finding>,
) -> Result<bool, MatchErrorModel> {
    match effective_body(p, r, findings) {
        Ok(body) => Ok(fields::fields_hold(rule_of(p, relation, deep), want, subject_of(r, body))),
        Err(e) => Err(e),
    }
}

/// What a predicate comes to.
pub open spec fn verdict(p: Predicate, r: RequestModel, findings: Seq<Finding>) -> Result<
    bool,
    MatchErrorModel,
>
    decreases p,
{
    match p.operation {
        PredicateOperation::Equals(f) => fields_verdict(
            p.parameters,
            f@,
            Relation::Equals,
            false,
            r,
            findings,
        ),
        PredicateOperation::DeepEquals(f) => fields_verdict(
            p.parameters,
            f@,
            Relation::Equals,
            true,
            r,
            findings,
        ),
        PredicateOperation::Contains(f) => fields_verdict(
            p.parameters,
            f@,
            Relation::Contains,
            false,
            r,
            findings,
        ),
        PredicateOperation::StartsWith(f) => fields_verdict(
            p.parameters,
            f@,
            Relation::StartsWith,
            false,
            r,
            findings,
        ),
        PredicateOperation::EndsWith(f) => fields_verdict(
            p.parameters,
            f@,
            Relation::EndsWith,
            false,
            r,
            findings,
        ),
        PredicateOperation::Matches(f) => fields_verdict(
            p.parameters,
            f@,
            Relation::Matches,
            false,
            r,
            findings,
        ),
        PredicateOperation::Exists(f) => match effective_body(p.parameters, r, findings) {
            Ok(body) => Ok(
                fields::exists_hold(f@, subject_of(r, body), p.parameters.key_case()),
            ),
            Err(e) => Err(e),
        },
        PredicateOperation::Not(inner) => match verdict(*inner, r, findings) {
            Ok(b) => Ok(!b),
            Err(e) => Err(e),
        },
        PredicateOperation::Or(children) => any_verdict(children@, r, findings),
        PredicateOperation::And(children) => all_verdict(children@, r, findings),
        PredicateOperation::Inject(script) => match predicate::answer_for(
            findings,
            LookupModel::Inject(script@),
        ) {
            Some(AnswerModel::Injected(Ok(b))) => Ok(b),
            Some(AnswerModel::Injected(Err(e))) => Err(MatchErrorModel::Inject(e)),
            _ => Err(MatchErrorModel::Unresolved(LookupModel::Inject(script@))),
        },
    }
}

/// Predicates in order, stopping at the first that does not hold.
pub open spec fn all_verdict(ps: Seq<Predicate>, r: RequestModel, findings: Seq<Finding>) -> Result<
    bool,
    MatchErrorModel,
>
    decreases ps,
{
    if ps.len() == 0 {
        Ok(true)
    } else {
        match verdict(ps[0], r, findings) {
            Ok(true) => all_verdict(ps.drop_first(), r, findings),
            other => other,
        }
    }
}

/// Predicates in order, stopping at the first that holds.
pub open spec fn any_verdict(ps: Seq<Predicate>, r: RequestModel, findings: Seq<Finding>) -> Result<
    bool,
    MatchErrorModel,
>
    decreases ps,
{
    if ps.len() == 0 {
        Ok(false)
    } else {
        match verdict(ps[0], r, findings) {
            Ok(false) => any_verdict(ps.drop_first(), r, findings),
            other => other,
        }
    }
}

/// A result as contracts see it.
pub open spec fn outcome(r: Result<bool, MatchError>) -> Result<bool, MatchErrorModel> {
    match r {
        Ok(b) => Ok(b),
        Err(e) => Err(e@),
    }
}

/// The lookup a selector asks for.
fn lookup_of(s: &PredicateSelector) -> (r: Lookup)
    ensures
        r@ == selector_lookup(*s),
{
    match s {
        PredicateSelector::JsonPath { selector } => Lookup::JsonPath(selector.clone()),
        PredicateSelector::XPath { selector, namespaces } => Lookup::XPath(
            selector.clone(),
            lookup::copy_list(namespaces),
        ),
    }
}

/// The text a selector selected.
fn selected(s: &PredicateSelector, findings: &Vec<Finding>) -> (r: Result<String, MatchError>)
    ensures
        (match r {
            Ok(b) => predicate::answer_for(findings@, selector_lookup(*s)) matches Some(
                AnswerModel::Extracted(x),
            ) && b@ == fields::text_or_empty(x),
            Err(e) => e@ == MatchErrorModel::Unresolved(selector_lookup(*s)) && !(
            predicate::answer_for(findings@, selector_lookup(*s)) matches Some(
                AnswerModel::Extracted(_),
            )),
        }),
{
    let want: Lookup = lookup_of(s);
    match predicate::find_answer(findings, &want) {
        Some(Answer::Extracted(x)) => match x {
            Some(t) => Ok(t.clone()),
            None => Ok(String::new()),
        },
        _ => Err(MatchError::Unresolved(want)),
    }
}

/// The rule of a predicate, its `except` pattern compiled.
fn comparator_of(
    p: &PredicateParameters,
    relation: Relation,
    deep: bool,
    cache: &mut RegexCache,
) -> (r: Comparator)
    requires
        old(cache).wf(),
    ensures
        final(cache).wf(),
        r.wf(),
        r.rule() == rule_of(*p, relation, deep),
{
    let case_sensitive: bool = p.case_sensitive.unwrap_or(false);
    let key_case_sensitive: bool = p.key_case_sensitive.unwrap_or(case_sensitive);
    let except: Option<Arc<Regex>> = if p.except.as_str().is_empty() {
        None
    } else {
        cache.cached_regex(p.except.as_str(), false)
    };
    Comparator { relation, case_sensitive, key_case_sensitive, deep, except }
}

/// Holds one field map against a request.
fn fields_match(
    p: &PredicateParameters,
    want: &JsonObject,
    relation: Relation,
    deep: bool,
    parts: &RequestParts<'_>,
    body_json: Option<&Json>,
    query_map: &Vec<(String, String)>,
    findings: &Vec<Finding>,
    cache: &mut RegexCache,
) -> (r: Result<bool, MatchError>)
    requires
        old(cache).wf(),
        body_json is Some ==> parts.body is Some && json::json_read(parts.body->0@) == Some(
            body_json->0.model(),
        ),
        lookup::pairs(query_map@) == query::optional_query_parameters(parts@.query),
    ensures
        final(cache).wf(),
        outcome(r) == fields_verdict(*p, want@, relation, deep, parts@, findings@),
{
    let comparator: Comparator = comparator_of(p, relation, deep, cache);
    let selected_body: String;
    let empty: String = String::new();
    let (body, known): (&str, Option<&Json>) = match &p.selector {
        Some(s) => {
            selected_body =
            match selected(s, findings) {
                Ok(b) => b,
                Err(e) => {
                    return Err(e);
                },
            };
            (selected_body.as_str(), None)
        },
        None => match parts.body {
            Some(b) => (b, body_json),
            None => (empty.as_str(), None),
        },
    };
    let subject = Subject {
        method: parts.method,
        path: parts.path,
        query: query_map,
        headers: parts.headers,
        body,
        request_from: parts.request_from,
        client_ip: parts.client_ip,
        form: parts.form,
    };
    proof {
        assert(subject@ == subject_of(parts@, body@));
    }
    Ok(fields::check_predicate_fields(&comparator, want, &subject, known, cache))
}

/// Checks presence of the fields one map names.
fn exists_match(
    p: &PredicateParameters,
    want: &JsonObject,
    parts: &RequestParts<'_>,
    query_map: &Vec<(String, String)>,
    findings: &Vec<Finding>,
) -> (r: Result<bool, MatchError>)
    requires
        lookup::pairs(query_map@) == query::optional_query_parameters(parts@.query),
    ensures
        outcome(r) == (match effective_body(*p, parts@, findings@) {
            Ok(body) => Ok::<bool, MatchErrorModel>(
                fields::exists_hold(want@, subject_of(parts@, body), p.key_case()),
            ),
            Err(e) => Err(e),
        }),
{
    let selected_body: String;
    let empty: String = String::new();
    let body: &str = match &p.selector {
        Some(s) => {
            selected_body =
            match selected(s, findings) {
                Ok(b) => b,
                Err(e) => {
                    return Err(e);
                },
            };
            selected_body.as_str()
        },
        None => match parts.body {
            Some(b) => b,
            None => empty.as_str(),
        },
    };
    let subject = Subject {
        method: parts.method,
        path: parts.path,
        query: query_map,
        headers: parts.headers,
        body,
        request_from: parts.request_from,
        client_ip: parts.client_ip,
        form: parts.form,
    };
    proof {
        assert(subject@ == subject_of(parts@, body@));
    }
    let case_sensitive: bool = p.case_sensitive.unwrap_or(false);
    Ok(
        fields::check_exists_predicate(
            want,
            &subject,
            p.key_case_sensitive.unwrap_or(case_sensitive),
        ),
    )
}

/// Evaluates one predicate.
///
/// `body_json` is the request body read as JSON once per request, `query_map` its query parsed
/// once; without them the body is read and the query parsed here. Neither changes the outcome.
pub fn predicate_matches_inner(
    p: &Predicate,
    parts: &RequestParts<'_>,
    body_json: Option<&Json>,
    query_map: Option<&Vec<(String, String)>>,
    findings: &Vec<Finding>,
    cache: &mut RegexCache,
) -> (r: Result<bool, MatchError>)
    requires
        old(cache).wf(),
        body_json is Some ==> parts.body is Some && json::json_read(parts.body->0@) == Some(
            body_json->0.model(),
        ),
        query_map is Some ==> lookup::pairs(query_map->0@) == query::optional_query_parameters(
            parts@.query,
        ),
    ensures
        final(cache).wf(),
        outcome(r) == verdict(*p, parts@, findings@),
    decreases p,
{
    let parsed: Vec<(String, String)>;
    let params: &Vec<(String, String)> = match query_map {
        Some(q) => q,
        None => {
            parsed = query::parse_query(parts.query);
            &parsed
        },
    };
    match &p.operation {
        PredicateOperation::Equals(f) => fields_match(
            &p.parameters,
            f,
            Relation::Equals,
            false,
            parts,
            body_json,
            params,
            findings,
            cache,
        ),
        PredicateOperation::DeepEquals(f) => fields_match(
            &p.parameters,
            f,
            Relation::Equals,
            true,
            parts,
            body_json,
            params,
            findings,
            cache,
        ),
        PredicateOperation::Contains(f) => fields_match(
            &p.parameters,
            f,
            Relation::Contains,
            false,
            parts,
            body_json,
            params,
            findings,
            cache,
        ),
        PredicateOperation::StartsWith(f) => fields_match(
            &p.parameters,
            f,
            Relation::StartsWith,
            false,
            parts,
            body_json,
            params,
            findings,
            cache,
        ),
        PredicateOperation::EndsWith(f) => fields_match(
            &p.parameters,
            f,
            Relation::EndsWith,
            false,
            parts,
            body_json,
            params,
            findings,
            cache,
        ),
        PredicateOperation::Matches(f) => fields_match(
            &p.parameters,
            f,
            Relation::Matches,
            false,
            parts,
            body_json,
            params,
            findings,
            cache,
        ),
        PredicateOperation::Exists(f) => exists_match(&p.parameters, f, parts, params, findings),
        PredicateOperation::Not(inner) => match predicate_matches_inner(
            inner,
            parts,
            body_json,
            Some(params),
            findings,
            cache,
        ) {
            Ok(b) => Ok(!b),
            Err(e) => Err(e),
        },
        PredicateOperation::Or(children) => {
            let mut i: usize = 0;
            proof {
                assert(children@.skip(0) =~= children@);
            }
            while i < children.len()
                invariant
                    cache.wf(),
                    i <= children@.len(),
                    p.operation == PredicateOperation::Or(*children),
                    body_json is Some ==> parts.body is Some && json::json_read(parts.body->0@)
                        == Some(body_json->0.model()),
                    lookup::pairs(params@) == query::optional_query_parameters(parts@.query),
                    any_verdict(children@, parts@, findings@) == any_verdict(
                        children@.skip(i as int),
                        parts@,
                        findings@,
                    ),
                decreases children@.len() - i,
            {
                proof {
                    assert(children@.skip(i as int).drop_first() =~= children@.skip(i + 1));
                }
                match predicate_matches_inner(
                    &children[i],
                    parts,
                    body_json,
                    Some(params),
                    findings,
                    cache,
                ) {
                    Ok(false) => {},
                    other => {
                        return other;
                    },
                }
                i += 1;
            }
            Ok(false)
        },
        PredicateOperation::And(children) => {
            let mut i: usize = 0;
            proof {
                assert(children@.skip(0) =~= children@);
            }
            while i < children.len()
                invariant
                    cache.wf(),
                    i <= children@.len(),
                    p.operation == PredicateOperation::And(*children),
                    body_json is Some ==> parts.body is Some && json::json_read(parts.body->0@)
                        == Some(body_json->0.model()),
                    lookup::pairs(params@) == query::optional_query_parameters(parts@.query),
                    all_verdict(children@, parts@, findings@) == all_verdict(
                        children@.skip(i as int),
                        parts@,
                        findings@,
                    ),
                decreases children@.len() - i,
            {
                proof {
                    assert(children@.skip(i as int).drop_first() =~= children@.skip(i + 1));
                }
                match predicate_matches_inner(
                    &children[i],
                    parts,
                    body_json,
                    Some(params),
                    findings,
                    cache,
                ) {
                    Ok(true) => {},
                    other => {
                        return other;
                    },
                }
                i += 1;
            }
            Ok(true)
        },
        PredicateOperation::Inject(script) => {
            let want = Lookup::Inject(script.clone());
            match predicate::find_answer(findings, &want) {
                Some(Answer::Injected(Ok(b))) => Ok(*b),
                Some(Answer::Injected(Err(e))) => Err(MatchError::Inject(e.clone())),
                _ => Err(MatchError::Unresolved(want)),
            }
        },
    }
}

/// Evaluates a stub's predicates: all must hold, and none holds for everything.
pub fn stub_matches_inner(
    predicates: &Vec<Predicate>,
    parts: &RequestParts<'_>,
    body_json: Option<&Json>,
    query_map: Option<&Vec<(String, String)>>,
    findings: &Vec<Finding>,
    cache: &mut RegexCache,
) -> (r: Result<bool, MatchError>)
    requires
        old(cache).wf(),
        body_json is Some ==> parts.body is Some && json::json_read(parts.body->0@) == Some(
            body_json->0.model(),
        ),
        query_map is Some ==> lookup::pairs(query_map->0@) == query::optional_query_parameters(
            parts@.query,
        ),
    ensures
        final(cache).wf(),
        outcome(r) == all_verdict(predicates@, parts@, findings@),
{
    let mut i: usize = 0;
    proof {
        assert(predicates@.skip(0) =~= predicates@);
    }
    while i < predicates.len()
        invariant
            cache.wf(),
            i <= predicates@.len(),
            body_json is Some ==> parts.body is Some && json::json_read(parts.body->0@) == Some(
                body_json->0.model(),
            ),
            query_map is Some ==> lookup::pairs(query_map->0@) == query::optional_query_parameters(
                parts@.query,
            ),
            all_verdict(predicates@, parts@, findings@) == all_verdict(
                predicates@.skip(i as int),
                parts@,
                findings@,
            ),
        decreases predicates@.len() - i,
    {
        proof {
            assert(predicates@.skip(i as int).drop_first() =~= predicates@.skip(i + 1));
        }
        match predicate_matches_inner(
            &predicates[i],
            parts,
            body_json,
            query_map,
            findings,
            cache,
        ) {
            Ok(true) => {},
            other => {
                return other;
            },
        }
        i += 1;
    }
    Ok(true)
}

/// Whether a single predicate holds of a request, reading its body and query once.
pub fn predicate_matches(
    p: &Predicate,
    method: &str,
    path: &str,
    query: Option<&str>,
    headers: &Vec<(String, String)>,
    body: Option<&str>,
    request_from: Option<&str>,
    client_ip: Option<&str>,
    form: Option<&Vec<(String, String)>>,
    findings: &Vec<Finding>,
    cache: &mut RegexCache,
) -> (r: Result<bool, MatchError>)
    requires
        old(cache).wf(),
    ensures
        final(cache).wf(),
        outcome(r) == verdict(
            *p,
            request_model(method, path, query, headers, body, request_from, client_ip, form),
            findings@,
        ),
{
    let body_json: Option<Json> = match body {
        Some(b) => Json::parse(b),
        None => None,
    };
    let query_map: Vec<(String, String)> = query::parse_query(query);
    let parts = RequestParts {
        method,
        path,
        query,
        headers,
        body,
        request_from,
        client_ip,
        form,
    };
    predicate_matches_inner(p, &parts, body_json.as_ref(), Some(&query_map), findings, cache)
}

/// Whether all predicates of a stub hold of a request.
///
/// An `inject` failure comes back as an error; it is never a mismatch.
pub fn stub_matches(
    predicates: &Vec<Predicate>,
    method: &str,
    path: &str,
    query: Option<&str>,
    headers: &Vec<(String, String)>,
    body: Option<&str>,
    request_from: Option<&str>,
    client_ip: Option<&str>,
    form: Option<&Vec<(String, String)>>,
    findings: &Vec<Finding>,
    cache: &mut RegexCache,
) -> (r: Result<bool, MatchError>)
    requires
        old(cache).wf(),
    ensures
        final(cache).wf(),
        outcome(r) == all_verdict(
            predicates@,
            request_model(method, path, query, headers, body, request_from, client_ip, form),
            findings@,
        ),
{
    let body_json: Option<Json> = match body {
        Some(b) => Json::parse(b),
        None => None,
    };
    let query_map: Vec<(String, String)> = query::parse_query(query);
    let parts = RequestParts {
        method,
        path,
        query,
        headers,
        body,
        request_from,
        client_ip,
        form,
    };
    stub_matches_inner(predicates, &parts, body_json.as_ref(), Some(&query_map), findings, cache)
}

/// A stub without predicates matches every request.
pub proof fn law_no_predicates_match_everything(r: RequestModel, findings: Seq<Finding>)
    ensures
        all_verdict(Seq::empty(), r, findings) == Ok::<bool, MatchErrorModel>(true),
{
}

/// Where predicates all hold, each of them does.
pub proof fn law_a_match_needs_every_predicate(
    ps: Seq<Predicate>,
    r: RequestModel,
    findings: Seq<Finding>,
    i: int,
)
    requires
        0 <= i < ps.len(),
        all_verdict(ps, r, findings) == Ok::<bool, MatchErrorModel>(true),
    ensures
        verdict(ps[i], r, findings) == Ok::<bool, MatchErrorModel>(true),
    decreases ps.len(),
{
    if i > 0 {
        law_a_match_needs_every_predicate(ps.drop_first(), r, findings, i - 1);
    }
}

/// A failure passes through `not`; it is never negated into a match.
pub proof fn law_not_passes_failures(p: Predicate, r: RequestModel, findings: Seq<Finding>)
    requires
        p.operation is Not,
        verdict(*p.operation->Not_0, r, findings) is Err,
    ensures
        verdict(p, r, findings) == verdict(*p.operation->Not_0, r, findings),
{
}

/// A failure of an alternative before any that holds fails an `or`; a failure of a conjunct before
/// any that does not hold fails an `and`.
pub proof fn law_or_and_pass_failures(
    ps: Seq<Predicate>,
    r: RequestModel,
    findings: Seq<Finding>,
    at: int,
)
    requires
        0 <= at < ps.len(),
        verdict(ps[at], r, findings) is Err,
    ensures
        (forall|i: int|
            0 <= i < at ==> verdict(#[trigger] ps[i], r, findings) == Ok::<bool, MatchErrorModel>(
                false,
            )) ==> any_verdict(ps, r, findings) == verdict(ps[at], r, findings),
        (forall|i: int|
            0 <= i < at ==> verdict(#[trigger] ps[i], r, findings) == Ok::<bool, MatchErrorModel>(
                true,
            )) ==> all_verdict(ps, r, findings) == verdict(ps[at], r, findings),
    decreases ps.len(),
{
    if at > 0 {
        let rest = ps.drop_first();
        law_or_and_pass_failures(rest, r, findings, at - 1);
        assert(forall|i: int| 0 <= i < at - 1 ==> #[trigger] rest[i] == ps[i + 1]);
        assert(verdict(ps[0], r, findings) == verdict(ps[0], r, findings));
        if forall|i: int|
            0 <= i < at ==> verdict(#[trigger] ps[i], r, findings) == Ok::<bool, MatchErrorModel>(
                false,
            ) {
            assert(verdict(ps[0], r, findings) == Ok::<bool, MatchErrorModel>(false));
            assert forall|i: int| 0 <= i < at - 1 implies verdict(#[trigger] rest[i], r, findings)
                == Ok::<bool, MatchErrorModel>(false) by {
                assert(rest[i] == ps[i + 1]);
            }
        }
        if forall|i: int|
            0 <= i < at ==> verdict(#[trigger] ps[i], r, findings) == Ok::<bool, MatchErrorModel>(
                true,
            ) {
            assert(verdict(ps[0], r, findings) == Ok::<bool, MatchErrorModel>(true));
            assert forall|i: int| 0 <= i < at - 1 implies verdict(#[trigger] rest[i], r, findings)
                == Ok::<bool, MatchErrorModel>(true) by {
                assert(rest[i] == ps[i + 1]);
            }
        }
    }
}

/// An operation on fields holds exactly where the fields do under its relation: case matters in
/// values where that is asked for and in keys as in values unless that is said; only deep equality
/// is deep; and an `except` that is a pattern is heeded.
pub proof fn law_operations_compare_by_their_relation(
    p: Predicate,
    f: JsonObject,
    rule: Rule,
    r: RequestModel,
    s: SubjectModel,
    findings: Seq<Finding>,
)
    requires
        p.parameters.selector is None,
        rule.case_sensitive == (p.parameters.case_sensitive == Some(true)),
        rule.key_case_sensitive == (match p.parameters.key_case_sensitive {
            Some(b) => b,
            None => p.parameters.case_sensitive == Some(true),
        }),
        rule.deep == (p.operation is DeepEquals),
        rule.except == compare::effective_except(p.parameters.except@),
        s.method == r.method,
        s.path == r.path,
        s.headers == r.headers,
        s.request_from == r.request_from,
        s.client_ip == r.client_ip,
        s.form == r.form,
        r.query is None ==> s.query.len() == 0,
        r.query matches Some(q) ==> s.query == query::query_parameters(q),
        r.body is None ==> s.body.len() == 0,
        r.body matches Some(b) ==> s.body == b,
    ensures
        p.operation == PredicateOperation::Equals(f) && rule.relation == Relation::Equals
            ==> verdict(p, r, findings) == Ok::<bool, MatchErrorModel>(
            fields::fields_hold(rule, f@, s),
        ),
        p.operation == PredicateOperation::DeepEquals(f) && rule.relation == Relation::Equals
            ==> verdict(p, r, findings) == Ok::<bool, MatchErrorModel>(
            fields::fields_hold(rule, f@, s),
        ),
        p.operation == PredicateOperation::Contains(f) && rule.relation == Relation::Contains
            ==> verdict(p, r, findings) == Ok::<bool, MatchErrorModel>(
            fields::fields_hold(rule, f@, s),
        ),
        p.operation == PredicateOperation::StartsWith(f) && rule.relation == Relation::StartsWith
            ==> verdict(p, r, findings) == Ok::<bool, MatchErrorModel>(
            fields::fields_hold(rule, f@, s),
        ),
        p.operation == PredicateOperation::EndsWith(f) && rule.relation == Relation::EndsWith
            ==> verdict(p, r, findings) == Ok::<bool, MatchErrorModel>(
            fields::fields_hold(rule, f@, s),
        ),
        p.operation == PredicateOperation::Matches(f) && rule.relation == Relation::Matches
            ==> verdict(p, r, findings) == Ok::<bool, MatchErrorModel>(
            fields::fields_hold(rule, f@, s),
        ),
        p.operation == PredicateOperation::Exists(f) ==> verdict(p, r, findings) == Ok::<
            bool,
            MatchErrorModel,
        >(fields::exists_hold(f@, s, rule.key_case_sensitive)),
{
    let t = subject_of(r, fields::text_or_empty(r.body));
    assert(s.query =~= t.query);
    assert(s.body =~= t.body);
    assert(s == t);
    let own = rule_of(p.parameters, rule.relation, rule.deep);
    assert(own == rule);
}

/// A predicate with a selector looks at what the selector selected from the body, and at nothing of
/// the body where it selected nothing; and where that was not looked up yet it asks for it. Any
/// other field is looked at as without the selector.
pub proof fn law_selectors_stand_for_the_body(
    p: Predicate,
    bare: Predicate,
    r: RequestModel,
    selected: RequestModel,
    findings: Seq<Finding>,
)
    requires
        p.parameters.selector is Some,
        bare.parameters.selector is None,
        bare.parameters.case_sensitive == p.parameters.case_sensitive,
        bare.parameters.key_case_sensitive == p.parameters.key_case_sensitive,
        bare.parameters.except@ == p.parameters.except@,
        bare.operation == p.operation,
        p.operation is Equals || p.operation is DeepEquals || p.operation is Contains
            || p.operation is StartsWith || p.operation is EndsWith || p.operation is Matches
            || p.operation is Exists,
        selected.method == r.method,
        selected.path == r.path,
        selected.query == r.query,
        selected.headers == r.headers,
        selected.request_from == r.request_from,
        selected.client_ip == r.client_ip,
        selected.form == r.form,
    ensures
        ({
            let want = match p.parameters.selector->0 {
                PredicateSelector::JsonPath { selector } => LookupModel::JsonPath(selector@),
                PredicateSelector::XPath { selector, namespaces } => LookupModel::XPath(
                    selector@,
                    lookup::pairs(namespaces@),
                ),
            };
            match predicate::answer_for(findings, want) {
                Some(AnswerModel::Extracted(x)) => selected.body == x ==> verdict(p, r, findings)
                    == verdict(bare, selected, findings),
                _ => verdict(p, r, findings) == Err::<bool, MatchErrorModel>(
                    MatchErrorModel::Unresolved(want),
                ),
            }
        }),
{
}

/// `not` holds exactly where what it negates does not.
pub proof fn law_not_negates(p: Predicate, r: RequestModel, findings: Seq<Finding>, b: bool)
    requires
        p.operation is Not,
        verdict(*p.operation->Not_0, r, findings) == Ok::<bool, MatchErrorModel>(b),
    ensures
        verdict(p, r, findings) == Ok::<bool, MatchErrorModel>(!b),
{
}

/// A script's own verdict is the predicate's, its failure fails the predicate, and where it was not
/// asked yet it is asked for.
pub proof fn law_scripts_decide(p: Predicate, r: RequestModel, findings: Seq<Finding>)
    requires
        p.operation is Inject,
    ensures
        match predicate::answer_for(findings, LookupModel::Inject(p.operation->Inject_0@)) {
            Some(AnswerModel::Injected(Ok(b))) => verdict(p, r, findings) == Ok::<
                bool,
                MatchErrorModel,
            >(b),
            Some(AnswerModel::Injected(Err(e))) => verdict(p, r, findings) == Err::<
                bool,
                MatchErrorModel,
            >(MatchErrorModel::Inject(e)),
            _ => verdict(p, r, findings) == Err::<bool, MatchErrorModel>(
                MatchErrorModel::Unresolved(LookupModel::Inject(p.operation->Inject_0@)),
            ),
        },
{
}

/// Where none of them fails, predicates all hold exactly where each does, and any of them holds
/// exactly where one does; `and` and `or` ask the same of theirs.
pub proof fn law_and_is_all_and_or_is_any(
    ps: Seq<Predicate>,
    p: Predicate,
    r: RequestModel,
    findings: Seq<Finding>,
)
    requires
        forall|i: int| 0 <= i < ps.len() ==> verdict(#[trigger] ps[i], r, findings) is Ok,
    ensures
        all_verdict(ps, r, findings) == Ok::<bool, MatchErrorModel>(
            forall|i: int|
                0 <= i < ps.len() ==> verdict(#[trigger] ps[i], r, findings) == Ok::<
                    bool,
                    MatchErrorModel,
                >(true),
        ),
        any_verdict(ps, r, findings) == Ok::<bool, MatchErrorModel>(
            exists|i: int|
                0 <= i < ps.len() && verdict(#[trigger] ps[i], r, findings) == Ok::<
                    bool,
                    MatchErrorModel,
                >(true),
        ),
        p.operation is And && p.operation->And_0@ == ps ==> verdict(p, r, findings) == all_verdict(
            ps,
            r,
            findings,
        ),
        p.operation is Or && p.operation->Or_0@ == ps ==> verdict(p, r, findings) == any_verdict(
            ps,
            r,
            findings,
        ),
    decreases ps.len(),
{
    if ps.len() > 0 {
        let rest = ps.drop_first();
        assert forall|i: int| 0 <= i < rest.len() implies verdict(#[trigger] rest[i], r, findings)
            is Ok by {
            assert(rest[i] == ps[i + 1]);
        }
        law_and_is_all_and_or_is_any(rest, p, r, findings);
        let yes = Ok::<bool, MatchErrorModel>(true);
        assert(verdict(ps[0], r, findings) is Ok);
        assert((forall|i: int| 0 <= i < ps.len() ==> verdict(#[trigger] ps[i], r, findings) == yes)
            <==> verdict(ps[0], r, findings) == yes && (forall|i: int|
            0 <= i < rest.len() ==> verdict(#[trigger] rest[i], r, findings) == yes)) by {
            if verdict(ps[0], r, findings) == yes && (forall|i: int|
                0 <= i < rest.len() ==> verdict(#[trigger] rest[i], r, findings) == yes) {
                assert forall|i: int| 0 <= i < ps.len() implies verdict(
                    #[trigger] ps[i],
                    r,
                    findings,
                ) == yes by {
                    if i > 0 {
                        assert(rest[i - 1] == ps[i]);
                    }
                }
            }
            if forall|i: int| 0 <= i < ps.len() ==> verdict(#[trigger] ps[i], r, findings) == yes {
                assert forall|i: int| 0 <= i < rest.len() implies verdict(
                    #[trigger] rest[i],
                    r,
                    findings,
                ) == yes by {
                    assert(rest[i] == ps[i + 1]);
                }
            }
        }
        assert((exists|i: int| 0 <= i < ps.len() && verdict(#[trigger] ps[i], r, findings) == yes)
            <==> verdict(ps[0], r, findings) == yes || (exists|i: int|
            0 <= i < rest.len() && verdict(#[trigger] rest[i], r, findings) == yes)) by {
            if exists|i: int| 0 <= i < rest.len() && verdict(#[trigger] rest[i], r, findings)
                == yes {
                let i = choose|i: int|
                    0 <= i < rest.len() && verdict(#[trigger] rest[i], r, findings) == yes;
                assert(ps[i + 1] == rest[i]);
            }
            if exists|i: int| 0 <= i < ps.len() && verdict(#[trigger] ps[i], r, findings) == yes {
                let i = choose|i: int|
                    0 <= i < ps.len() && verdict(#[trigger] ps[i], r, findings) == yes;
                if i > 0 {
                    assert(rest[i - 1] == ps[i]);
                }
            }
        }
    }
}

/// A conjunct that does not hold settles an `and` before any failure behind it, and an alternative
/// that holds settles an `or`.
pub proof fn law_settled_predicates_ask_no_further(
    ps: Seq<Predicate>,
    r: RequestModel,
    findings: Seq<Finding>,
    at: int,
)
    requires
        0 <= at < ps.len(),
    ensures
        verdict(ps[at], r, findings) == Ok::<bool, MatchErrorModel>(false) && (forall|i: int|
            0 <= i < at ==> verdict(#[trigger] ps[i], r, findings) == Ok::<bool, MatchErrorModel>(
                true,
            )) ==> all_verdict(ps, r, findings) == Ok::<bool, MatchErrorModel>(false),
        verdict(ps[at], r, findings) == Ok::<bool, MatchErrorModel>(true) && (forall|i: int|
            0 <= i < at ==> verdict(#[trigger] ps[i], r, findings) == Ok::<bool, MatchErrorModel>(
                false,
            )) ==> any_verdict(ps, r, findings) == Ok::<bool, MatchErrorModel>(true),
    decreases ps.len(),
{
    if at > 0 {
        let rest = ps.drop_first();
        law_settled_predicates_ask_no_further(rest, r, findings, at - 1);
        assert(rest[at - 1] == ps[at]);
        let yes = Ok::<bool, MatchErrorModel>(true);
        let no = Ok::<bool, MatchErrorModel>(false);
        if forall|i: int| 0 <= i < at ==> verdict(#[trigger] ps[i], r, findings) == yes {
            assert(verdict(ps[0], r, findings) == yes);
            assert forall|i: int| 0 <= i < at - 1 implies verdict(#[trigger] rest[i], r, findings)
                == yes by {
                assert(rest[i] == ps[i + 1]);
            }
        }
        if forall|i: int| 0 <= i < at ==> verdict(#[trigger] ps[i], r, findings) == no {
            assert(verdict(ps[0], r, findings) == no);
            assert forall|i: int| 0 <= i < at - 1 implies verdict(#[trigger] rest[i], r, findings)
                == no by {
                assert(rest[i] == ps[i + 1]);
            }
        }
    }
}

} // verus!
