//! Predicates generated from a proxied request.
//!
//! A generator names the parts of a request that a recorded stub is to require. One that holds a
//! script asks for what the script says of the request and of the predicates generated so far.

use crate::json;
use crate::json::{Json, JsonModel, JsonObject};
use crate::lookup;
use crate::query;
use crate::regex_cache;
use crate::regex_cache::RegexCache;
use crate::text;
use vstd::prelude::*;

verus! {

/// The request that predicates are generated from.
pub struct GeneratorRequest<'a> {
    pub method: &'a str,
    pub path: &'a str,
    pub headers: &'a Vec<(String, String)>,
    pub body: Option<&'a str>,
    pub query: Option<&'a str>,
}

/// The request as contracts see it.
pub struct GeneratorModel {
    pub method: Seq<char>,
    pub path: Seq<char>,
    pub headers: Seq<(Seq<char>, Seq<char>)>,
    pub body: Option<Seq<char>>,
    pub query: Option<Seq<char>>,
}

impl<'a> GeneratorRequest<'a> {
    /// The request as contracts see it.
    pub open spec fn view(&self) -> GeneratorModel {
        GeneratorModel {
            method: self.method@,
            path: self.path@,
            headers: lookup::pairs(self.headers@),
            body: text::optional_str(self.body),
            query: text::optional_str(self.query),
        }
    }
}

/// What generation came to.
#[derive(Debug)]
pub enum Generation {
    /// The predicates, in order; possibly none.
    Done(Vec<Json>),
    /// The next script has to be asked, with the predicates generated so far.
    Ask { script: String, so_far: Vec<Json> },
    /// A script failed, for a reason of this kind: nothing may be recorded.
    Failed(String),
}

/// What generation came to, as contracts see it.
pub enum GenerationModel {
    Done(Seq<JsonModel>),
    Ask { script: Seq<char>, so_far: Seq<JsonModel> },
    Failed(Seq<char>),
}

/// The values of a list, as contracts see them.
pub open spec fn models(list: Seq<Json>) -> Seq<JsonModel> {
    Seq::new(list.len(), |i: int| list[i].model())
}

impl Generation {
    /// What generation came to, as contracts see it.
    pub open spec fn view(&self) -> GenerationModel {
        match self {
            Generation::Done(l) => GenerationModel::Done(models(l@)),
            Generation::Ask { script, so_far } => GenerationModel::Ask {
                script: script@,
                so_far: models(so_far@),
            },
            Generation::Failed(k) => GenerationModel::Failed(k@),
        }
    }
}

/// What a script answered: predicates, or the kind of its failure.
pub type ScriptAnswer = Result<Vec<Json>, String>;

/// A script's answer as contracts see it.
pub open spec fn answer_model(a: ScriptAnswer) -> Result<Seq<JsonModel>, Seq<char>> {
    match a {
        Ok(l) => Ok(models(l@)),
        Err(k) => Err(k@),
    }
}

/// The members of an object.
pub open spec fn entries_of(m: JsonModel) -> Option<Seq<(Seq<char>, JsonModel)>> {
    match m {
        JsonModel::Object(e) => Some(e),
        _ => None,
    }
}

/// A member of an object that is a string.
pub open spec fn text_member(e: Seq<(Seq<char>, JsonModel)>, name: Seq<char>) -> Option<Seq<char>> {
    match lookup::find_entry(e, name, true) {
        Some(JsonModel::Text(s)) => Some(s),
        _ => None,
    }
}

/// A member of an object that is a boolean, or a default.
pub open spec fn flag_member(
    e: Seq<(Seq<char>, JsonModel)>,
    name: Seq<char>,
    default: bool,
) -> bool {
    match lookup::find_entry(e, name, true) {
        Some(JsonModel::Bool(b)) => b,
        _ => default,
    }
}

/// A member of an object that is an object.
pub open spec fn object_member(e: Seq<(Seq<char>, JsonModel)>, name: Seq<char>) -> Option<
    Seq<(Seq<char>, JsonModel)>,
> {
    match lookup::find_entry(e, name, true) {
        Some(JsonModel::Object(m)) => Some(m),
        _ => None,
    }
}

/// A value without the matches of a pattern. A pattern that does not compile erases nothing.
pub open spec fn without(except: Option<Seq<char>>, s: Seq<char>) -> Seq<char> {
    match except {
        Some(p) => if regex_cache::regex_compiles(p, false) {
            regex_cache::regex_erased(p, false, s)
        } else {
            s
        },
        None => s,
    }
}

/// Parameters as the members of an object.
pub open spec fn text_object(params: Seq<(Seq<char>, Seq<char>)>) -> Seq<(Seq<char>, JsonModel)>
    decreases params.len(),
{
    if params.len() == 0 {
        Seq::empty()
    } else {
        json::with_entry(
            text_object(params.drop_last()),
            params.last().0,
            JsonModel::Text(params.last().1),
        )
    }
}

/// The headers a generator asks for that the request carries under exactly that name.
pub open spec fn asked_headers(
    wanted: Seq<(Seq<char>, JsonModel)>,
    headers: Seq<(Seq<char>, Seq<char>)>,
) -> Seq<(Seq<char>, JsonModel)>
    decreases wanted.len(),
{
    if wanted.len() == 0 {
        Seq::empty()
    } else {
        let (name, flag) = wanted.last();
        let rest = asked_headers(wanted.drop_last(), headers);
        match lookup::find_entry(headers, name, true) {
            Some(v) => if flag == JsonModel::Bool(true) {
                json::with_entry(rest, name, JsonModel::Text(v))
            } else {
                rest
            },
            None => rest,
        }
    }
}

/// A member joins, where there is one.
pub open spec fn plus(
    e: Seq<(Seq<char>, JsonModel)>,
    name: Seq<char>,
    value: Option<JsonModel>,
) -> Seq<(Seq<char>, JsonModel)> {
    match value {
        Some(v) => json::with_entry(e, name, v),
        None => e,
    }
}

/// The path a generator asks for.
pub open spec fn asked_path(
    matches: Seq<(Seq<char>, JsonModel)>,
    except: Option<Seq<char>>,
    r: GeneratorModel,
) -> Option<JsonModel> {
    if flag_member(matches, "path"@, false) {
        Some(JsonModel::Text(without(except, r.path)))
    } else {
        None
    }
}

/// The method a generator asks for.
pub open spec fn asked_method(
    matches: Seq<(Seq<char>, JsonModel)>,
    except: Option<Seq<char>>,
    r: GeneratorModel,
) -> Option<JsonModel> {
    if flag_member(matches, "method"@, false) {
        Some(JsonModel::Text(without(except, r.method)))
    } else {
        None
    }
}

/// The query a generator asks for, where the request has one with parameters.
pub open spec fn asked_query(matches: Seq<(Seq<char>, JsonModel)>, r: GeneratorModel) -> Option<
    JsonModel,
> {
    if flag_member(matches, "query"@, false) && r.query is Some && query::query_parameters(
        r.query->0,
    ).len() > 0 {
        Some(JsonModel::Object(text_object(query::query_parameters(r.query->0))))
    } else {
        None
    }
}

/// The headers a generator asks for, where the request carries any of them.
pub open spec fn asked_header_values(
    matches: Seq<(Seq<char>, JsonModel)>,
    r: GeneratorModel,
) -> Option<JsonModel> {
    match object_member(matches, "headers"@) {
        Some(wanted) => if asked_headers(wanted, r.headers).len() > 0 {
            Some(JsonModel::Object(asked_headers(wanted, r.headers)))
        } else {
            None
        },
        None => None,
    }
}

/// The body a generator asks for, where the request has one.
pub open spec fn asked_body(
    matches: Seq<(Seq<char>, JsonModel)>,
    except: Option<Seq<char>>,
    r: GeneratorModel,
) -> Option<JsonModel> {
    if flag_member(matches, "body"@, false) && r.body is Some {
        Some(JsonModel::Text(without(except, r.body->0)))
    } else {
        None
    }
}

/// The fields a generated predicate requires.
pub open spec fn asked_fields(
    matches: Seq<(Seq<char>, JsonModel)>,
    except: Option<Seq<char>>,
    r: GeneratorModel,
) -> Seq<(Seq<char>, JsonModel)> {
    plus(
        plus(
            plus(
                plus(
                    plus(Seq::empty(), "path"@, asked_path(matches, except, r)),
                    "method"@,
                    asked_method(matches, except, r),
                ),
                "query"@,
                asked_query(matches, r),
            ),
            "headers"@,
            asked_header_values(matches, r),
        ),
        "body"@,
        asked_body(matches, except, r),
    )
}

/// The operator a generator generates; `equals` where it names none.
pub open spec fn operator_of(g: Seq<(Seq<char>, JsonModel)>) -> Seq<char> {
    match text_member(g, "predicateOperator"@) {
        Some(s) => s,
        None => "equals"@,
    }
}

/// The predicate one generator generates: none where it asks for nothing the request has. Whether
/// case matters is always written out, so that the generator's word is what counts.
pub open spec fn generated(g: Seq<(Seq<char>, JsonModel)>, r: GeneratorModel) -> Option<JsonModel> {
    match object_member(g, "matches"@) {
        Some(matches) => {
            let fields = asked_fields(matches, text_member(g, "except"@), r);
            if fields.len() == 0 {
                None
            } else {
                Some(
                    JsonModel::Object(
                        json::with_entry(
                            json::with_entry(
                                Seq::empty(),
                                operator_of(g),
                                JsonModel::Object(fields),
                            ),
                            "caseSensitive"@,
                            JsonModel::Bool(flag_member(g, "caseSensitive"@, true)),
                        ),
                    ),
                )
            }
        },
        None => None,
    }
}

/// What the generators from `k` on come to, after the predicates `so_far`, with the answers that
/// scripts gave.
pub open spec fn generation(
    generators: Seq<JsonModel>,
    k: int,
    so_far: Seq<JsonModel>,
    answers: Seq<Result<Seq<JsonModel>, Seq<char>>>,
    r: GeneratorModel,
) -> GenerationModel
    decreases generators.len() - k,
{
    if k >= generators.len() {
        GenerationModel::Done(so_far)
    } else {
        match entries_of(generators[k]) {
            None => generation(generators, k + 1, so_far, answers, r),
            Some(g) => match text_member(g, "inject"@) {
                Some(script) => if answers.len() == 0 {
                    GenerationModel::Ask { script, so_far }
                } else {
                    match answers[0] {
                        Ok(more) => generation(
                            generators,
                            k + 1,
                            so_far + more,
                            answers.drop_first(),
                            r,
                        ),
                        Err(kind) => GenerationModel::Failed(kind),
                    }
                },
                None => match generated(g, r) {
                    Some(p) => generation(generators, k + 1, so_far.push(p), answers, r),
                    None => generation(generators, k + 1, so_far, answers, r),
                },
            },
        }
    }
}

fn text_of_member<'a>(o: &'a JsonObject, name: &str) -> (r: Option<&'a String>)
    ensures
        text::optional_ref(r) == text_member(o@, name@),
{
    match o.get(name) {
        Some(j) => j.as_text(),
        None => None,
    }
}

fn flag_of_member(o: &JsonObject, name: &str, default: bool) -> (r: bool)
    ensures
        r == flag_member(o@, name@, default),
{
    match o.get(name) {
        Some(j) => match j.as_bool() {
            Some(b) => b,
            None => default,
        },
        None => default,
    }
}

fn object_of_member<'a>(o: &'a JsonObject, name: &str) -> (r: Option<&'a JsonObject>)
    ensures
        (match r {
            Some(m) => object_member(o@, name@) == Some(m@),
            None => object_member(o@, name@) is None,
        }),
{
    match o.get(name) {
        Some(j) => j.as_object(),
        None => None,
    }
}

fn erased(except: Option<&String>, s: &str, cache: &mut RegexCache) -> (r: String)
    requires
        old(cache).wf(),
    ensures
        final(cache).wf(),
        r@ == without(text::optional_ref(except), s@),
{
    match except {
        Some(p) => match cache.cached_regex(p.as_str(), false) {
            Some(re) => regex_cache::erase(&re, s),
            None => s.to_owned(),
        },
        None => s.to_owned(),
    }
}

fn object_of(params: &Vec<(String, String)>) -> (r: JsonObject)
    ensures
        r@ == text_object(lookup::pairs(params@)),
{
    let ghost all = lookup::pairs(params@);
    let mut out: JsonObject = JsonObject::new();
    let mut i: usize = 0;
    proof {
        assert(out@ =~= text_object(all.take(0)));
    }
    while i < params.len()
        invariant
            i <= params@.len(),
            all == lookup::pairs(params@),
            out@ == text_object(all.take(i as int)),
        decreases params@.len() - i,
    {
        let p = &params[i];
        proof {
            assert(all.take(i + 1).drop_last() =~= all.take(i as int));
            assert(all.take(i + 1).last() == all[i as int]);
        }
        out.insert(p.0.as_str().to_owned(), Json::text(p.1.as_str()));
        i += 1;
    }
    proof {
        assert(all.take(all.len() as int) =~= all);
    }
    out
}

fn headers_of(wanted: &JsonObject, headers: &Vec<(String, String)>) -> (r: JsonObject)
    ensures
        r@ == asked_headers(wanted@, lookup::pairs(headers@)),
        forall|i: int|
            0 <= i < r@.len() ==> {
                let e = #[trigger] r@[i];
                &&& wanted@.contains((e.0, JsonModel::Bool(true)))
                &&& e.1 is Text && lookup::pairs(headers@).contains((e.0, e.1->Text_0))
            },
{
    let n: usize = wanted.len();
    let mut out: JsonObject = JsonObject::new();
    let mut i: usize = 0;
    proof {
        assert(out@ =~= asked_headers(wanted@.take(0), lookup::pairs(headers@)));
    }
    while i < n
        invariant
            n == wanted@.len(),
            i <= n,
            out@ == asked_headers(wanted@.take(i as int), lookup::pairs(headers@)),
        decreases n - i,
    {
        proof {
            assert(wanted@.take(i + 1).drop_last() =~= wanted@.take(i as int));
            assert(wanted@.take(i + 1).last() == wanted@[i as int]);
        }
        let name: &String = wanted.key_at(i);
        let asked: bool = match wanted.value_at(i).as_bool() {
            Some(b) => b,
            None => false,
        };
        if let Some(v) = lookup::find(headers, name.as_str(), true) {
            if asked {
                out.insert(name.as_str().to_owned(), Json::text(v.as_str()));
            }
        }
        i += 1;
    }
    proof {
        assert(wanted@.take(wanted@.len() as int) =~= wanted@);
        law_flagged_headers_are_asked_for(wanted@, lookup::pairs(headers@));
    }
    out
}

fn fields_for(
    matches: &JsonObject,
    except: Option<&String>,
    r: &GeneratorRequest<'_>,
    cache: &mut RegexCache,
) -> (out: JsonObject)
    requires
        old(cache).wf(),
    ensures
        final(cache).wf(),
        out@ == asked_fields(matches@, text::optional_ref(except), r@),
{
    let mut out: JsonObject = JsonObject::new();
    proof {
        assert(out@ =~= Seq::<(Seq<char>, JsonModel)>::empty());
    }
    if flag_of_member(matches, "path", false) {
        out.insert("path".to_owned(), Json::text(erased(except, r.path, cache).as_str()));
    }
    if flag_of_member(matches, "method", false) {
        out.insert("method".to_owned(), Json::text(erased(except, r.method, cache).as_str()));
    }
    if flag_of_member(matches, "query", false) {
        if let Some(q) = r.query {
            let params: Vec<(String, String)> = query::parse_query_string(q);
            proof {
                assert(lookup::pairs(params@).len() == params@.len());
            }
            if params.len() > 0 {
                out.insert("query".to_owned(), Json::object(object_of(&params)));
            }
        }
    }
    if let Some(wanted) = object_of_member(matches, "headers") {
        let values: JsonObject = headers_of(wanted, r.headers);
        if !values.is_empty() {
            out.insert("headers".to_owned(), Json::object(values));
        }
    }
    if flag_of_member(matches, "body", false) {
        if let Some(b) = r.body {
            out.insert("body".to_owned(), Json::text(erased(except, b, cache).as_str()));
        }
    }
    out
}

fn generate_one(g: &JsonObject, r: &GeneratorRequest<'_>, cache: &mut RegexCache) -> (out: Option<
    Json,
>)
    requires
        old(cache).wf(),
    ensures
        final(cache).wf(),
        (match out {
            Some(j) => generated(g@, r@) == Some(j.model()),
            None => generated(g@, r@) is None,
        }),
{
    let matches: &JsonObject = match object_of_member(g, "matches") {
        Some(m) => m,
        None => {
            return None;
        },
    };
    let fields: JsonObject = fields_for(matches, text_of_member(g, "except"), r, cache);
    if fields.is_empty() {
        return None;
    }
    let operator: String = match text_of_member(g, "predicateOperator") {
        Some(s) => s.as_str().to_owned(),
        None => "equals".to_owned(),
    };
    let mut out: JsonObject = JsonObject::new();
    proof {
        assert(out@ =~= Seq::<(Seq<char>, JsonModel)>::empty());
    }
    out.insert(operator, Json::object(fields));
    out.insert("caseSensitive".to_owned(), Json::bool(flag_of_member(g, "caseSensitive", true)));
    Some(Json::object(out))
}

/// The predicates that generators generate from a request. Scripts are answered from outside: with
/// an answer missing the next script to ask is returned, and generation is run again with it.
pub fn generate_predicates_from_request(
    generators: &Vec<Json>,
    r: &GeneratorRequest<'_>,
    answers: &Vec<ScriptAnswer>,
    cache: &mut RegexCache,
) -> (out: Generation)
    requires
        old(cache).wf(),
    ensures
        final(cache).wf(),
        out@ == generation(
            models(generators@),
            0,
            Seq::empty(),
            Seq::new(answers@.len(), |i: int| answer_model(answers@[i])),
            r@,
        ),
{
    let ghost gens = models(generators@);
    let ghost all = Seq::new(answers@.len(), |i: int| answer_model(answers@[i]));
    let ghost whole = generation(gens, 0, Seq::empty(), all, r@);
    let mut out: Vec<Json> = Vec::new();
    let mut used: usize = 0;
    let mut k: usize = 0;
    proof {
        assert(models(out@) =~= Seq::<JsonModel>::empty());
        assert(all.skip(0) =~= all);
    }
    while k < generators.len()
        invariant
            cache.wf(),
            k <= generators@.len(),
            used <= answers@.len(),
            gens == models(generators@),
            all == Seq::new(answers@.len(), |i: int| answer_model(answers@[i])),
            whole == generation(gens, 0, Seq::empty(), all, r@),
            whole == generation(gens, k as int, models(out@), all.skip(used as int), r@),
        decreases generators@.len() - k,
    {
        proof {
            assert(gens[k as int] == generators@[k as int].model());
        }
        if let Some(g) = generators[k].as_object() {
            match text_of_member(g, "inject") {
                Some(script) => {
                    if used == answers.len() {
                        return Generation::Ask { script: script.as_str().to_owned(), so_far: out };
                    }
                    proof {
                        assert(all.skip(used as int)[0] == answer_model(answers@[used as int]));
                        assert(all.skip(used as int).drop_first() =~= all.skip(used + 1));
                    }
                    match &answers[used] {
                        Ok(more) => {
                            let ghost had = models(out@);
                            let mut j: usize = 0;
                            proof {
                                assert(models(out@) =~= had + models(more@.take(0)));
                            }
                            while j < more.len()
                                invariant
                                    j <= more@.len(),
                                    models(out@) == had + models(more@.take(j as int)),
                                decreases more@.len() - j,
                            {
                                let ghost before = out@;
                                out.push(more[j].copy());
                                proof {
                                    assert(models(out@) =~= models(before).push(
                                        more@[j as int].model(),
                                    ));
                                    assert(models(more@.take(j + 1)) =~= models(
                                        more@.take(j as int),
                                    ).push(more@[j as int].model()));
                                }
                                j += 1;
                            }
                            proof {
                                assert(more@.take(more@.len() as int) =~= more@);
                            }
                            used += 1;
                        },
                        Err(kind) => {
                            return Generation::Failed(kind.as_str().to_owned());
                        },
                    }
                },
                None => {
                    if let Some(p) = generate_one(g, r, cache) {
                        let ghost before = out@;
                        let ghost m = p.model();
                        out.push(p);
                        proof {
                            assert(models(out@) =~= models(before).push(m));
                        }
                    }
                },
            }
        }
        k += 1;
    }
    Generation::Done(out)
}

/// Without a script among them, generators need no answer and never fail.
pub proof fn law_scriptless_generation_succeeds(
    generators: Seq<JsonModel>,
    k: int,
    so_far: Seq<JsonModel>,
    r: GeneratorModel,
)
    requires
        0 <= k,
        forall|i: int|
            0 <= i < generators.len() ==> match entries_of(#[trigger] generators[i]) {
                Some(g) => text_member(g, "inject"@) is None,
                None => true,
            },
    ensures
        generation(generators, k, so_far, Seq::empty(), r) is Done,
    decreases generators.len() - k,
{
    if k < generators.len() {
        match entries_of(generators[k]) {
            Some(g) => match generated(g, r) {
                Some(p) => law_scriptless_generation_succeeds(
                    generators,
                    k + 1,
                    so_far.push(p),
                    r,
                ),
                None => law_scriptless_generation_succeeds(generators, k + 1, so_far, r),
            },
            None => law_scriptless_generation_succeeds(generators, k + 1, so_far, r),
        }
    }
}

proof fn lemma_asked_headers(
    wanted: Seq<(Seq<char>, JsonModel)>,
    headers: Seq<(Seq<char>, Seq<char>)>,
    name: Seq<char>,
)
    ensures
        lookup::find_entry(asked_headers(wanted, headers), name, true) == (if wanted.contains(
            (name, JsonModel::Bool(true)),
        ) && lookup::find_entry(headers, name, true) is Some {
            Some(JsonModel::Text(lookup::find_entry(headers, name, true)->0))
        } else {
            None
        }),
        json::distinct_keys(asked_headers(wanted, headers)),
    decreases wanted.len(),
{
    let yes = JsonModel::Bool(true);
    if wanted.len() > 0 {
        let (last, flag) = wanted.last();
        let rest = asked_headers(wanted.drop_last(), headers);
        lemma_asked_headers(wanted.drop_last(), headers, name);
        if wanted.drop_last().contains((name, yes)) {
            let i = choose|i: int|
                0 <= i < wanted.len() - 1 && wanted.drop_last()[i] == (name, yes);
            assert(wanted[i] == (name, yes));
        }
        if wanted.contains((name, yes)) && (last, flag) != (name, yes) {
            let i = choose|i: int| 0 <= i < wanted.len() && wanted[i] == (name, yes);
            assert(wanted.drop_last()[i] == (name, yes));
        }
        if (last, flag) == (name, yes) {
            assert(wanted[wanted.len() - 1] == (name, yes));
        }
        match lookup::find_entry(headers, last, true) {
            Some(v) => {
                json::law_a_put_value_is_found_under_its_key(rest, last, JsonModel::Text(v), name);
                json::law_a_put_key_stands_once(rest, last, JsonModel::Text(v));
            },
            None => {},
        }
    }
}

/// The headers that a generated predicate asks for are those flagged `true` that the request
/// carries under exactly that name, each once, with exactly the request's value; and no others. Of
/// a name that the request carries more than once the first value counts.
pub proof fn law_flagged_headers_are_asked_for(
    wanted: Seq<(Seq<char>, JsonModel)>,
    headers: Seq<(Seq<char>, Seq<char>)>,
)
    ensures
        forall|n: Seq<char>, j: int|
            #![trigger wanted.contains((n, JsonModel::Bool(true))), headers[j]]
            wanted.contains((n, JsonModel::Bool(true))) && 0 <= j < headers.len() && headers[j].0
                == n && (forall|k: int| 0 <= k < j ==> (#[trigger] headers[k]).0 != n)
                ==> asked_headers(wanted, headers).contains((n, JsonModel::Text(headers[j].1))),
        forall|i: int|
            0 <= i < asked_headers(wanted, headers).len() ==> {
                let e = #[trigger] asked_headers(wanted, headers)[i];
                &&& wanted.contains((e.0, JsonModel::Bool(true)))
                &&& e.1 is Text && headers.contains((e.0, e.1->Text_0))
            },
        json::distinct_keys(asked_headers(wanted, headers)),
{
    let asked = asked_headers(wanted, headers);
    let yes = JsonModel::Bool(true);
    lemma_asked_headers(wanted, headers, Seq::empty());
    assert forall|n: Seq<char>, j: int|
        #![trigger wanted.contains((n, yes)), headers[j]]
        wanted.contains((n, yes)) && 0 <= j < headers.len() && headers[j].0 == n && (forall|k: int|
            0 <= k < j ==> (#[trigger] headers[k]).0 != n) implies asked.contains(
        (n, JsonModel::Text(headers[j].1)),
    ) by {
        text::lemma_exact_eq(n, n);
        assert forall|k: int| 0 <= k < j implies !text::text_eq(
            (#[trigger] headers[k]).0,
            n,
            true,
        ) by {
            text::lemma_exact_eq(headers[k].0, n);
        }
        lookup::lemma_find_at(headers, n, true, j);
        lemma_asked_headers(wanted, headers, n);
        let at = lookup::lemma_found_is_member(asked, n, true);
        text::lemma_exact_eq(asked[at].0, n);
        assert(asked[at] == (n, JsonModel::Text(headers[j].1)));
    }
    assert forall|i: int| 0 <= i < asked.len() implies {
        let e = #[trigger] asked[i];
        &&& wanted.contains((e.0, yes))
        &&& e.1 is Text && headers.contains((e.0, e.1->Text_0))
    } by {
        let n = asked[i].0;
        text::lemma_exact_eq(n, n);
        assert forall|k: int| 0 <= k < i implies !text::text_eq(
            (#[trigger] asked[k]).0,
            n,
            true,
        ) by {
            text::lemma_exact_eq(asked[k].0, n);
        }
        lookup::lemma_find_at(asked, n, true, i);
        lemma_asked_headers(wanted, headers, n);
        let at = lookup::lemma_found_is_member(headers, n, true);
        text::lemma_exact_eq(headers[at].0, n);
        assert(headers[at] == (n, asked[i].1->Text_0));
    }
}

proof fn lemma_text_object(params: Seq<(Seq<char>, Seq<char>)>, name: Seq<char>, i: int)
    requires
        0 <= i < params.len(),
        params[i].0 == name,
        forall|k: int| i < k < params.len() ==> (#[trigger] params[k]).0 != name,
    ensures
        lookup::find_entry(text_object(params), name, true) == Some(JsonModel::Text(params[i].1)),
    decreases params.len(),
{
    let rest = params.drop_last();
    json::law_a_put_value_is_found_under_its_key(
        text_object(rest),
        params.last().0,
        JsonModel::Text(params.last().1),
        name,
    );
    if i < params.len() - 1 {
        assert(params[params.len() - 1].0 != name);
        assert forall|k: int| i < k < rest.len() implies (#[trigger] rest[k]).0 != name by {
            assert(rest[k] == params[k]);
        }
        lemma_text_object(rest, name, i);
    }
}

/// The member that a flag `true` asks for is there, and no member that anything else asks for.
pub open spec fn flagged(matches: Seq<(Seq<char>, JsonModel)>, name: Seq<char>) -> bool {
    lookup::find_entry(matches, name, true) == Some(JsonModel::Bool(true))
}

proof fn lemma_asked_field(
    matches: Seq<(Seq<char>, JsonModel)>,
    except: Option<Seq<char>>,
    r: GeneratorModel,
    name: Seq<char>,
)
    ensures
        lookup::find_entry(asked_fields(matches, except, r), name, true) == (if name == "body"@
            && asked_body(matches, except, r) is Some {
            asked_body(matches, except, r)
        } else if name == "headers"@ && asked_header_values(matches, r) is Some {
            asked_header_values(matches, r)
        } else if name == "query"@ && asked_query(matches, r) is Some {
            asked_query(matches, r)
        } else if name == "method"@ && asked_method(matches, except, r) is Some {
            asked_method(matches, except, r)
        } else if name == "path"@ && asked_path(matches, except, r) is Some {
            asked_path(matches, except, r)
        } else {
            None
        }),
{
    reveal_strlit("path");
    reveal_strlit("method");
    reveal_strlit("query");
    reveal_strlit("headers");
    reveal_strlit("body");
    assert("path"@[0] != "method"@[0] && "path"@[0] != "query"@[0] && "path"@[0] != "headers"@[0]
        && "path"@[0] != "body"@[0]);
    assert("method"@[0] != "query"@[0] && "method"@[0] != "headers"@[0] && "method"@[0]
        != "body"@[0]);
    assert("query"@[0] != "headers"@[0] && "query"@[0] != "body"@[0] && "headers"@[0]
        != "body"@[0]);
    let e0: Seq<(Seq<char>, JsonModel)> = Seq::empty();
    let e1 = plus(e0, "path"@, asked_path(matches, except, r));
    let e2 = plus(e1, "method"@, asked_method(matches, except, r));
    let e3 = plus(e2, "query"@, asked_query(matches, r));
    let e4 = plus(e3, "headers"@, asked_header_values(matches, r));
    if let Some(v) = asked_path(matches, except, r) {
        json::law_a_put_value_is_found_under_its_key(e0, "path"@, v, name);
    }
    if let Some(v) = asked_method(matches, except, r) {
        json::law_a_put_value_is_found_under_its_key(e1, "method"@, v, name);
    }
    if let Some(v) = asked_query(matches, r) {
        json::law_a_put_value_is_found_under_its_key(e2, "query"@, v, name);
    }
    if let Some(v) = asked_header_values(matches, r) {
        json::law_a_put_value_is_found_under_its_key(e3, "headers"@, v, name);
    }
    if let Some(v) = asked_body(matches, except, r) {
        json::law_a_put_value_is_found_under_its_key(e4, "body"@, v, name);
    }
}

/// A generated predicate asks for the path, the method, the query and the body exactly where their
/// flag is `true` and the request has one, for what the request has; and for no field of another
/// name.
pub proof fn law_flagged_fields_are_asked_for(
    matches: Seq<(Seq<char>, JsonModel)>,
    except: Option<Seq<char>>,
    r: GeneratorModel,
    other: Seq<char>,
)
    ensures
        ({
            let fields = asked_fields(matches, except, r);
            &&& lookup::find_entry(fields, "path"@, true) == (if flagged(matches, "path"@) {
                Some(JsonModel::Text(without(except, r.path)))
            } else {
                None
            })
            &&& lookup::find_entry(fields, "method"@, true) == (if flagged(matches, "method"@) {
                Some(JsonModel::Text(without(except, r.method)))
            } else {
                None
            })
            &&& lookup::find_entry(fields, "body"@, true) == (if flagged(matches, "body"@)
                && r.body is Some {
                Some(JsonModel::Text(without(except, r.body->0)))
            } else {
                None
            })
            &&& lookup::find_entry(fields, "query"@, true) is Some <==> flagged(
                matches,
                "query"@,
            ) && r.query is Some && query::query_parameters(r.query->0).len() > 0
            &&& lookup::find_entry(fields, "query"@, true) matches Some(q) ==> q is Object && (
            forall|i: int|
                0 <= i < query::query_parameters(r.query->0).len() && (forall|k: int|
                    i < k < query::query_parameters(r.query->0).len() ==> (
                    #[trigger] query::query_parameters(r.query->0)[k]).0 != query::query_parameters(
                        r.query->0,
                    )[i].0) ==> lookup::find_entry(
                    q->Object_0,
                    (#[trigger] query::query_parameters(r.query->0)[i]).0,
                    true,
                ) == Some(JsonModel::Text(query::query_parameters(r.query->0)[i].1)))
            &&& (other != "path"@ && other != "method"@ && other != "query"@ && other
                != "headers"@ && other != "body"@) ==> lookup::find_entry(fields, other, true)
                is None
        }),
{
    reveal_strlit("path");
    reveal_strlit("method");
    reveal_strlit("query");
    reveal_strlit("headers");
    reveal_strlit("body");
    assert("path"@[0] != "method"@[0] && "path"@[0] != "query"@[0] && "path"@[0] != "headers"@[0]
        && "path"@[0] != "body"@[0]);
    assert("method"@[0] != "query"@[0] && "method"@[0] != "headers"@[0] && "method"@[0]
        != "body"@[0]);
    assert("query"@[0] != "headers"@[0] && "query"@[0] != "body"@[0] && "headers"@[0]
        != "body"@[0]);
    lemma_asked_field(matches, except, r, "path"@);
    lemma_asked_field(matches, except, r, "method"@);
    lemma_asked_field(matches, except, r, "body"@);
    lemma_asked_field(matches, except, r, "query"@);
    lemma_asked_field(matches, except, r, other);
    if asked_query(matches, r) is Some {
        let params = query::query_parameters(r.query->0);
        assert forall|i: int|
            0 <= i < params.len() && (forall|k: int|
                i < k < params.len() ==> (#[trigger] params[k]).0
                    != params[i].0) implies lookup::find_entry(
            text_object(params),
            (#[trigger] params[i]).0,
            true,
        ) == Some(JsonModel::Text(params[i].1)) by {
            lemma_text_object(params, params[i].0, i);
        }
    }
}

/// A generated predicate asks for headers only where the generator names them in an object, and
/// then for those flagged `true` that the request carries under exactly that name, with exactly the
/// request's value; and for none where there are none such.
pub proof fn law_flagged_headers_are_in_the_predicate(
    matches: Seq<(Seq<char>, JsonModel)>,
    except: Option<Seq<char>>,
    r: GeneratorModel,
    wanted: Seq<(Seq<char>, JsonModel)>,
    name: Seq<char>,
)
    requires
        lookup::find_entry(matches, "headers"@, true) == Some(JsonModel::Object(wanted)),
    ensures
        ({
            let asked = lookup::find_entry(asked_fields(matches, except, r), "headers"@, true);
            &&& (asked is Some && asked->0 is Object && lookup::find_entry(
                asked->0->Object_0,
                name,
                true,
            ) is Some) <==> (wanted.contains((name, JsonModel::Bool(true))) && exists|j: int|
                0 <= j < r.headers.len() && (#[trigger] r.headers[j]).0 == name)
            &&& asked is Some ==> asked->0 is Object && asked->0->Object_0.len() > 0 && (forall|
                i: int,
            |
                0 <= i < asked->0->Object_0.len() ==> {
                    let e = #[trigger] asked->0->Object_0[i];
                    &&& wanted.contains((e.0, JsonModel::Bool(true)))
                    &&& e.1 is Text && r.headers.contains((e.0, e.1->Text_0))
                })
        }),
{
    reveal_strlit("path");
    reveal_strlit("method");
    reveal_strlit("query");
    reveal_strlit("headers");
    reveal_strlit("body");
    assert("headers"@[0] != "path"@[0] && "headers"@[0] != "method"@[0] && "headers"@[0]
        != "query"@[0] && "headers"@[0] != "body"@[0]);
    lemma_asked_field(matches, except, r, "headers"@);
    lemma_asked_headers(wanted, r.headers, name);
    law_flagged_headers_are_asked_for(wanted, r.headers);
    lookup::lemma_find_none(r.headers, name, true);
    if lookup::find_entry(r.headers, name, true) is Some {
        let j = lookup::lemma_found_is_member(r.headers, name, true);
        text::lemma_exact_eq(r.headers[j].0, name);
    }
    if exists|j: int| 0 <= j < r.headers.len() && (#[trigger] r.headers[j]).0 == name {
        let j = choose|j: int| 0 <= j < r.headers.len() && (#[trigger] r.headers[j]).0 == name;
        text::lemma_exact_eq(r.headers[j].0, name);
    }
    if lookup::find_entry(asked_headers(wanted, r.headers), name, true) is Some {
        let at = lookup::lemma_found_is_member(asked_headers(wanted, r.headers), name, true);
    }
}

/// What is excepted is erased from the value asked for; a pattern that does not compile excepts
/// nothing.
pub proof fn law_generators_erase_exceptions(pattern: Seq<char>, s: Seq<char>)
    ensures
        without(None, s) == s,
        !regex_cache::regex_compiles(pattern, false) ==> without(Some(pattern), s) == s,
        regex_cache::regex_compiles(pattern, false) ==> without(Some(pattern), s)
            == regex_cache::regex_erased(pattern, false, s),
{
}

/// A generator that asks for something the request has generates one predicate: under its operator,
/// or under `equals` where it names none, the fields asked for; and whether case matters, which it
/// does unless the generator says `false`. One that asks for nothing generates none.
pub proof fn law_a_generated_predicate_says_it_all(
    g: Seq<(Seq<char>, JsonModel)>,
    r: GeneratorModel,
    matches: Seq<(Seq<char>, JsonModel)>,
    operator: Seq<char>,
    except: Option<Seq<char>>,
    other: Seq<char>,
)
    requires
        lookup::find_entry(g, "matches"@, true) == Some(JsonModel::Object(matches)),
        match lookup::find_entry(g, "predicateOperator"@, true) {
            Some(JsonModel::Text(named)) => operator == named,
            _ => operator == "equals"@,
        },
        match lookup::find_entry(g, "except"@, true) {
            Some(JsonModel::Text(pattern)) => except == Some(pattern),
            _ => except is None,
        },
        operator != "caseSensitive"@,
    ensures
        generated(g, r) is None <==> asked_fields(matches, except, r).len() == 0,
        generated(g, r) matches Some(p) ==> {
            &&& p is Object
            &&& lookup::find_entry(p->Object_0, operator, true) == Some(
                JsonModel::Object(asked_fields(matches, except, r)),
            )
            &&& lookup::find_entry(p->Object_0, "caseSensitive"@, true) == Some(
                JsonModel::Bool(
                    lookup::find_entry(g, "caseSensitive"@, true) != Some(JsonModel::Bool(false)),
                ),
            )
            &&& other != operator && other != "caseSensitive"@ ==> lookup::find_entry(
                p->Object_0,
                other,
                true,
            ) is None
        },
{
    let e0: Seq<(Seq<char>, JsonModel)> = Seq::empty();
    let fields = JsonModel::Object(asked_fields(matches, except, r));
    let e1 = json::with_entry(e0, operator, fields);
    let flag = JsonModel::Bool(flag_member(g, "caseSensitive"@, true));
    json::law_a_put_value_is_found_under_its_key(e0, operator, fields, other);
    json::law_a_put_value_is_found_under_its_key(e1, "caseSensitive"@, flag, operator);
    json::law_a_put_value_is_found_under_its_key(e1, "caseSensitive"@, flag, other);
}

/// A generator without an object of what to match generates nothing.
pub proof fn law_nothing_to_match_generates_nothing(
    g: Seq<(Seq<char>, JsonModel)>,
    r: GeneratorModel,
)
    ensures
        lookup::find_entry(g, "matches"@, true) is None ==> generated(g, r) is None,
        lookup::find_entry(g, "matches"@, true) matches Some(m) && m !is Object ==> generated(g, r)
            is None,
{
}

/// Generators work in order, each adding what it generates behind what came before: one more
/// generator at the end adds its predicate at the end, or nothing, and a generator that is no
/// object is passed over.
pub proof fn law_generators_add_in_order(
    generators: Seq<JsonModel>,
    last: JsonModel,
    k: int,
    so_far: Seq<JsonModel>,
    answers: Seq<Result<Seq<JsonModel>, Seq<char>>>,
    r: GeneratorModel,
)
    requires
        0 <= k <= generators.len(),
        last matches JsonModel::Object(g) ==> (lookup::find_entry(g, "inject"@, true) matches Some(
            s,
        ) ==> s !is Text),
    ensures
        ({
            let before = generation(generators, k, so_far, answers, r);
            let after = generation(generators.push(last), k, so_far, answers, r);
            match before {
                GenerationModel::Done(done) => match last {
                    JsonModel::Object(g) => match generated(g, r) {
                        Some(p) => after == GenerationModel::Done(done + seq![p]),
                        None => after == before,
                    },
                    _ => after == before,
                },
                _ => after == before,
            }
        }),
    decreases generators.len() - k,
{
    let more = generators.push(last);
    if k < generators.len() {
        assert(more[k] == generators[k]);
        match entries_of(generators[k]) {
            None => law_generators_add_in_order(generators, last, k + 1, so_far, answers, r),
            Some(g) => match text_member(g, "inject"@) {
                Some(script) => if answers.len() > 0 && answers[0] is Ok {
                    law_generators_add_in_order(
                        generators,
                        last,
                        k + 1,
                        so_far + answers[0]->Ok_0,
                        answers.drop_first(),
                        r,
                    );
                },
                None => match generated(g, r) {
                    Some(p) => law_generators_add_in_order(
                        generators,
                        last,
                        k + 1,
                        so_far.push(p),
                        answers,
                        r,
                    ),
                    None => law_generators_add_in_order(
                        generators,
                        last,
                        k + 1,
                        so_far,
                        answers,
                        r,
                    ),
                },
            },
        }
    } else {
        assert(more[k] == last);
        assert(generation(more, k + 1, so_far, answers, r) == GenerationModel::Done(so_far));
        if let JsonModel::Object(g) = last {
            if let Some(p) = generated(g, r) {
                assert(generation(more, k + 1, so_far.push(p), answers, r)
                    == GenerationModel::Done(so_far.push(p)));
                assert(so_far.push(p) =~= so_far + seq![p]);
            }
        }
    }
}

/// A generator with a script is asked, with what was generated before it; what it answers joins
/// behind; and where it fails, generation fails with the kind of its failure, and nothing that was
/// generated before it or could be after it is kept.
pub proof fn law_scripts_are_asked_in_turn(
    generators: Seq<JsonModel>,
    k: int,
    script: Seq<char>,
    so_far: Seq<JsonModel>,
    answer: Result<Seq<JsonModel>, Seq<char>>,
    answers: Seq<Result<Seq<JsonModel>, Seq<char>>>,
    r: GeneratorModel,
)
    requires
        0 <= k < generators.len(),
        generators[k] is Object,
        lookup::find_entry(generators[k]->Object_0, "inject"@, true) == Some(
            JsonModel::Text(script),
        ),
    ensures
        generation(generators, k, so_far, Seq::empty(), r) == (GenerationModel::Ask {
            script,
            so_far,
        }),
        answer matches Err(kind) ==> generation(
            generators,
            k,
            so_far,
            seq![answer] + answers,
            r,
        ) == GenerationModel::Failed(kind),
        answer matches Ok(more) ==> generation(generators, k, so_far, seq![answer] + answers, r)
            == generation(generators, k + 1, so_far + more, answers, r),
        generation(generators, generators.len() as int, so_far, answers, r)
            == GenerationModel::Done(so_far),
{
    let given = seq![answer] + answers;
    assert(given[0] == answer);
    assert(given.drop_first() =~= answers);
}

} // verus!
