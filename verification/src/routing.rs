//! Finding the route of a request among those that a controller declares.

use crate::controller::law_tokens_tell_verbs_apart;
use crate::controller::verb_token;
use crate::controller::ControllerMode;
use crate::controller::ParamDef;
use crate::controller::ParamSource;
use crate::controller::ParamType;
use crate::controller::RouteDef;
use crate::controller::Verb;
use crate::error::bad_request;
use crate::error::ErrorView;
use crate::error::WebError;
use crate::params::unexpected_names;
use crate::params::ExtractedParams;
use crate::params::ExtractedView;
use crate::params::Params;
use crate::params::ParamsView;
use crate::strmap::clone_strings;
use crate::strmap::lists_keys;
use crate::strmap::multi;
use crate::strmap::single;
use crate::strmap::StrMap;
use crate::text::chars_of;
use crate::text::join;
use crate::text::join_strings;
use crate::text::law_segments_are_segments;
use crate::text::law_segments_of_joined;
use crate::text::law_slash_separates;
use crate::text::segments;
use crate::text::segments_of;
use crate::text::starts_with;
use crate::text::str_eq;
use crate::text::str_views;
use crate::text::string_of;
use crate::text::sub_chars;
use crate::text::text_less;
use crate::text::views;
use vstd::prelude::*;

verus! {

// ---------------------------------------------------------------------------
// Patterns
// ---------------------------------------------------------------------------

/// The name of a `{name}` segment.
pub open spec fn capture_name(segment: Seq<char>) -> Option<Seq<char>> {
    if segment.len() >= 2 && segment[0] == '{' && segment.last() == '}' {
        Some(segment.subrange(1, segment.len() - 1))
    } else {
        None
    }
}

/// The name of a `{...name}` segment, if it is not empty.
pub open spec fn rest_name(segment: Seq<char>) -> Option<Seq<char>> {
    if segment.len() > 5 && starts_with(segment, "{..."@) && segment.last() == '}' {
        Some(segment.subrange(4, segment.len() - 1))
    } else {
        None
    }
}

/// Whether a segment of a pattern takes a segment of a path: a capture takes
/// any, a literal takes itself.
pub open spec fn takes(pattern: Seq<char>, part: Seq<char>) -> bool {
    capture_name(pattern) is Some || pattern == part
}

/// Whether the segments of a pattern take those of a path, one by one.
pub open spec fn takes_all(patterns: Seq<Seq<char>>, parts: Seq<Seq<char>>) -> bool {
    patterns.len() == parts.len() && forall|i: int|
        0 <= i < patterns.len() ==> takes(#[trigger] patterns[i], parts[i])
}

/// What the captures among `patterns` hold of `parts`; of two captures with
/// one name the later counts.
pub open spec fn captured(patterns: Seq<Seq<char>>, parts: Seq<Seq<char>>) -> Map<
    Seq<char>,
    Seq<char>,
>
    decreases patterns.len(),
{
    if patterns.len() == 0 {
        Map::empty()
    } else {
        let before = captured(patterns.drop_last(), parts);
        match capture_name(patterns.last()) {
            Some(name) => before.insert(name, parts[patterns.len() - 1]),
            None => before,
        }
    }
}

/// What a pattern captures of a path, where it matches. Both are lists of
/// segments that are not empty. A last segment `{...name}` takes what is left
/// of the path, be it nothing.
pub open spec fn matched(pattern: Seq<char>, path: Seq<char>) -> Option<Map<Seq<char>, Seq<char>>> {
    let patterns = segments_of(pattern);
    let parts = segments_of(path);
    if patterns.len() > 0 && rest_name(patterns.last()) is Some {
        let fixed = patterns.drop_last();
        let n = fixed.len() as int;
        if n <= parts.len() && takes_all(fixed, parts.take(n)) {
            Some(
                captured(fixed, parts.take(n)).insert(
                    rest_name(patterns.last())->0,
                    join(parts.skip(n), "/"@),
                ),
            )
        } else {
            None
        }
    } else if takes_all(patterns, parts) {
        Some(captured(patterns, parts))
    } else {
        None
    }
}

/// The name of a `{...name}` segment.
pub fn rest_token_name(segment: &str) -> (r: Option<String>)
    ensures
        crate::error::text_option(r) == rest_name(segment@),
{
    let text = chars_of(segment);
    proof {
        reveal_strlit("{...");
        if text@.len() > 5 {
            let front = segment@.take(4);
            assert(starts_with(segment@, "{..."@) <==> front =~= "{..."@);
            assert(front[0] == segment@[0] && front[1] == segment@[1] && front[2] == segment@[2]
                && front[3] == segment@[3]);
        }
    }
    if text.len() > 5 && text[0] == '{' && text[1] == '.' && text[2] == '.' && text[3] == '.'
        && text[text.len() - 1] == '}' {
        Some(string_of(&sub_chars(&text, 4, text.len() - 1)))
    } else {
        None
    }
}

/// Holds one segment of a path against one of a pattern; a capture is noted in
/// `params`. False where a literal differs.
pub fn match_fixed_segment(pattern_part: &str, path_part: &str, params: &mut StrMap<String>) -> (r:
    bool)
    ensures
        r == takes(pattern_part@, path_part@),
        single(final(params)@) == match capture_name(pattern_part@) {
            Some(name) => single(old(params)@).insert(name, path_part@),
            None => single(old(params)@),
        },
{
    let text = chars_of(pattern_part);
    if text.len() >= 2 && text[0] == '{' && text[text.len() - 1] == '}' {
        let name = string_of(&sub_chars(&text, 1, text.len() - 1));
        let ghost key = name@;
        params.insert(name, path_part.to_owned());
        assert(single(params@) =~= single(old(params)@).insert(key, path_part@));
        true
    } else {
        str_eq(pattern_part, path_part)
    }
}

/// Holds the first `n` segments of a path against those of a pattern.
fn match_fixed(patterns: &[String], parts: &[String], n: usize) -> (r: Option<StrMap<String>>)
    requires
        n <= patterns@.len(),
        n <= parts@.len(),
    ensures
        r is Some <==> takes_all(views(patterns@).take(n as int), views(parts@).take(n as int)),
        r matches Some(m) ==> single(m@) == captured(
            views(patterns@).take(n as int),
            views(parts@).take(n as int),
        ),
{
    let ghost pats = views(patterns@).take(n as int);
    let ghost segs = views(parts@).take(n as int);
    let mut params: StrMap<String> = StrMap::new();
    let mut i: usize = 0;
    assert(single(params@) =~= captured(pats.take(0), segs));
    while i < n
        invariant
            i <= n,
            n <= patterns@.len(),
            n <= parts@.len(),
            pats == views(patterns@).take(n as int),
            segs == views(parts@).take(n as int),
            forall|j: int| 0 <= j < i ==> takes(#[trigger] pats[j], segs[j]),
            single(params@) == captured(pats.take(i as int), segs),
        decreases n - i,
    {
        assert(pats[i as int] == patterns@[i as int]@);
        assert(segs[i as int] == parts@[i as int]@);
        assert(pats.take(i as int + 1).drop_last() == pats.take(i as int));
        if !match_fixed_segment(patterns[i].as_str(), parts[i].as_str(), &mut params) {
            assert(!takes(pats[i as int], segs[i as int]));
            return None;
        }
        i = i + 1;
    }
    assert(pats.take(n as int) == pats);
    Some(params)
}

/// Matches a pattern against the path below a controller.
pub fn match_pattern(pattern: &str, path: &str) -> (r: Option<StrMap<String>>)
    ensures
        match r {
            Some(m) => matched(pattern@, path@) == Some(single(m@)),
            None => matched(pattern@, path@) is None,
        },
{
    let patterns = segments(pattern);
    let parts = segments(path);
    let ghost pats = segments_of(pattern@);
    let ghost segs = segments_of(path@);
    if patterns.len() > 0 {
        let n: usize = patterns.len() - 1;
        assert(pats.last() == patterns@[n as int]@);
        assert(pats.drop_last() == views(patterns@).take(n as int));
        if let Some(rest) = rest_token_name(patterns[n].as_str()) {
            if parts.len() < n {
                return None;
            }
            return match match_fixed(&patterns, &parts, n) {
                None => None,
                Some(mut params) => {
                    let left = sub_strings(&parts, n);
                    let text = join_strings(&left, "/");
                    let ghost before = single(params@);
                    let ghost name = rest@;
                    params.insert(rest, text);
                    assert(single(params@) =~= before.insert(name, text@));
                    Some(params)
                },
            };
        }
    }
    if patterns.len() != parts.len() {
        return None;
    }
    assert(pats.take(pats.len() as int) == pats);
    assert(segs.take(segs.len() as int) == segs);
    match_fixed(&patterns, &parts, patterns.len())
}

/// The strings from position `from` on.
pub fn sub_strings(v: &[String], from: usize) -> (r: Vec<String>)
    requires
        from <= v@.len(),
    ensures
        r@ == v@.skip(from as int),
        views(r@) == views(v@).skip(from as int),
{
    let mut out: Vec<String> = Vec::new();
    let mut i: usize = from;
    while i < v.len()
        invariant
            from <= i <= v@.len(),
            out@ == v@.subrange(from as int, i as int),
        decreases v.len() - i,
    {
        out.push(v[i].clone());
        i = i + 1;
    }
    assert(out@ =~= v@.skip(from as int));
    assert(views(out@) =~= views(v@).skip(from as int));
    out
}

// ---------------------------------------------------------------------------
// Routes
// ---------------------------------------------------------------------------

/// Whether the path of a request fits a route.
pub open spec fn path_fits(route: RouteDef, action: Seq<char>) -> bool {
    matched(route.pattern@, action) is Some
}

/// Whether path and verb of a request fit a route.
pub open spec fn fits(route: RouteDef, action: Seq<char>, verb: Verb) -> bool {
    path_fits(route, action) && route.verb@.contains(verb)
}

/// Whether a verb is taken by one of the routes whose path fits.
pub open spec fn verb_offered(routes: Seq<RouteDef>, action: Seq<char>, verb: Verb) -> bool {
    exists|i: int| 0 <= i < routes.len() && #[trigger] fits(routes[i], action, verb)
}

/// The verbs in the order of their tokens.
pub open spec fn verbs_by_token() -> Seq<Verb> {
    seq![
        Verb::DELETE,
        Verb::GET,
        Verb::HEAD,
        Verb::OPTIONS,
        Verb::PATCH,
        Verb::POST,
        Verb::PUT,
    ]
}

/// The tokens of those among `verbs` that are offered, in order.
pub open spec fn offered_tokens(verbs: Seq<Verb>, offered: spec_fn(Verb) -> bool) -> Seq<Seq<char>>
    decreases verbs.len(),
{
    if verbs.len() == 0 {
        Seq::empty()
    } else if offered(verbs.last()) {
        offered_tokens(verbs.drop_last(), offered).push(verb_token(verbs.last()))
    } else {
        offered_tokens(verbs.drop_last(), offered)
    }
}

/// The tokens of the verbs that the routes with a fitting path take, sorted
/// and each once.
pub open spec fn allow_list(routes: Seq<RouteDef>, action: Seq<char>) -> Seq<Seq<char>> {
    offered_tokens(verbs_by_token(), |v: Verb| verb_offered(routes, action, v))
}

/// The first route whose path and verb fit.
pub open spec fn first_fit(routes: Seq<RouteDef>, action: Seq<char>, verb: Verb) -> Option<int>
    decreases routes.len(),
{
    if routes.len() == 0 {
        None
    } else {
        match first_fit(routes.drop_last(), action, verb) {
            Some(i) => Some(i),
            None => if fits(routes.last(), action, verb) {
                Some(routes.len() - 1)
            } else {
                None
            },
        }
    }
}

/// Whether a declared parameter is owed by the query and missing from it.
pub open spec fn is_missing(p: ParamDef, query: Map<Seq<char>, Seq<Seq<char>>>) -> bool {
    p.source == ParamSource::Query && !query.contains_key(p.name@) && p.default is None && p.ty
        != ParamType::StringArray
}

/// The first declared parameter that is owed and missing.
pub open spec fn first_missing(
    params: Seq<ParamDef>,
    query: Map<Seq<char>, Seq<Seq<char>>>,
) -> Option<Seq<char>>
    decreases params.len(),
{
    if params.len() == 0 {
        None
    } else {
        match first_missing(params.drop_last(), query) {
            Some(name) => Some(name),
            None => if is_missing(params.last(), query) {
                Some(params.last().name@)
            } else {
                None
            },
        }
    }
}

/// The names that a route declares for the query, in order.
pub open spec fn query_names(params: Seq<ParamDef>) -> Seq<Seq<char>>
    decreases params.len(),
{
    if params.len() == 0 {
        Seq::empty()
    } else if params.last().source == ParamSource::Query {
        query_names(params.drop_last()).push(params.last().name@)
    } else {
        query_names(params.drop_last())
    }
}

/// The part of a query that a route declares.
pub open spec fn declared_query(
    params: Seq<ParamDef>,
    query: Map<Seq<char>, Seq<Seq<char>>>,
) -> Map<Seq<char>, Seq<Seq<char>>> {
    query.restrict(Set::new(|k: Seq<char>| query_names(params).contains(k)))
}

/// What a route makes of a request whose path and verb fit it.
pub open spec fn extracted(
    route: RouteDef,
    action: Seq<char>,
    params: ParamsView,
    mode: ControllerMode,
) -> Result<ExtractedView, ErrorView> {
    match first_missing(route.params@, params.query) {
        Some(name) => Err(ErrorView::BadRequest("Missing required parameter: "@ + name)),
        None => {
            let unexpected = unexpected_names(params.query_names, query_names(route.params@));
            if mode == ControllerMode::Strict && unexpected.len() > 0 {
                Err(
                    ErrorView::BadRequest(
                        "Unexpected parameters: "@ + join(unexpected, ", "@),
                    ),
                )
            } else {
                Ok(
                    ExtractedView {
                        path: matched(route.pattern@, action)->0,
                        query: declared_query(route.params@, params.query),
                        body: params.body,
                        raw_body: params.raw_body,
                    },
                )
            }
        },
    }
}

/// What a list of routes makes of a request: the first route whose path and
/// verb fit decides; with none, `405` where a path fitted and `404` where none
/// did.
pub open spec fn resolved(
    routes: Seq<RouteDef>,
    action: Seq<char>,
    params: ParamsView,
    mode: ControllerMode,
) -> Result<(int, ExtractedView), ErrorView> {
    match first_fit(routes, action, params.verb) {
        Some(i) => match extracted(routes[i], action, params, mode) {
            Ok(v) => Ok((i, v)),
            Err(e) => Err(e),
        },
        None => if allow_list(routes, action).len() > 0 {
            Err(ErrorView::MethodNotAllowed(allow_list(routes, action)))
        } else {
            Err(ErrorView::NotFound)
        },
    }
}

/// Whether `verb` is one of `verbs`.
pub fn has_verb(verbs: &[Verb], verb: Verb) -> (r: bool)
    ensures
        r == verbs@.contains(verb),
{
    let mut i: usize = 0;
    while i < verbs.len()
        invariant
            i <= verbs@.len(),
            forall|j: int| 0 <= j < i ==> verbs@[j] != verb,
        decreases verbs.len() - i,
    {
        if verbs[i] == verb {
            assert(verbs@[i as int] == verb);
            return true;
        }
        i = i + 1;
    }
    false
}

fn is_offered(routes: &[RouteDef], action: &str, verb: Verb) -> (r: bool)
    ensures
        r == verb_offered(routes@, action@, verb),
{
    let mut i: usize = 0;
    while i < routes.len()
        invariant
            i <= routes@.len(),
            forall|j: int| 0 <= j < i ==> !#[trigger] fits(routes@[j], action@, verb),
        decreases routes.len() - i,
    {
        if has_verb(routes[i].verb, verb) && match_pattern(routes[i].pattern, action).is_some() {
            assert(fits(routes@[i as int], action@, verb));
            return true;
        }
        i = i + 1;
    }
    false
}

/// The verbs that the routes with a fitting path take.
fn allowed_methods(routes: &[RouteDef], action: &str) -> (r: Vec<&'static str>)
    ensures
        str_views(r@) == allow_list(routes@, action@),
{
    let verbs: [Verb; 7] = [
        Verb::DELETE,
        Verb::GET,
        Verb::HEAD,
        Verb::OPTIONS,
        Verb::PATCH,
        Verb::POST,
        Verb::PUT,
    ];
    let ghost offered = |v: Verb| verb_offered(routes@, action@, v);
    let ghost all = verbs_by_token();
    assert(verbs@ =~= all);
    let mut out: Vec<&'static str> = Vec::new();
    let mut i: usize = 0;
    assert(all.take(0) =~= Seq::<Verb>::empty());
    assert(str_views(out@) =~= Seq::<Seq<char>>::empty());
    while i < 7
        invariant
            i <= 7,
            all == verbs_by_token(),
            verbs@ == all,
            offered == (|v: Verb| verb_offered(routes@, action@, v)),
            str_views(out@) == offered_tokens(all.take(i as int), offered),
        decreases 7 - i,
    {
        assert(all.take(i as int + 1).drop_last() == all.take(i as int));
        let verb = verbs[i];
        if is_offered(routes, action, verb) {
            let ghost prev = out@;
            out.push(verb.as_str());
            assert(str_views(out@) =~= str_views(prev).push(verb_token(verb)));
        }
        i = i + 1;
    }
    assert(all.take(7) == all);
    out
}

/// Reads the declared parameters of a route from a request.
fn extract(
    route: &RouteDef,
    path: StrMap<String>,
    params: &Params,
    mode: ControllerMode,
    Ghost(action): Ghost<Seq<char>>,
) -> (r: Result<ExtractedParams, WebError>)
    requires
        matched(route.pattern@, action) == Some(single(path@)),
    ensures
        match r {
            Ok(e) => extracted(*route, action, params@, mode) == Ok::<ExtractedView, ErrorView>(e@),
            Err(e) => extracted(*route, action, params@, mode) == Err::<ExtractedView, ErrorView>(
                e@,
            ),
        },
{
    let defs = route.params;
    let ghost all = defs@;
    let ghost given = params@.query;
    let mut query: StrMap<Vec<String>> = StrMap::new();
    let mut expected: Vec<&str> = Vec::new();
    let mut i: usize = 0;
    assert(all.take(0) =~= Seq::<ParamDef>::empty());
    assert(multi(query@) =~= declared_query(all.take(0), given));
    assert(str_views(expected@) =~= query_names(all.take(0)));
    while i < defs.len()
        invariant
            i <= defs@.len(),
            all == defs@,
            defs@ == route.params@,
            given == params@.query,
            first_missing(all.take(i as int), given) is None,
            str_views(expected@) == query_names(all.take(i as int)),
            multi(query@) == declared_query(all.take(i as int), given),
        decreases defs.len() - i,
    {
        let def = &defs[i];
        let ghost before = query_names(all.take(i as int));
        assert(all.take(i as int + 1).drop_last() == all.take(i as int));
        assert(all.take(i as int + 1).last() == *def);
        if def.source == ParamSource::Query {
            let ghost shown = expected@;
            expected.push(def.name);
            assert(str_views(expected@) =~= str_views(shown).push(def.name@));
            let ghost after = query_names(all.take(i as int + 1));
            assert(after == before.push(def.name@));
            assert forall|k: Seq<char>| after.contains(k) <==> before.contains(k) || k
                == def.name@ by {
                if before.contains(k) {
                    assert(after[before.index_of(k)] == k);
                }
                if k == def.name@ {
                    assert(after[before.len() as int] == k);
                }
                if after.contains(k) && k != def.name@ {
                    assert(before[after.index_of(k)] == k);
                }
            }
            match params.query().get(def.name) {
                Some(values) => {
                    assert(given[def.name@] == views(values@));
                    let ghost prev = multi(query@);
                    let copy = clone_strings(values);
                    query.insert(def.name.to_owned(), copy);
                    assert(multi(query@) =~= prev.insert(def.name@, views(values@)));
                    assert(multi(query@) =~= declared_query(all.take(i as int + 1), given));
                },
                None => {
                    assert(multi(query@) =~= declared_query(all.take(i as int + 1), given));
                    assert(!given.contains_key(def.name@));
                    if def.default.is_none() && def.ty != ParamType::StringArray {
                        proof {
                            lemma_missing_stays(all, given, i as int + 1);
                        }
                        return Err(bad_request("Missing required parameter: ", def.name));
                    }
                },
            }
        } else {
            assert(query_names(all.take(i as int + 1)) == before);
        }
        i = i + 1;
    }
    assert(all.take(all.len() as int) == all);
    if mode == ControllerMode::Strict {
        if let Some(unexpected) = params.check_unexpected(&expected) {
            let text = join_strings(&unexpected, ", ");
            return Err(bad_request("Unexpected parameters: ", text.as_str()));
        }
    }
    Ok(ExtractedParams::assemble(path, query, params))
}

proof fn lemma_missing_stays(
    params: Seq<ParamDef>,
    query: Map<Seq<char>, Seq<Seq<char>>>,
    k: int,
)
    requires
        0 <= k <= params.len(),
        first_missing(params.take(k), query) is Some,
    ensures
        first_missing(params, query) == first_missing(params.take(k), query),
    decreases params.len() - k,
{
    if k == params.len() {
        assert(params.take(k) == params);
    } else {
        assert(params.take(k + 1).drop_last() == params.take(k));
        lemma_missing_stays(params, query, k + 1);
    }
}

proof fn lemma_first_fit_stays(routes: Seq<RouteDef>, action: Seq<char>, verb: Verb, k: int)
    requires
        0 <= k <= routes.len(),
        first_fit(routes.take(k), action, verb) is Some,
    ensures
        first_fit(routes, action, verb) == first_fit(routes.take(k), action, verb),
    decreases routes.len() - k,
{
    if k == routes.len() {
        assert(routes.take(k) == routes);
    } else {
        assert(routes.take(k + 1).drop_last() == routes.take(k));
        lemma_first_fit_stays(routes, action, verb, k + 1);
    }
}

/// Finds the route of a request and reads its parameters. The routes are tried
/// in the order of their declaration.
pub fn resolve<'a>(
    routes: &'a [RouteDef],
    action: &str,
    params: &Params,
    mode: ControllerMode,
) -> (r: Result<(&'a RouteDef, ExtractedParams), WebError>)
    ensures
        match r {
            Ok((route, e)) => resolved(routes@, action@, params@, mode) matches Ok((i, v)) && 0 <= i
                < routes@.len() && *route == routes@[i] && e@ == v,
            Err(e) => resolved(routes@, action@, params@, mode) == Err::<
                (int, ExtractedView),
                ErrorView,
            >(e@),
        },
{
    let verb = params.verb();
    let mut i: usize = 0;
    while i < routes.len()
        invariant
            i <= routes@.len(),
            verb == params@.verb,
            first_fit(routes@.take(i as int), action@, verb) is None,
        decreases routes.len() - i,
    {
        assert(routes@.take(i as int + 1).drop_last() == routes@.take(i as int));
        assert(routes@.take(i as int + 1).last() == routes@[i as int]);
        let route = &routes[i];
        if let Some(path) = match_pattern(route.pattern, action) {
            if has_verb(route.verb, verb) {
                proof {
                    lemma_first_fit_stays(routes@, action@, verb, i as int + 1);
                }
                return match extract(route, path, params, mode, Ghost(action@)) {
                    Ok(e) => Ok((route, e)),
                    Err(e) => Err(e),
                };
            }
        }
        i = i + 1;
    }
    assert(routes@.take(routes@.len() as int) == routes@);
    let allowed = allowed_methods(routes, action);
    assert(str_views(allowed@).len() == allowed@.len());
    if allowed.len() == 0 {
        Err(WebError::NotFound)
    } else {
        Err(WebError::MethodNotAllowed(allowed))
    }
}

// ---------------------------------------------------------------------------
// Laws
// ---------------------------------------------------------------------------

/// A pattern without segments matches exactly the paths without segments, and
/// captures nothing.
pub proof fn law_empty_pattern(pattern: Seq<char>, path: Seq<char>)
    requires
        segments_of(pattern).len() == 0,
    ensures
        matched(pattern, path) is Some <==> segments_of(path).len() == 0,
        matched(pattern, path) matches Some(m) ==> m == Map::<Seq<char>, Seq<char>>::empty(),
{
}

/// A literal or a capture needs a segment: the empty path is matched only by a
/// pattern without segments and by one that is a rest alone.
pub proof fn law_required_segments(pattern: Seq<char>, path: Seq<char>)
    requires
        segments_of(path).len() == 0,
    ensures
        matched(pattern, path) is Some <==> {
            ||| segments_of(pattern).len() == 0
            ||| segments_of(pattern).len() == 1 && rest_name(segments_of(pattern)[0]) is Some
        },
{
    let patterns = segments_of(pattern);
    let parts = segments_of(path);
    if patterns.len() > 0 && rest_name(patterns.last()) is Some {
        if patterns.len() == 1 {
            assert(takes_all(patterns.drop_last(), parts.take(0)));
        }
    }
}

/// A rest holds what is left of the path behind the fixed segments, slashes
/// and all: its segments are the last ones of the path.
pub proof fn law_rest_holds_the_remainder(pattern: Seq<char>, path: Seq<char>)
    requires
        segments_of(pattern).len() > 0,
        rest_name(segments_of(pattern).last()) is Some,
        matched(pattern, path) is Some,
    ensures
        segments_of(pattern).len() - 1 <= segments_of(path).len(),
        ({
            let name = rest_name(segments_of(pattern).last())->0;
            let m = matched(pattern, path)->0;
            &&& m.contains_key(name)
            &&& segments_of(m[name]) == segments_of(path).skip(segments_of(pattern).len() - 1)
        }),
{
    let n = segments_of(pattern).len() - 1;
    let parts = segments_of(path);
    let left = parts.skip(n);
    law_segments_are_segments(path);
    assert forall|i: int| 0 <= i < left.len() implies (#[trigger] left[i]).len() > 0
        && !left[i].contains('/') by {
        assert(left[i] == parts[i + n]);
    }
    law_segments_of_joined(left);
}

/// Slashes in front, behind or doubled change no match.
pub proof fn law_slashes_change_no_match(pattern: Seq<char>, a: Seq<char>, b: Seq<char>)
    ensures
        matched(pattern, seq!['/'] + a) == matched(pattern, a),
        matched(pattern, a.push('/')) == matched(pattern, a),
        matched(pattern, a.push('/').push('/') + b) == matched(pattern, a.push('/') + b),
{
    law_slash_separates(a, a);
    law_slash_separates(a, b);
    law_slash_separates(a.push('/'), b);
}

/// The first route whose path and verb fit decides, and no other: none before
/// it fits, and there is none exactly where no route fits.
pub proof fn law_declaration_order(routes: Seq<RouteDef>, action: Seq<char>, verb: Verb)
    ensures
        match first_fit(routes, action, verb) {
            Some(i) => 0 <= i < routes.len() && fits(routes[i], action, verb) && forall|j: int|
                0 <= j < i ==> !#[trigger] fits(routes[j], action, verb),
            None => !verb_offered(routes, action, verb),
        },
    decreases routes.len(),
{
    if routes.len() > 0 {
        let before = routes.drop_last();
        law_declaration_order(before, action, verb);
        match first_fit(before, action, verb) {
            Some(i) => {
                assert(routes[i] == before[i]);
                assert forall|j: int| 0 <= j < i implies !#[trigger] fits(
                    routes[j],
                    action,
                    verb,
                ) by {
                    assert(before[j] == routes[j]);
                }
            },
            None => {
                assert forall|j: int| 0 <= j < routes.len() - 1 implies !#[trigger] fits(
                    routes[j],
                    action,
                    verb,
                ) by {
                    assert(before[j] == routes[j]);
                    assert(!fits(before[j], action, verb));
                }
            },
        }
    }
}

/// Whether each text stands before the next ones.
pub open spec fn ascending(texts: Seq<Seq<char>>) -> bool {
    forall|i: int, j: int|
        0 <= i < j < texts.len() ==> text_less(#[trigger] texts[i], #[trigger] texts[j])
}

spec fn is_token_of(token: Seq<char>, verbs: Seq<Verb>) -> bool {
    exists|j: int| 0 <= j < verbs.len() && #[trigger] verb_token(verbs[j]) == token
}

proof fn lemma_offered_tokens(verbs: Seq<Verb>, offered: spec_fn(Verb) -> bool)
    ensures
        forall|v: Verb|
            offered_tokens(verbs, offered).contains(#[trigger] verb_token(v)) <==> verbs.contains(v)
                && offered(v),
        forall|i: int|
            0 <= i < offered_tokens(verbs, offered).len() ==> is_token_of(
                #[trigger] offered_tokens(verbs, offered)[i],
                verbs,
            ),
    decreases verbs.len(),
{
    let all = offered_tokens(verbs, offered);
    if verbs.len() > 0 {
        let front = verbs.drop_last();
        lemma_offered_tokens(front, offered);
        let before = offered_tokens(front, offered);
        assert(verbs == front.push(verbs.last()));
        assert forall|v: Verb| all.contains(#[trigger] verb_token(v)) <==> verbs.contains(v)
            && offered(v) by {
            law_tokens_tell_verbs_apart(v, verbs.last());
            if before.contains(verb_token(v)) {
                assert(all[before.index_of(verb_token(v))] == verb_token(v));
            }
            if front.contains(v) {
                assert(verbs[front.index_of(v)] == v);
            }
            if verbs.contains(v) && v != verbs.last() {
                assert(front[verbs.index_of(v)] == v);
            }
            if v == verbs.last() {
                assert(verbs[verbs.len() - 1] == v);
                if offered(v) {
                    assert(all[all.len() - 1] == verb_token(v));
                }
            }
            if all.contains(verb_token(v)) && !before.contains(verb_token(v)) {
                let k = all.index_of(verb_token(v));
                if k < before.len() {
                    assert(before[k] == verb_token(v));
                }
            }
        }
        assert forall|i: int| 0 <= i < all.len() implies is_token_of(#[trigger] all[i], verbs) by {
            if i < before.len() {
                assert(all[i] == before[i]);
                assert(is_token_of(before[i], front));
                let j = choose|j: int|
                    0 <= j < front.len() && #[trigger] verb_token(front[j]) == before[i];
                assert(verbs[j] == front[j]);
                assert(verb_token(verbs[j]) == all[i]);
            } else {
                assert(verb_token(verbs[verbs.len() - 1]) == all[i]);
            }
        }
    }
}

proof fn lemma_offered_ascending(verbs: Seq<Verb>, offered: spec_fn(Verb) -> bool)
    requires
        forall|i: int, j: int|
            0 <= i < j < verbs.len() ==> text_less(
                verb_token(#[trigger] verbs[i]),
                verb_token(#[trigger] verbs[j]),
            ),
    ensures
        ascending(offered_tokens(verbs, offered)),
    decreases verbs.len(),
{
    if verbs.len() > 0 {
        let front = verbs.drop_last();
        lemma_offered_ascending(front, offered);
        lemma_offered_tokens(front, offered);
        let before = offered_tokens(front, offered);
        let all = offered_tokens(verbs, offered);
        assert forall|i: int, j: int| 0 <= i < j < all.len() implies text_less(
            #[trigger] all[i],
            #[trigger] all[j],
        ) by {
            if j < before.len() {
                assert(all[i] == before[i] && all[j] == before[j]);
            } else {
                assert(all[i] == before[i]);
                assert(is_token_of(before[i], front));
                let k = choose|k: int|
                    0 <= k < front.len() && #[trigger] verb_token(front[k]) == before[i];
                assert(verbs[k] == front[k]);
                assert(verbs[verbs.len() - 1] == verbs.last());
            }
        }
    }
}

proof fn lemma_verbs_by_token()
    ensures
        forall|i: int, j: int|
            0 <= i < j < verbs_by_token().len() ==> text_less(
                verb_token(#[trigger] verbs_by_token()[i]),
                verb_token(#[trigger] verbs_by_token()[j]),
            ),
        forall|v: Verb| #[trigger] verbs_by_token().contains(v),
{
    reveal_strlit("GET");
    reveal_strlit("POST");
    reveal_strlit("PUT");
    reveal_strlit("DELETE");
    reveal_strlit("PATCH");
    reveal_strlit("HEAD");
    reveal_strlit("OPTIONS");
    reveal_with_fuel(text_less, 3);
    let all = verbs_by_token();
    assert forall|v: Verb| #[trigger] all.contains(v) by {
        assert(all[0] == Verb::DELETE && all[1] == Verb::GET && all[2] == Verb::HEAD && all[3]
            == Verb::OPTIONS && all[4] == Verb::PATCH && all[5] == Verb::POST && all[6]
            == Verb::PUT);
    }
}

/// The list of a `405` names exactly the verbs that the routes with a fitting
/// path take, sorted and each once.
pub proof fn law_allow_list(routes: Seq<RouteDef>, action: Seq<char>)
    ensures
        ascending(allow_list(routes, action)),
        forall|v: Verb|
            allow_list(routes, action).contains(#[trigger] verb_token(v)) <==> verb_offered(
                routes,
                action,
                v,
            ),
        allow_list(routes, action).len() == 0 <==> forall|v: Verb|
            !#[trigger] verb_offered(routes, action, v),
{
    let offered = |v: Verb| verb_offered(routes, action, v);
    let verbs = verbs_by_token();
    let list = allow_list(routes, action);
    lemma_verbs_by_token();
    lemma_offered_tokens(verbs, offered);
    lemma_offered_ascending(verbs, offered);
    assert forall|v: Verb| list.contains(#[trigger] verb_token(v)) <==> verb_offered(
        routes,
        action,
        v,
    ) by {
        assert(verbs.contains(v));
    }
    if list.len() > 0 {
        assert(is_token_of(list[0], verbs));
        let j = choose|j: int| 0 <= j < verbs.len() && #[trigger] verb_token(verbs[j]) == list[0];
        assert(list.contains(verb_token(verbs[j])));
        assert(verb_offered(routes, action, verbs[j]));
    } else {
        assert forall|v: Verb| !#[trigger] verb_offered(routes, action, v) by {
            assert(!list.contains(verb_token(v)));
        }
    }
}

/// A request is answered `404` exactly where no route has a fitting path and a
/// verb, and `405` exactly where one has but none takes the verb of the
/// request.
pub proof fn law_not_found_or_not_allowed(
    routes: Seq<RouteDef>,
    action: Seq<char>,
    params: ParamsView,
    mode: ControllerMode,
)
    ensures
        resolved(routes, action, params, mode) == Err::<(int, ExtractedView), ErrorView>(
            ErrorView::NotFound,
        ) <==> forall|v: Verb| !#[trigger] verb_offered(routes, action, v),
        (resolved(routes, action, params, mode) matches Err(e) && e is MethodNotAllowed) <==> {
            &&& !verb_offered(routes, action, params.verb)
            &&& exists|v: Verb| #[trigger] verb_offered(routes, action, v)
        },
{
    law_declaration_order(routes, action, params.verb);
    law_allow_list(routes, action);
    if let Some(i) = first_fit(routes, action, params.verb) {
        assert(verb_offered(routes, action, params.verb));
    }
}

proof fn lemma_unexpected_names(names: Seq<Seq<char>>, expected: Seq<Seq<char>>)
    ensures
        unexpected_names(names, expected).len() == 0 <==> forall|i: int|
            0 <= i < names.len() ==> expected.contains(#[trigger] names[i]),
    decreases names.len(),
{
    if names.len() > 0 {
        let front = names.drop_last();
        lemma_unexpected_names(front, expected);
        assert(names[names.len() - 1] == names.last());
        if unexpected_names(front, expected).len() == 0 && expected.contains(names.last()) {
            assert forall|i: int| 0 <= i < names.len() implies expected.contains(
                #[trigger] names[i],
            ) by {
                if i < front.len() {
                    assert(names[i] == front[i]);
                }
            }
        }
        if forall|i: int| 0 <= i < names.len() ==> expected.contains(#[trigger] names[i]) {
            assert forall|i: int| 0 <= i < front.len() implies expected.contains(
                #[trigger] front[i],
            ) by {
                assert(front[i] == names[i]);
            }
        }
    }
}

/// In strict mode a request to a route is resolved exactly where nothing that
/// the route asks for is missing and the route declares every name of the
/// query; in lax mode no name is held against it.
pub proof fn law_strict_mode(
    routes: Seq<RouteDef>,
    action: Seq<char>,
    params: ParamsView,
    i: int,
)
    requires
        lists_keys(params.query_names, params.query),
        first_fit(routes, action, params.verb) == Some(i),
    ensures
        resolved(routes, action, params, ControllerMode::Strict) is Ok <==> {
            &&& first_missing(routes[i].params@, params.query) is None
            &&& forall|name: Seq<char>| #[trigger]
                params.query.contains_key(name) ==> query_names(routes[i].params@).contains(name)
        },
        resolved(routes, action, params, ControllerMode::Lax) is Ok <==> first_missing(
            routes[i].params@,
            params.query,
        ) is None,
{
    let declared = query_names(routes[i].params@);
    lemma_unexpected_names(params.query_names, declared);
    if forall|name: Seq<char>| #[trigger] params.query.contains_key(name) ==> declared.contains(name) {
        assert forall|j: int| 0 <= j < params.query_names.len() implies declared.contains(
            #[trigger] params.query_names[j],
        ) by {
            assert(params.query_names.contains(params.query_names[j]));
            assert(params.query.contains_key(params.query_names[j]));
        }
    }
}

/// Whether a segment stands in braces.
pub open spec fn braced(segment: Seq<char>) -> bool {
    segment.len() >= 2 && segment[0] == '{' && segment[segment.len() - 1] == '}'
}

proof fn lemma_captured_value(patterns: Seq<Seq<char>>, parts: Seq<Seq<char>>, i: int, name: Seq<char>)
    requires
        0 <= i < patterns.len(),
        capture_name(patterns[i]) == Some(name),
        forall|j: int|
            i < j < patterns.len() ==> capture_name(#[trigger] patterns[j]) != Some(name),
    ensures
        captured(patterns, parts).contains_key(name),
        captured(patterns, parts)[name] == parts[i],
    decreases patterns.len(),
{
    if i < patterns.len() - 1 {
        let front = patterns.drop_last();
        assert(front[i] == patterns[i]);
        assert forall|j: int| i < j < front.len() implies capture_name(#[trigger] front[j]) != Some(
            name,
        ) by {
            assert(front[j] == patterns[j]);
        }
        assert(capture_name(patterns[patterns.len() - 1]) != Some(name));
        lemma_captured_value(front, parts, i, name);
    }
}

/// Where a pattern matches, what a segment `{name}` captures is the segment of
/// the path at the same place, character by character. No other segment of the
/// pattern has the name.
pub proof fn law_captures_are_segments(
    pattern: Seq<char>,
    path: Seq<char>,
    i: int,
    name: Seq<char>,
)
    requires
        matched(pattern, path) is Some,
        0 <= i < segments_of(pattern).len(),
        segments_of(pattern)[i] == seq!['{'] + name + seq!['}'],
        name.len() <= 3 || name.take(3) != seq!['.', '.', '.'],
        forall|j: int|
            0 <= j < segments_of(pattern).len() && j != i ==> #[trigger] segments_of(pattern)[j]
                != seq!['{'] + name + seq!['}'] && segments_of(pattern)[j] != seq!['{', '.', '.', '.']
                + name + seq!['}'],
    ensures
        i < segments_of(path).len(),
        matched(pattern, path)->0.contains_key(name),
        matched(pattern, path)->0[name] == segments_of(path)[i],
{
    let patterns = segments_of(pattern);
    let parts = segments_of(path);
    let segment = seq!['{'] + name + seq!['}'];
    let dots = seq!['{', '.', '.', '.'];
    reveal_strlit("{...");
    assert("{..."@ =~= dots);
    assert(segment.subrange(1, segment.len() - 1) =~= name);
    assert(capture_name(segment) == Some(name));
    assert forall|s: Seq<char>| #[trigger] capture_name(s) == Some(name) implies s == segment by {
        assert(s =~= seq!['{'] + s.subrange(1, s.len() - 1) + seq!['}']);
    }
    assert(rest_name(segment) is None) by {
        if rest_name(segment) is Some {
            let front = segment.take(4);
            assert(front[1] == segment[1] && front[2] == segment[2] && front[3] == segment[3]);
            assert(name[0] == segment[1] && name[1] == segment[2] && name[2] == segment[3]);
            assert(name.take(3) =~= seq!['.', '.', '.']);
        }
    }
    let n = patterns.len() - 1;
    if rest_name(patterns.last()) is Some {
        let last = patterns[n];
        let fixed = patterns.drop_last();
        assert(fixed[i] == patterns[i]);
        assert forall|j: int| i < j < fixed.len() implies capture_name(#[trigger] fixed[j]) != Some(
            name,
        ) by {
            assert(fixed[j] == patterns[j]);
            assert(patterns[j] != segment);
        }
        lemma_captured_value(fixed, parts.take(n), i, name);
        let rest = rest_name(last)->0;
        if rest == name {
            assert(last =~= last.take(4) + last.subrange(4, last.len() - 1) + seq![last.last()]);
            assert(last == dots + name + seq!['}']);
        }
    } else {
        assert forall|j: int| i < j < patterns.len() implies capture_name(#[trigger] patterns[j])
            != Some(name) by {
            assert(patterns[j] != segment);
        }
        lemma_captured_value(patterns, parts, i, name);
    }
}

/// A pattern without a `{...name}` at its end matches exactly the paths with as
/// many segments, in which each segment outside of braces stands at the same
/// place, in the same case.
pub proof fn law_literals_match_themselves(pattern: Seq<char>, path: Seq<char>)
    requires
        segments_of(pattern).len() > 0 ==> {
            let last = segments_of(pattern)[segments_of(pattern).len() - 1];
            last.len() <= 5 || last.take(4) != seq!['{', '.', '.', '.'] || last[last.len() - 1] != '}'
        },
    ensures
        matched(pattern, path) is Some <==> {
            &&& segments_of(path).len() == segments_of(pattern).len()
            &&& forall|i: int|
                0 <= i < segments_of(pattern).len() && !braced(#[trigger] segments_of(pattern)[i])
                    ==> segments_of(path)[i] == segments_of(pattern)[i]
        },
{
    let patterns = segments_of(pattern);
    let parts = segments_of(path);
    reveal_strlit("{...");
    assert("{..."@ =~= seq!['{', '.', '.', '.']);
    if patterns.len() == parts.len() && forall|i: int|
        0 <= i < patterns.len() && !braced(#[trigger] patterns[i]) ==> parts[i] == patterns[i] {
        assert forall|i: int| 0 <= i < patterns.len() implies takes(
            #[trigger] patterns[i],
            parts[i],
        ) by {
            if braced(patterns[i]) {
                assert(capture_name(patterns[i]) is Some);
            }
        }
    }
    if takes_all(patterns, parts) {
        assert forall|i: int| 0 <= i < patterns.len() && !braced(#[trigger] patterns[i]) implies parts[i]
            == patterns[i] by {
            assert(takes(patterns[i], parts[i]));
        }
    }
}

/// A pattern with a `{...name}` at its end matches exactly the paths that begin
/// as the segments in front of it ask for; it captures the segments behind
/// those, with one slash between two of them.
pub proof fn law_rest_patterns(pattern: Seq<char>, path: Seq<char>, name: Seq<char>)
    requires
        segments_of(pattern).len() > 0,
        name.len() > 0,
        segments_of(pattern)[segments_of(pattern).len() - 1] == seq!['{', '.', '.', '.'] + name
            + seq!['}'],
    ensures
        ({
            let n = segments_of(pattern).len() - 1;
            &&& matched(pattern, path) is Some <==> {
                &&& segments_of(path).len() >= n
                &&& forall|i: int|
                    0 <= i < n && !braced(#[trigger] segments_of(pattern)[i]) ==> segments_of(path)[i]
                        == segments_of(pattern)[i]
            }
            &&& matched(pattern, path) matches Some(m) ==> m.contains_key(name) && m[name] == join(
                segments_of(path).skip(n),
                seq!['/'],
            )
        }),
{
    let patterns = segments_of(pattern);
    let parts = segments_of(path);
    let n = patterns.len() - 1;
    let last = patterns[n];
    let fixed = patterns.drop_last();
    reveal_strlit("{...");
    reveal_strlit("/");
    assert("/"@ =~= seq!['/']);
    assert("{..."@ =~= seq!['{', '.', '.', '.']);
    assert(last.take(4) =~= "{..."@);
    assert(last.subrange(4, last.len() - 1) =~= name);
    assert(rest_name(patterns.last()) == Some(name));
    if parts.len() >= n && forall|i: int|
        0 <= i < n && !braced(#[trigger] patterns[i]) ==> parts[i] == patterns[i] {
        assert forall|i: int| 0 <= i < n implies takes(#[trigger] fixed[i], parts.take(n)[i]) by {
            assert(fixed[i] == patterns[i]);
            if braced(patterns[i]) {
                assert(capture_name(patterns[i]) is Some);
            }
        }
    }
    if parts.len() >= n && takes_all(fixed, parts.take(n)) {
        assert forall|i: int| 0 <= i < n && !braced(#[trigger] patterns[i]) implies parts[i]
            == patterns[i] by {
            assert(takes(fixed[i], parts.take(n)[i]));
        }
    }
}

/// Whether a route declares a name for the query.
pub open spec fn declares(route: RouteDef, name: Seq<char>) -> bool {
    exists|k: int|
        0 <= k < route.params@.len() && (#[trigger] route.params@[k]).name@ == name
            && route.params@[k].source == ParamSource::Query
}

/// Whether a parameter is asked for and not there: it is of the query, which
/// has not got its name, it has no default and is no list.
pub open spec fn owed(p: ParamDef, query: Map<Seq<char>, Seq<Seq<char>>>) -> bool {
    match (p.source, p.default, p.ty) {
        (ParamSource::Query, None, ParamType::StringArray) => false,
        (ParamSource::Query, None, _) => !query.contains_key(p.name@),
        _ => false,
    }
}

proof fn lemma_query_names(params: Seq<ParamDef>, name: Seq<char>)
    ensures
        query_names(params).contains(name) <==> exists|k: int|
            0 <= k < params.len() && (#[trigger] params[k]).name@ == name && params[k].source
                == ParamSource::Query,
    decreases params.len(),
{
    let all = query_names(params);
    if params.len() > 0 {
        let front = params.drop_last();
        let before = query_names(front);
        lemma_query_names(front, name);
        assert(params[params.len() - 1] == params.last());
        if before.contains(name) {
            assert(all[before.index_of(name)] == name);
            let k = choose|k: int|
                0 <= k < front.len() && (#[trigger] front[k]).name@ == name && front[k].source
                    == ParamSource::Query;
            assert(params[k] == front[k]);
        }
        if params.last().source == ParamSource::Query && params.last().name@ == name {
            assert(all[all.len() - 1] == name);
        }
        if all.contains(name) && !before.contains(name) {
            let at = all.index_of(name);
            if at < before.len() {
                assert(before[at] == name);
            }
        }
        if exists|k: int|
            0 <= k < params.len() && (#[trigger] params[k]).name@ == name && params[k].source
                == ParamSource::Query {
            let k = choose|k: int|
                0 <= k < params.len() && (#[trigger] params[k]).name@ == name && params[k].source
                    == ParamSource::Query;
            if k < front.len() {
                assert(front[k] == params[k]);
            }
        }
    }
}

proof fn lemma_first_missing(params: Seq<ParamDef>, query: Map<Seq<char>, Seq<Seq<char>>>)
    ensures
        match first_missing(params, query) {
            Some(name) => exists|k: int|
                0 <= k < params.len() && owed(#[trigger] params[k], query) && params[k].name@ == name
                    && forall|j: int| 0 <= j < k ==> !owed(#[trigger] params[j], query),
            None => forall|k: int| 0 <= k < params.len() ==> !owed(#[trigger] params[k], query),
        },
    decreases params.len(),
{
    if params.len() > 0 {
        let front = params.drop_last();
        lemma_first_missing(front, query);
        match first_missing(front, query) {
            Some(name) => {
                let k = choose|k: int|
                    0 <= k < front.len() && owed(#[trigger] front[k], query) && front[k].name@ == name
                        && forall|j: int| 0 <= j < k ==> !owed(#[trigger] front[j], query);
                assert(params[k] == front[k]);
                assert forall|j: int| 0 <= j < k implies !owed(#[trigger] params[j], query) by {
                    assert(front[j] == params[j]);
                }
            },
            None => {
                let k = params.len() - 1;
                assert forall|j: int| 0 <= j < k implies !owed(#[trigger] params[j], query) by {
                    assert(front[j] == params[j]);
                }
                assert(owed(params[k], query) == is_missing(params.last(), query));
            },
        }
    }
}

/// What a handler is given: the captures of the first route whose pattern
/// matches and that takes the verb, every value of the query under the names
/// that the route declares and nothing else of it, and the body as it came.
pub proof fn law_what_a_handler_is_given(
    routes: Seq<RouteDef>,
    action: Seq<char>,
    params: ParamsView,
    mode: ControllerMode,
    i: int,
    v: ExtractedView,
)
    requires
        resolved(routes, action, params, mode) == Ok::<(int, ExtractedView), ErrorView>((i, v)),
    ensures
        0 <= i < routes.len(),
        routes[i].verb@.contains(params.verb),
        matched(routes[i].pattern@, action) == Some(v.path),
        forall|j: int|
            0 <= j < i ==> matched((#[trigger] routes[j]).pattern@, action) is None
                || !routes[j].verb@.contains(params.verb),
        forall|name: Seq<char>| #[trigger]
            v.query.contains_key(name) <==> params.query.contains_key(name) && declares(
                routes[i],
                name,
            ),
        forall|name: Seq<char>| #[trigger]
            v.query.contains_key(name) ==> v.query[name] == params.query[name],
        forall|k: int|
            0 <= k < routes[i].params@.len() ==> !owed(
                #[trigger] routes[i].params@[k],
                params.query,
            ),
        v.body == params.body,
        v.raw_body == params.raw_body,
{
    law_declaration_order(routes, action, params.verb);
    lemma_first_missing(routes[i].params@, params.query);
    assert forall|j: int| 0 <= j < i implies matched((#[trigger] routes[j]).pattern@, action) is None
        || !routes[j].verb@.contains(params.verb) by {
        assert(!fits(routes[j], action, params.verb));
    }
    assert forall|name: Seq<char>| #[trigger] v.query.contains_key(name) <==> params.query.contains_key(
        name,
    ) && declares(routes[i], name) by {
        lemma_query_names(routes[i].params@, name);
    }
}

/// A request is refused by the route that it is for exactly where a parameter
/// of the query is owed, which is then named, the first one in the order of
/// the declaration, or else, in strict mode, where the query has names that
/// the route does not declare, which are then named in their order.
pub proof fn law_what_a_route_refuses(
    route: RouteDef,
    action: Seq<char>,
    params: ParamsView,
    mode: ControllerMode,
)
    ensures
        ({
            let owes = exists|k: int|
                0 <= k < route.params@.len() && owed(#[trigger] route.params@[k], params.query);
            let strange = params.query_names.filter(|n: Seq<char>| !declares(route, n));
            let r = extracted(route, action, params, mode);
            &&& r is Err <==> owes || (mode == ControllerMode::Strict && strange.len() > 0)
            &&& owes ==> exists|k: int|
                0 <= k < route.params@.len() && owed(#[trigger] route.params@[k], params.query) && r
                    == Err::<ExtractedView, ErrorView>(
                    ErrorView::BadRequest(
                        "Missing required parameter: "@ + route.params@[k].name@,
                    ),
                ) && forall|j: int|
                    0 <= j < k ==> !owed(#[trigger] route.params@[j], params.query)
            &&& !owes && mode == ControllerMode::Strict && strange.len() > 0 ==> r == Err::<
                ExtractedView,
                ErrorView,
            >(ErrorView::BadRequest("Unexpected parameters: "@ + join(strange, seq![',', ' '])))
        }),
{
    let names = query_names(route.params@);
    let known = |n: Seq<char>| !names.contains(n);
    let strange = |n: Seq<char>| !declares(route, n);
    lemma_first_missing(route.params@, params.query);
    crate::params::law_unexpected_names_are_found(params.query_names, names);
    assert forall|n: Seq<char>| #[trigger] known(n) == strange(n) by {
        lemma_query_names(route.params@, n);
    }
    lemma_same_filter(params.query_names, known, strange);
    assert(unexpected_names(params.query_names, names) == params.query_names.filter(known));
    reveal_strlit(", ");
    assert(", "@ =~= seq![',', ' ']);
}

proof fn lemma_same_filter(
    s: Seq<Seq<char>>,
    f: spec_fn(Seq<char>) -> bool,
    g: spec_fn(Seq<char>) -> bool,
)
    requires
        forall|n: Seq<char>| #[trigger] f(n) == g(n),
    ensures
        s.filter(f) == s.filter(g),
    decreases s.len(),
{
    reveal(Seq::filter);
    if s.len() > 0 {
        lemma_same_filter(s.drop_last(), f, g);
    }
}

/// A request that no route takes is answered `404` where no pattern of a route
/// with a verb matches, and else `405` with the verbs of the routes whose
/// pattern matches.
pub proof fn law_requests_that_no_route_takes(
    routes: Seq<RouteDef>,
    action: Seq<char>,
    params: ParamsView,
    mode: ControllerMode,
)
    requires
        forall|i: int|
            0 <= i < routes.len() ==> matched((#[trigger] routes[i]).pattern@, action) is None
                || !routes[i].verb@.contains(params.verb),
    ensures
        ({
            let r = resolved(routes, action, params, mode);
            ||| r == Err::<(int, ExtractedView), ErrorView>(ErrorView::NotFound) && forall|
                i: int,
                v: Verb,
            |
                0 <= i < routes.len() && #[trigger] routes[i].verb@.contains(v) ==> matched(
                    routes[i].pattern@,
                    action,
                ) is None
            ||| r matches Err(ErrorView::MethodNotAllowed(list)) && list.len() > 0 && forall|v: Verb|
                list.contains(#[trigger] verb_token(v)) <==> exists|i: int|
                    0 <= i < routes.len() && (#[trigger] routes[i]).verb@.contains(v) && matched(
                        routes[i].pattern@,
                        action,
                    ) is Some
        }),
{
    law_declaration_order(routes, action, params.verb);
    law_allow_list(routes, action);
    if let Some(i) = first_fit(routes, action, params.verb) {
        assert(matched(routes[i].pattern@, action) is Some);
        assert(false);
    }
    let list = allow_list(routes, action);
    assert forall|v: Verb| list.contains(#[trigger] verb_token(v)) <==> exists|i: int|
        0 <= i < routes.len() && (#[trigger] routes[i]).verb@.contains(v) && matched(
            routes[i].pattern@,
            action,
        ) is Some by {
        if verb_offered(routes, action, v) {
            let i = choose|i: int| 0 <= i < routes.len() && #[trigger] fits(routes[i], action, v);
            assert(routes[i].verb@.contains(v));
        }
        if exists|i: int|
            0 <= i < routes.len() && (#[trigger] routes[i]).verb@.contains(v) && matched(
                routes[i].pattern@,
                action,
            ) is Some {
            let i = choose|i: int|
                0 <= i < routes.len() && (#[trigger] routes[i]).verb@.contains(v) && matched(
                    routes[i].pattern@,
                    action,
                ) is Some;
            assert(fits(routes[i], action, v));
        }
    }
    if list.len() == 0 {
        assert forall|i: int, v: Verb|
            0 <= i < routes.len() && #[trigger] routes[i].verb@.contains(v) implies matched(
            routes[i].pattern@,
            action,
        ) is None by {
            assert(!verb_offered(routes, action, v));
            assert(!fits(routes[i], action, v));
        }
    }
}

} // verus!
