//! Calling XRPC methods from scripts.
use vstd::prelude::*;

use crate::auth::Claims;
use crate::error::{AppError, ErrorView};
use crate::json::{Json, JsonView};
use crate::text;
use crate::url;

verus! {

/// The parameters that a script passes: the members of an object, and none of
/// anything else.
pub fn params_of(value: Option<Json>) -> (params: Vec<(String, Json)>)
    ensures
        crate::json::member_views(params@) == (match value {
            Some(v) => match v@ {
                JsonView::Object(members) => members,
                _ => Seq::empty(),
            },
            None => Seq::empty(),
        }),
{
    match value {
        Some(v) => {
            proof {
                crate::json::lemma_json_views(v);
            }
            match v {
                Json::Object(members) => members,
                _ => {
                    let none: Vec<(String, Json)> = Vec::new();
                    assert(crate::json::member_views(none@) =~= Seq::empty());
                    none
                },
            }
        },
        None => {
            let none: Vec<(String, Json)> = Vec::new();
            assert(crate::json::member_views(none@) =~= Seq::empty());
            none
        },
    }
}

/// The text of a parameter's value: a text is itself, anything else its JSON.
pub open spec fn is_value_text(value: JsonView, out: Seq<char>) -> bool {
    match value {
        JsonView::Text(t) => out == t,
        _ => vstd::utf8::encode_utf8(out) == crate::json::json_rendered(
            crate::json::json_normal(value),
        ),
    }
}

fn value_text(value: &Json) -> (out: String)
    ensures
        is_value_text(value@, out@),
{
    match value {
        Json::Text(t) => t.clone(),
        _ => value.to_text(),
    }
}

/// Whether texts are the values of parameters.
pub open spec fn are_value_texts(params: Seq<(Seq<char>, JsonView)>, values: Seq<Seq<char>>) -> bool {
    values.len() == params.len() && forall|i: int|
        0 <= i < params.len() ==> is_value_text(params[i].1, #[trigger] values[i])
}

/// A query string of parameters, in order, given the texts of their values.
pub open spec fn query_string_of(params: Seq<(Seq<char>, JsonView)>, values: Seq<Seq<char>>) -> Seq<char>
    decreases params.len(),
{
    if params.len() == 0 {
        Seq::empty()
    } else {
        let pair = url::encoded(params.last().0) + "="@ + url::encoded(values[params.len() - 1]);
        if params.len() == 1 {
            pair
        } else {
            query_string_of(params.drop_last(), values) + "&"@ + pair
        }
    }
}

/// The query string of parameters, in the order they are given in.
pub fn params_to_query_string(params: &Vec<(String, Json)>) -> (query: String)
    ensures
        exists|values: Seq<Seq<char>>|
            #![trigger are_value_texts(crate::json::member_views(params@), values)]
            are_value_texts(crate::json::member_views(params@), values) && query@ == query_string_of(
                crate::json::member_views(params@),
                values,
            ),
{
    let ghost views = crate::json::member_views(params@);
    let mut query = String::new();
    let ghost mut values: Seq<Seq<char>> = Seq::empty();
    assert(query@ =~= Seq::empty());
    for i in 0..params.len()
        invariant
            views == crate::json::member_views(params@),
            values.len() == i,
            forall|j: int| 0 <= j < i ==> is_value_text(views[j].1, #[trigger] values[j]),
            query@ == query_string_of(views.take(i as int), values),
    {
        let ghost before = values;
        let value = value_text(&params[i].1);
        let key = url::encode(params[i].0.as_str());
        let encoded = url::encode(value.as_str());
        if i > 0 {
            query.append("&");
        }
        query.append(key.as_str());
        query.append("=");
        query.append(encoded.as_str());
        proof {
            values = values.push(value@);
            assert(views.take(i + 1).drop_last() =~= views.take(i as int));
            assert(views.take(i + 1).last() == views[i as int]);
            lemma_query_values(views.take(i as int), before, values);
            let pair = url::encoded(views[i as int].0) + "="@ + url::encoded(value@);
            if i == 0 {
                assert(query@ =~= pair);
            } else {
                assert(query@ =~= query_string_of(views.take(i as int), before) + "&"@ + pair);
            }
        }
    }
    proof {
        assert(views.take(views.len() as int) =~= views);
        assert(are_value_texts(views, values));
    }
    query
}

proof fn lemma_query_values(
    params: Seq<(Seq<char>, JsonView)>,
    values: Seq<Seq<char>>,
    longer: Seq<Seq<char>>,
)
    requires
        values.len() >= params.len(),
        longer.len() >= values.len(),
        forall|i: int| 0 <= i < values.len() ==> #[trigger] longer[i] == values[i],
    ensures
        query_string_of(params, longer) == query_string_of(params, values),
    decreases params.len(),
{
    if params.len() > 0 {
        assert(longer[params.len() - 1] == values[params.len() - 1]);
        lemma_query_values(params.drop_last(), values, longer);
    }
}

/// What kind of method a lexicon describes.
#[derive(Debug, Clone, Copy, PartialEq, Eq, Structural)]
pub enum LexiconType {
    Query,
    Procedure,
    Other,
}

/// Where a call goes.
#[derive(Debug, Clone, Copy, PartialEq, Eq, Structural)]
pub enum CallTarget {
    /// To this service, which knows the method.
    Local,
    /// To the method's authority.
    Proxy,
}

/// Decides where a query goes.
pub fn route_query(method: &str, lexicon: Option<LexiconType>) -> (target: Result<CallTarget, AppError>)
    ensures
        match target {
            Ok(CallTarget::Proxy) => lexicon is None,
            Ok(CallTarget::Local) => lexicon == Some(LexiconType::Query),
            Err(error) => lexicon is Some && lexicon != Some(LexiconType::Query) && error@
                == ErrorView::BadRequest(method@ + " is not a query endpoint"@),
        },
{
    match lexicon {
        None => Ok(CallTarget::Proxy),
        Some(kind) => if kind == LexiconType::Query {
            Ok(CallTarget::Local)
        } else {
            Err(AppError::BadRequest(text::cat2(method, " is not a query endpoint")))
        },
    }
}

/// Decides where a procedure goes.
pub fn route_procedure(method: &str, lexicon: Option<LexiconType>) -> (target: Result<
    CallTarget,
    AppError,
>)
    ensures
        match target {
            Ok(CallTarget::Proxy) => lexicon is None,
            Ok(CallTarget::Local) => lexicon == Some(LexiconType::Procedure),
            Err(error) => lexicon is Some && lexicon != Some(LexiconType::Procedure) && error@
                == ErrorView::BadRequest(method@ + " is not a procedure endpoint"@),
        },
{
    match lexicon {
        None => Ok(CallTarget::Proxy),
        Some(kind) => if kind == LexiconType::Procedure {
            Ok(CallTarget::Local)
        } else {
            Err(AppError::BadRequest(text::cat2(method, " is not a procedure endpoint")))
        },
    }
}

/// Who a script's call is made for: a procedure needs someone.
pub fn procedure_claims(caller_did: Option<String>) -> (claims: Result<Claims, String>)
    ensures
        match claims {
            Ok(c) => caller_did == Some(c.did) && c.client_key is None && c.dpop_key_id is None,
            Err(message) => caller_did is None && message@
                == "xrpc.procedure requires authentication (no caller_did)"@,
        },
{
    match caller_did {
        Some(did) => Ok(Claims::internal(did)),
        None => Err("xrpc.procedure requires authentication (no caller_did)".to_owned()),
    }
}

/// A query is its parameters in order, each as its name and its value with `=`
/// between them, and `&` between one and the next.
pub proof fn law_queries_list_the_parameters(
    params: Seq<(Seq<char>, JsonView)>,
    values: Seq<Seq<char>>,
    name: Seq<char>,
    value: JsonView,
    text: Seq<char>,
)
    requires
        params.len() == values.len(),
    ensures
        query_string_of(Seq::empty(), Seq::empty()).len() == 0,
        query_string_of(seq![(name, value)], seq![text]) == url::encoded(name) + "="@ + url::encoded(text),
        params.len() > 0 ==> query_string_of(params.push((name, value)), values.push(text)) == query_string_of(
            params,
            values,
        ) + "&"@ + (url::encoded(name) + "="@ + url::encoded(text)),
{
    assert(params.push((name, value)).drop_last() =~= params);
    lemma_query_values(params, values, values.push(text));
}

/// A text is passed as it stands, and any other value as its JSON text.
pub proof fn law_values_are_passed_as_their_text(value: JsonView, t: Seq<char>, out: Seq<char>)
    ensures
        is_value_text(JsonView::Text(t), out) <==> out == t,
        !(value is Text) ==> (is_value_text(value, out) <==> vstd::utf8::encode_utf8(out)
            == crate::json::json_rendered(crate::json::json_normal(value))),
{
}

} // verus!
