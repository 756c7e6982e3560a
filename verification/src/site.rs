//! The catalogue as a site: the table of its routes, and the answer that the
//! site gives to a request.

use crate::catalogue::{
    body_data_form, body_data_lenient_form, cookie_changes, cookie_edits, cookie_message,
    dynamic_paths, index, methods, multiple_segments, not_found, option_param, optional_text,
    path_from, plain, query_string_hello, query_string_multiple_segments, query_string_option,
    rank_2, rank_default, request_cookies, request_guards_custom_api_key1,
    request_guards_custom_api_key2, response_content_json, response_status_accepted,
    result_param_text, std_from_param, std_from_param_text, task_answer, try_rank_3,
    try_result_param, typed_uris, user_fields, user_of, user_schema, user_text, ApiKey, Content,
    JarEdit, JarEditView, Response, ResponseView, User,
};
use crate::decode::{percent_encoded, url_decoded};
use crate::dispatch::{
    dispatch, dispatched, Invocation, InvocationView, Outcome, OutcomeView, NOT_FOUND,
};
use crate::form::Policy;
use crate::guard::{seek, sought, Absent, Guard, GuardView};
use crate::matcher::{QueryParamView, QuerySpec, QuerySpecView};
use crate::pattern::{PathPattern, PatternBuilder, SegmentView};
use crate::request::{Method, RequestContext, RequestView};
use crate::table::{rank_of, CandidateView, Route, RouteTable, RouteView};
use crate::text::{decimal_text, signed_text};
use crate::value::{BaseType, Mode, ParamType, Value, ValueView};
use vstd::prelude::*;
use vstd::string::*;

verus! {

pub const INDEX: u32 = 0;

pub const METHODS: u32 = 1;

pub const DYNAMIC_PATHS: u32 = 2;

pub const STD_FROM_PARAM: u32 = 3;

pub const MULTIPLE_SEGMENTS: u32 = 4;

pub const RANK_DEFAULT: u32 = 5;

pub const RANK_2: u32 = 6;

pub const RANK_3: u32 = 7;

pub const OPTION_PARAM: u32 = 8;

pub const RESULT_PARAM: u32 = 9;

pub const QUERY_STRING_HELLO: u32 = 10;

pub const QUERY_STRING_OPTION: u32 = 11;

pub const QUERY_STRING_MULTIPLE_SEGMENTS: u32 = 12;

pub const API_KEY_1: u32 = 13;

pub const API_KEY_2: u32 = 14;

pub const COOKIES: u32 = 15;

pub const BODY_DATA_FORM: u32 = 16;

pub const BODY_DATA_LENIENT_FORM: u32 = 17;

pub const STATUS_ACCEPTED: u32 = 18;

pub const CONTENT_JSON: u32 = 19;

pub const TYPED_URIS: u32 = 20;

/// A literal segment.
pub open spec fn lit(text: Seq<char>) -> SegmentView {
    SegmentView::Static(text)
}

/// A parameter that captures one path segment.
pub open spec fn par(name: Seq<char>, base: BaseType, mode: Mode) -> SegmentView {
    SegmentView::Dynamic(name, ParamType { base, mode })
}

/// The declared routes once one more was registered: it is given the next
/// place in the order of declaration.
pub open spec fn added(declared: Seq<CandidateView>, route: RouteView) -> Seq<CandidateView> {
    declared.push(CandidateView { route, rank: rank_of(route), order: declared.len() as usize })
}

pub open spec fn no_query() -> QuerySpecView {
    QuerySpecView { params: Seq::empty(), bundle: None }
}

pub open spec fn hello_query() -> QuerySpecView {
    QuerySpecView {
        params: seq![
            QueryParamView::Flag("wave"@),
            QueryParamView::Typed("name"@, BaseType::Text, true),
        ],
        bundle: None,
    }
}

pub open spec fn option_query() -> QuerySpecView {
    QuerySpecView {
        params: seq![
            QueryParamView::Typed("wave"@, BaseType::Text, false),
            QueryParamView::Typed("name"@, BaseType::Text, true),
        ],
        bundle: None,
    }
}

pub open spec fn user_query() -> QuerySpecView {
    QuerySpecView {
        params: seq![QueryParamView::Typed("id"@, BaseType::U64, true)],
        bundle: Some(user_schema()),
    }
}

/// The number of the site's routes.
pub const ROUTES: usize = 21;

/// The routes of the site, in the order of their declaration: of each its
/// method, the segments of its pattern, its query parameters, the rank that
/// it declares, its guards and its handler.
pub open spec fn site_routes() -> Seq<CandidateView> {
    let none = Seq::<GuardView>::empty();
    let key = seq![GuardView::Header("Authorization"@, Absent::Forward)];
    let r = Seq::<CandidateView>::empty();
    let r = added(
        r,
        RouteView {
            method: Method::Get,
            pattern: Seq::<SegmentView>::empty(),
            query: no_query(),
            rank: None,
            guards: none,
            handler: INDEX,
        },
    );
    let r = added(
        r,
        RouteView {
            method: Method::Put,
            pattern: Seq::<SegmentView>::empty().push(lit("requests"@)).push(lit("methods"@)),
            query: no_query(),
            rank: None,
            guards: none,
            handler: METHODS,
        },
    );
    let r = added(
        r,
        RouteView {
            method: Method::Get,
            pattern: Seq::<SegmentView>::empty()
                .push(lit("requests"@))
                .push(lit("dynamic-paths"@))
                .push(par("name"@, BaseType::Text, Mode::Strict)),
            query: no_query(),
            rank: None,
            guards: none,
            handler: DYNAMIC_PATHS,
        },
    );
    let r = added(
        r,
        RouteView {
            method: Method::Get,
            pattern: Seq::<SegmentView>::empty()
                .push(lit("requests"@))
                .push(lit("dynamic-paths"@))
                .push(lit("std-from-param"@))
                .push(par("name"@, BaseType::Text, Mode::Strict))
                .push(par("age"@, BaseType::U8, Mode::Strict))
                .push(par("cool"@, BaseType::Bool, Mode::Strict)),
            query: no_query(),
            rank: None,
            guards: none,
            handler: STD_FROM_PARAM,
        },
    );
    let r = added(
        r,
        RouteView {
            method: Method::Get,
            pattern: Seq::<SegmentView>::empty()
                .push(lit("requests"@))
                .push(lit("dynamic-paths"@))
                .push(lit("multiple-segments"@))
                .push(SegmentView::Multi("path"@)),
            query: no_query(),
            rank: None,
            guards: none,
            handler: MULTIPLE_SEGMENTS,
        },
    );
    let r = added(
        r,
        RouteView {
            method: Method::Get,
            pattern: Seq::<SegmentView>::empty()
                .push(lit("requests"@))
                .push(lit("forwarding"@))
                .push(lit("rank"@))
                .push(par("id"@, BaseType::U64, Mode::Strict)),
            query: no_query(),
            rank: None,
            guards: none,
            handler: RANK_DEFAULT,
        },
    );
    let r = added(
        r,
        RouteView {
            method: Method::Get,
            pattern: Seq::<SegmentView>::empty()
                .push(lit("requests"@))
                .push(lit("forwarding"@))
                .push(lit("rank"@))
                .push(par("id"@, BaseType::I64, Mode::Strict)),
            query: no_query(),
            rank: Some(2),
            guards: none,
            handler: RANK_2,
        },
    );
    let r = added(
        r,
        RouteView {
            method: Method::Get,
            pattern: Seq::<SegmentView>::empty()
                .push(lit("requests"@))
                .push(lit("forwarding"@))
                .push(lit("rank"@))
                .push(par("id"@, BaseType::Raw, Mode::Strict)),
            query: no_query(),
            rank: Some(3),
            guards: none,
            handler: RANK_3,
        },
    );
    let r = added(
        r,
        RouteView {
            method: Method::Get,
            pattern: Seq::<SegmentView>::empty()
                .push(lit("requests"@))
                .push(lit("forwarding"@))
                .push(lit("option"@))
                .push(par("id"@, BaseType::I32, Mode::Optional)),
            query: no_query(),
            rank: None,
            guards: none,
            handler: OPTION_PARAM,
        },
    );
    let r = added(
        r,
        RouteView {
            method: Method::Get,
            pattern: Seq::<SegmentView>::empty()
                .push(lit("requests"@))
                .push(lit("forwarding"@))
                .push(lit("result"@))
                .push(par("id"@, BaseType::I32, Mode::Fallible)),
            query: no_query(),
            rank: None,
            guards: none,
            handler: RESULT_PARAM,
        },
    );
    let r = added(
        r,
        RouteView {
            method: Method::Get,
            pattern: Seq::<SegmentView>::empty()
                .push(lit("requests"@))
                .push(lit("query-string"@))
                .push(lit("hello"@)),
            query: hello_query(),
            rank: None,
            guards: none,
            handler: QUERY_STRING_HELLO,
        },
    );
    let r = added(
        r,
        RouteView {
            method: Method::Get,
            pattern: Seq::<SegmentView>::empty()
                .push(lit("requests"@))
                .push(lit("query-string"@))
                .push(lit("option"@)),
            query: option_query(),
            rank: None,
            guards: none,
            handler: QUERY_STRING_OPTION,
        },
    );
    let r = added(
        r,
        RouteView {
            method: Method::Get,
            pattern: Seq::<SegmentView>::empty()
                .push(lit("requests"@))
                .push(lit("query-string"@))
                .push(lit("multiple-segments"@)),
            query: user_query(),
            rank: None,
            guards: none,
            handler: QUERY_STRING_MULTIPLE_SEGMENTS,
        },
    );
    let r = added(
        r,
        RouteView {
            method: Method::Get,
            pattern: Seq::<SegmentView>::empty()
                .push(lit("requests"@))
                .push(lit("request-guards"@))
                .push(lit("custom"@))
                .push(lit("api-key"@)),
            query: no_query(),
            rank: None,
            guards: key,
            handler: API_KEY_1,
        },
    );
    let r = added(
        r,
        RouteView {
            method: Method::Get,
            pattern: Seq::<SegmentView>::empty()
                .push(lit("requests"@))
                .push(lit("request-guards"@))
                .push(lit("custom"@))
                .push(lit("api-key"@)),
            query: no_query(),
            rank: Some(1),
            guards: none,
            handler: API_KEY_2,
        },
    );
    let r = added(
        r,
        RouteView {
            method: Method::Get,
            pattern: Seq::<SegmentView>::empty().push(lit("requests"@)).push(lit("cookies"@)),
            query: no_query(),
            rank: None,
            guards: none,
            handler: COOKIES,
        },
    );
    let r = added(
        r,
        RouteView {
            method: Method::Post,
            pattern: Seq::<SegmentView>::empty()
                .push(lit("requests"@))
                .push(lit("body-data"@))
                .push(lit("form"@)),
            query: no_query(),
            rank: None,
            guards: none,
            handler: BODY_DATA_FORM,
        },
    );
    let r = added(
        r,
        RouteView {
            method: Method::Post,
            pattern: Seq::<SegmentView>::empty()
                .push(lit("requests"@))
                .push(lit("body-data"@))
                .push(lit("lenient-form"@)),
            query: no_query(),
            rank: None,
            guards: none,
            handler: BODY_DATA_LENIENT_FORM,
        },
    );
    let r = added(
        r,
        RouteView {
            method: Method::Get,
            pattern: Seq::<SegmentView>::empty()
                .push(lit("responses"@))
                .push(lit("status"@))
                .push(lit("accepted"@)),
            query: no_query(),
            rank: None,
            guards: none,
            handler: STATUS_ACCEPTED,
        },
    );
    let r = added(
        r,
        RouteView {
            method: Method::Get,
            pattern: Seq::<SegmentView>::empty()
                .push(lit("responses"@))
                .push(lit("content"@))
                .push(lit("json"@)),
            query: no_query(),
            rank: None,
            guards: none,
            handler: CONTENT_JSON,
        },
    );
    let r = added(
        r,
        RouteView {
            method: Method::Get,
            pattern: Seq::<SegmentView>::empty().push(lit("typed-uris"@)),
            query: no_query(),
            rank: None,
            guards: none,
            handler: TYPED_URIS,
        },
    );
    r
}

fn no_guards() -> (guards: Vec<Guard>)
    ensures
        guards.deep_view() == Seq::<GuardView>::empty(),
{
    let guards: Vec<Guard> = Vec::new();
    proof {
        assert(guards.deep_view() =~= Seq::<GuardView>::empty());
    }
    guards
}

fn declare(
    table: &mut RouteTable,
    method: Method,
    pattern: PathPattern,
    rank: Option<i64>,
    query: QuerySpec,
    guards: Vec<Guard>,
    handler: u32,
)
    requires
        old(table).wf(),
        old(table).declared().len() < usize::MAX,
    ensures
        final(table).wf(),
        final(table).declared() == added(
            old(table).declared(),
            RouteView {
                method,
                pattern: pattern@,
                query: query@,
                rank,
                guards: guards.deep_view(),
                handler,
            },
        ),
{
    table.register(Route { method, pattern, query, rank, guards, handler });
}

/// The table of the site's routes: every route of the site is registered in
/// it, in the order of their declaration.
pub fn routes() -> (table: RouteTable)
    ensures
        table.wf(),
        table.declared() == site_routes(),
        table.declared().len() == ROUTES,
{
    let mut t = RouteTable::new();
    let pattern = PatternBuilder::new().end();
    declare(&mut t, Method::Get, pattern, None, QuerySpec::none(), no_guards(), INDEX);
    let pattern = PatternBuilder::new().literal("requests").literal("methods").end();
    declare(&mut t, Method::Put, pattern, None, QuerySpec::none(), no_guards(), METHODS);
    let pattern = PatternBuilder::new()
        .literal("requests")
        .literal("dynamic-paths")
        .param("name", ParamType { base: BaseType::Text, mode: Mode::Strict })
        .end();
    declare(&mut t, Method::Get, pattern, None, QuerySpec::none(), no_guards(), DYNAMIC_PATHS);
    let pattern = PatternBuilder::new()
        .literal("requests")
        .literal("dynamic-paths")
        .literal("std-from-param")
        .param("name", ParamType { base: BaseType::Text, mode: Mode::Strict })
        .param("age", ParamType { base: BaseType::U8, mode: Mode::Strict })
        .param("cool", ParamType { base: BaseType::Bool, mode: Mode::Strict })
        .end();
    declare(&mut t, Method::Get, pattern, None, QuerySpec::none(), no_guards(), STD_FROM_PARAM);
    let pattern = PatternBuilder::new()
        .literal("requests")
        .literal("dynamic-paths")
        .literal("multiple-segments")
        .rest("path");
    declare(&mut t, Method::Get, pattern, None, QuerySpec::none(), no_guards(), MULTIPLE_SEGMENTS);
    let pattern = PatternBuilder::new()
        .literal("requests")
        .literal("forwarding")
        .literal("rank")
        .param("id", ParamType { base: BaseType::U64, mode: Mode::Strict })
        .end();
    declare(&mut t, Method::Get, pattern, None, QuerySpec::none(), no_guards(), RANK_DEFAULT);
    let pattern = PatternBuilder::new()
        .literal("requests")
        .literal("forwarding")
        .literal("rank")
        .param("id", ParamType { base: BaseType::I64, mode: Mode::Strict })
        .end();
    declare(&mut t, Method::Get, pattern, Some(2), QuerySpec::none(), no_guards(), RANK_2);
    let pattern = PatternBuilder::new()
        .literal("requests")
        .literal("forwarding")
        .literal("rank")
        .param("id", ParamType { base: BaseType::Raw, mode: Mode::Strict })
        .end();
    declare(&mut t, Method::Get, pattern, Some(3), QuerySpec::none(), no_guards(), RANK_3);
    let pattern = PatternBuilder::new()
        .literal("requests")
        .literal("forwarding")
        .literal("option")
        .param("id", ParamType { base: BaseType::I32, mode: Mode::Optional })
        .end();
    declare(&mut t, Method::Get, pattern, None, QuerySpec::none(), no_guards(), OPTION_PARAM);
    let pattern = PatternBuilder::new()
        .literal("requests")
        .literal("forwarding")
        .literal("result")
        .param("id", ParamType { base: BaseType::I32, mode: Mode::Fallible })
        .end();
    declare(&mut t, Method::Get, pattern, None, QuerySpec::none(), no_guards(), RESULT_PARAM);
    let hello = QuerySpec::none().flag("wave").typed("name", BaseType::Text, true);
    proof {
        assert(hello@.params =~= hello_query().params);
    }
    let pattern = PatternBuilder::new()
        .literal("requests")
        .literal("query-string")
        .literal("hello")
        .end();
    declare(&mut t, Method::Get, pattern, None, hello, no_guards(), QUERY_STRING_HELLO);
    let option = QuerySpec::none().typed("wave", BaseType::Text, false).typed(
        "name",
        BaseType::Text,
        true,
    );
    proof {
        assert(option@.params =~= option_query().params);
    }
    let pattern = PatternBuilder::new()
        .literal("requests")
        .literal("query-string")
        .literal("option")
        .end();
    declare(&mut t, Method::Get, pattern, None, option, no_guards(), QUERY_STRING_OPTION);
    let user = QuerySpec::none().typed("id", BaseType::U64, true).bundle(user_fields());
    proof {
        assert(user@.params =~= user_query().params);
    }
    let pattern = PatternBuilder::new()
        .literal("requests")
        .literal("query-string")
        .literal("multiple-segments")
        .end();
    declare(&mut t, Method::Get, pattern, None, user, no_guards(), QUERY_STRING_MULTIPLE_SEGMENTS);
    let mut key: Vec<Guard> = Vec::new();
    key.push(Guard::Header("Authorization".to_owned(), Absent::Forward));
    proof {
        assert(key.deep_view() =~= seq![GuardView::Header("Authorization"@, Absent::Forward)]);
    }
    let pattern = PatternBuilder::new()
        .literal("requests")
        .literal("request-guards")
        .literal("custom")
        .literal("api-key")
        .end();
    declare(&mut t, Method::Get, pattern, None, QuerySpec::none(), key, API_KEY_1);
    let pattern = PatternBuilder::new()
        .literal("requests")
        .literal("request-guards")
        .literal("custom")
        .literal("api-key")
        .end();
    declare(&mut t, Method::Get, pattern, Some(1), QuerySpec::none(), no_guards(), API_KEY_2);
    let pattern = PatternBuilder::new().literal("requests").literal("cookies").end();
    declare(&mut t, Method::Get, pattern, None, QuerySpec::none(), no_guards(), COOKIES);
    let pattern = PatternBuilder::new()
        .literal("requests")
        .literal("body-data")
        .literal("form")
        .end();
    declare(&mut t, Method::Post, pattern, None, QuerySpec::none(), no_guards(), BODY_DATA_FORM);
    let pattern = PatternBuilder::new()
        .literal("requests")
        .literal("body-data")
        .literal("lenient-form")
        .end();
    declare(
        &mut t,
        Method::Post,
        pattern,
        None,
        QuerySpec::none(),
        no_guards(),
        BODY_DATA_LENIENT_FORM,
    );
    let pattern = PatternBuilder::new()
        .literal("responses")
        .literal("status")
        .literal("accepted")
        .end();
    declare(&mut t, Method::Get, pattern, None, QuerySpec::none(), no_guards(), STATUS_ACCEPTED);
    let pattern = PatternBuilder::new()
        .literal("responses")
        .literal("content")
        .literal("json")
        .end();
    declare(&mut t, Method::Get, pattern, None, QuerySpec::none(), no_guards(), CONTENT_JSON);
    let pattern = PatternBuilder::new().literal("typed-uris").end();
    declare(&mut t, Method::Get, pattern, None, QuerySpec::none(), no_guards(), TYPED_URIS);
    t
}

/// The answer of a handler that succeeds, in plain text.
pub open spec fn fine(body: Seq<char>) -> ResponseView {
    plain(200, body)
}

/// The answer where a handler is handed values that are not of the kinds
/// that it takes.
pub open spec fn fault() -> ResponseView {
    plain(500, Seq::empty())
}

pub open spec fn value_at(values: Seq<ValueView>, i: int) -> Option<ValueView> {
    if 0 <= i < values.len() {
        Some(values[i])
    } else {
        None
    }
}

/// The answer of the handler that an invocation names to the values that
/// the invocation holds.
pub open spec fn answer_of(inv: InvocationView, ctx: RequestView) -> ResponseView {
    let v0 = value_at(inv.values.path, 0);
    let v1 = value_at(inv.values.path, 1);
    let v2 = value_at(inv.values.path, 2);
    let q0 = value_at(inv.values.query, 0);
    let q1 = value_at(inv.values.query, 1);
    let g0 = value_at(inv.guards, 0);
    if inv.handler == INDEX {
        fine("Hello, world!"@)
    } else if inv.handler == METHODS {
        fine("put"@)
    } else if inv.handler == DYNAMIC_PATHS {
        match v0 {
            Some(ValueView::Text(name)) => fine("Hello, "@ + name + "!"@),
            _ => fault(),
        }
    } else if inv.handler == STD_FROM_PARAM {
        match (v0, v1, v2) {
            (
                Some(ValueView::Text(name)),
                Some(ValueView::UInt(age)),
                Some(ValueView::Bool(cool)),
            ) => if age <= 0xff {
                fine(std_from_param_text(name, age as u8, cool))
            } else {
                fault()
            },
            _ => fault(),
        }
    } else if inv.handler == MULTIPLE_SEGMENTS {
        match v0 {
            Some(ValueView::Text(path)) => fine(path),
            _ => fault(),
        }
    } else if inv.handler == RANK_DEFAULT {
        match v0 {
            Some(ValueView::UInt(id)) => if id <= usize::MAX {
                fine("[rank] id="@ + decimal_text(id as nat))
            } else {
                fault()
            },
            _ => fault(),
        }
    } else if inv.handler == RANK_2 {
        match v0 {
            Some(ValueView::Int(id)) => if isize::MIN <= id <= isize::MAX {
                fine("[rank_2] id="@ + signed_text(id as int))
            } else {
                fault()
            },
            _ => fault(),
        }
    } else if inv.handler == RANK_3 {
        match v0 {
            Some(ValueView::Text(raw)) => match url_decoded(raw) {
                Some(decoded) => fine("[rank_3] id="@ + decoded),
                None => fault(),
            },
            _ => fault(),
        }
    } else if inv.handler == OPTION_PARAM {
        match v0 {
            Some(ValueView::Int(id)) => if -0x8000_0000 <= id <= 0x7fff_ffff {
                fine("param match id="@ + signed_text(id as int))
            } else {
                fault()
            },
            Some(ValueView::Empty) => fine("param not match"@),
            _ => fault(),
        }
    } else if inv.handler == RESULT_PARAM {
        match v0 {
            Some(ValueView::Int(id)) => if -0x8000_0000 <= id <= 0x7fff_ffff {
                fine("param match id="@ + signed_text(id as int))
            } else {
                fault()
            },
            Some(ValueView::Rejected(raw)) => match url_decoded(raw) {
                Some(decoded) => fine("param not match id="@ + decoded),
                None => fault(),
            },
            _ => fault(),
        }
    } else if inv.handler == QUERY_STRING_HELLO {
        match q0 {
            Some(ValueView::Text(name)) => fine("Hello, "@ + name + "!"@),
            _ => fault(),
        }
    } else if inv.handler == QUERY_STRING_OPTION {
        match (q0, q1) {
            (Some(ValueView::Text(wave)), Some(ValueView::Text(name))) => fine(
                "Hello, wave="@ + optional_text(Some(wave)) + ", name="@ + name + "!"@,
            ),
            (Some(ValueView::Empty), Some(ValueView::Text(name))) => fine(
                "Hello, wave="@ + optional_text(None) + ", name="@ + name + "!"@,
            ),
            _ => fault(),
        }
    } else if inv.handler == QUERY_STRING_MULTIPLE_SEGMENTS {
        match (q0, inv.values.bundle) {
            (Some(ValueView::UInt(id)), Some(record)) => match user_of(record) {
                Some((name, account)) => if id <= usize::MAX {
                    fine(
                        "id="@ + decimal_text(id as nat) + ", user="@ + user_text(name, account),
                    )
                } else {
                    fault()
                },
                None => fault(),
            },
            _ => fault(),
        }
    } else if inv.handler == API_KEY_1 {
        match g0 {
            Some(ValueView::Text(key)) => fine("api-key="@ + key),
            _ => fault(),
        }
    } else if inv.handler == API_KEY_2 {
        fine("No Authorization"@)
    } else if inv.handler == COOKIES {
        fine(cookie_message(sought(GuardView::Cookie("message"@, Absent::Forward), ctx)))
    } else if inv.handler == BODY_DATA_FORM {
        task_answer(ctx.body, Policy::Strict)
    } else if inv.handler == BODY_DATA_LENIENT_FORM {
        task_answer(ctx.body, Policy::Lenient)
    } else if inv.handler == STATUS_ACCEPTED {
        plain(202, "status::Accepted"@)
    } else if inv.handler == CONTENT_JSON {
        ResponseView { status: 200, content: Content::Json, body: "{ 'hi': 'world' }"@ }
    } else if inv.handler == TYPED_URIS {
        fine(
            "/dynamic-paths/"@ + percent_encoded("test"@) + "\n"@ + ("/dynamic-paths/"@
                + percent_encoded("中文"@)) + "\n"@,
        )
    } else {
        fault()
    }
}

/// The answer to a request that fails with a status code: for a request
/// that is not found, the notice that `target` is no valid path; for another
/// failure, the status code alone.
pub open spec fn failure_of(code: u16, target: Seq<char>) -> ResponseView {
    if code == NOT_FOUND {
        plain(code, "Sorry, '"@ + target + "' is not a valid path."@)
    } else {
        plain(code, Seq::empty())
    }
}

/// The answer to how a dispatch ends: that of the handler that is to be
/// invoked, or that to the failure.
pub open spec fn response_of(outcome: OutcomeView, ctx: RequestView, target: Seq<char>)
    -> ResponseView {
    match outcome {
        OutcomeView::Invoking(inv) => answer_of(inv, ctx),
        OutcomeView::Failed(code) => failure_of(code, target),
    }
}

/// The changes that the handler to be invoked asks of the cookie jar: those
/// of the cookie endpoint where a dispatch ends at it, and none elsewhere.
pub open spec fn edits_of(outcome: OutcomeView) -> Seq<JarEditView> {
    match outcome {
        OutcomeView::Invoking(inv) => if inv.handler == COOKIES {
            cookie_edits()
        } else {
            Seq::empty()
        },
        OutcomeView::Failed(_) => Seq::empty(),
    }
}

fn ok(body: String) -> (out: Response)
    ensures
        out@ == fine(body@),
{
    Response::plain(200, body)
}

fn failed() -> (out: Response)
    ensures
        out@ == fault(),
{
    Response::plain(500, String::new())
}

fn at(values: &Vec<Value>, i: usize) -> (value: Option<&Value>)
    ensures
        value.deep_view() == value_at(values.deep_view(), i as int),
{
    if i < values.len() {
        proof {
            assert(values.deep_view()[i as int] == values[i as int]@);
        }
        Some(&values[i])
    } else {
        None
    }
}

/// Invokes the handler that an invocation names.
pub fn answer(inv: &Invocation, ctx: &RequestContext) -> (out: Response)
    ensures
        out@ == answer_of(inv@, ctx@),
{
    let v0 = at(&inv.values.path, 0);
    let v1 = at(&inv.values.path, 1);
    let v2 = at(&inv.values.path, 2);
    let q0 = at(&inv.values.query, 0);
    let q1 = at(&inv.values.query, 1);
    let g0 = at(&inv.guards, 0);
    let h = inv.handler;
    if h == INDEX {
        ok(index().to_owned())
    } else if h == METHODS {
        ok(methods().to_owned())
    } else if h == DYNAMIC_PATHS {
        match v0 {
            Some(Value::Text(name)) => ok(dynamic_paths(name.as_str())),
            _ => failed(),
        }
    } else if h == STD_FROM_PARAM {
        match (v0, v1, v2) {
            (Some(Value::Text(name)), Some(Value::UInt(age)), Some(Value::Bool(cool))) => {
                if *age <= 0xff {
                    ok(std_from_param(name.clone(), *age as u8, *cool))
                } else {
                    failed()
                }
            },
            _ => failed(),
        }
    } else if h == MULTIPLE_SEGMENTS {
        match v0 {
            Some(Value::Text(path)) => ok(multiple_segments(path_from(path.as_str()))),
            _ => failed(),
        }
    } else if h == RANK_DEFAULT {
        match v0 {
            Some(Value::UInt(id)) => {
                if *id <= usize::MAX as u64 {
                    ok(rank_default(*id as usize))
                } else {
                    failed()
                }
            },
            _ => failed(),
        }
    } else if h == RANK_2 {
        match v0 {
            Some(Value::Int(id)) => {
                if isize::MIN as i64 <= *id && *id <= isize::MAX as i64 {
                    ok(rank_2(*id as isize))
                } else {
                    failed()
                }
            },
            _ => failed(),
        }
    } else if h == RANK_3 {
        match v0 {
            Some(Value::Text(raw)) => match try_rank_3(raw.as_str()) {
                Some(body) => ok(body),
                None => failed(),
            },
            _ => failed(),
        }
    } else if h == OPTION_PARAM {
        match v0 {
            Some(Value::Int(id)) => {
                if -0x8000_0000 <= *id && *id <= 0x7fff_ffff {
                    ok(option_param(Some(*id as i32)))
                } else {
                    failed()
                }
            },
            Some(Value::Empty) => ok(option_param(None)),
            _ => failed(),
        }
    } else if h == RESULT_PARAM {
        match v0 {
            Some(Value::Int(id)) => {
                if -0x8000_0000 <= *id && *id <= 0x7fff_ffff {
                    ok(result_param_text(Ok(*id as i32)))
                } else {
                    failed()
                }
            },
            Some(Value::Rejected(raw)) => match try_result_param(Err(raw.as_str())) {
                Some(body) => ok(body),
                None => failed(),
            },
            _ => failed(),
        }
    } else if h == QUERY_STRING_HELLO {
        match q0 {
            Some(Value::Text(name)) => ok(query_string_hello(name.as_str())),
            _ => failed(),
        }
    } else if h == QUERY_STRING_OPTION {
        match (q0, q1) {
            (Some(Value::Text(wave)), Some(Value::Text(name))) => ok(
                query_string_option(Some(wave.clone()), name.as_str()),
            ),
            (Some(Value::Empty), Some(Value::Text(name))) => ok(
                query_string_option(None, name.as_str()),
            ),
            _ => failed(),
        }
    } else if h == QUERY_STRING_MULTIPLE_SEGMENTS {
        match (q0, &inv.values.bundle) {
            (Some(Value::UInt(id)), Some(record)) => match User::from_record(record) {
                Some(user) => {
                    if *id <= usize::MAX as u64 {
                        ok(query_string_multiple_segments(*id as usize, user))
                    } else {
                        failed()
                    }
                },
                None => failed(),
            },
            _ => failed(),
        }
    } else if h == API_KEY_1 {
        match g0 {
            Some(Value::Text(key)) => ok(
                request_guards_custom_api_key1(ApiKey { key: key.clone() }),
            ),
            _ => failed(),
        }
    } else if h == API_KEY_2 {
        ok(request_guards_custom_api_key2())
    } else if h == COOKIES {
        let guard = Guard::Cookie("message".to_owned(), Absent::Forward);
        let message = seek(&guard, ctx);
        let said = match &message {
            Some(value) => request_cookies(Some(value.as_str())),
            None => request_cookies(None),
        };
        ok(said.0)
    } else if h == BODY_DATA_FORM {
        body_data_form(ctx.body.as_str())
    } else if h == BODY_DATA_LENIENT_FORM {
        body_data_lenient_form(ctx.body.as_str())
    } else if h == STATUS_ACCEPTED {
        response_status_accepted()
    } else if h == CONTENT_JSON {
        response_content_json()
    } else if h == TYPED_URIS {
        ok(typed_uris())
    } else {
        failed()
    }
}

fn no_edits() -> (edits: Vec<JarEdit>)
    ensures
        edits.deep_view() == Seq::<JarEditView>::empty(),
{
    let edits: Vec<JarEdit> = Vec::new();
    proof {
        assert(edits.deep_view() =~= Seq::<JarEditView>::empty());
    }
    edits
}

/// The answer to a request that fails with a status code.
pub fn failure(code: u16, target: &str) -> (out: Response)
    ensures
        out@ == failure_of(code, target@),
{
    if code == NOT_FOUND {
        Response::plain(code, not_found(target))
    } else {
        Response::plain(code, String::new())
    }
}

/// Answers a request: dispatches it over the table and invokes the handler
/// of the route that takes it.
pub fn respond(table: &RouteTable, ctx: &RequestContext, target: &str) -> (out: Response)
    requires
        table.wf(),
    ensures
        out@ == response_of(dispatched(table, ctx@), ctx@, target@),
{
    match dispatch(table, ctx) {
        Outcome::Invoking(inv) => answer(&inv, ctx),
        Outcome::Failed(code) => failure(code, target),
    }
}

/// Answers a request as [`respond`] does, and gives with the answer the
/// changes that the invoked handler asks of the cookie jar.
pub fn respond_with_edits(table: &RouteTable, ctx: &RequestContext, target: &str) -> (out: (
    Response,
    Vec<JarEdit>,
))
    requires
        table.wf(),
    ensures
        out.0@ == response_of(dispatched(table, ctx@), ctx@, target@),
        out.1.deep_view() == edits_of(dispatched(table, ctx@)),
{
    match dispatch(table, ctx) {
        Outcome::Invoking(inv) => {
            let edits = if inv.handler == COOKIES {
                cookie_changes()
            } else {
                no_edits()
            };
            (answer(&inv, ctx), edits)
        },
        Outcome::Failed(code) => (failure(code, target), no_edits()),
    }
}

} // verus!
