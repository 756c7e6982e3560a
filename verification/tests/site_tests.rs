use route_dispatch::catalogue::{
    body_data_form, body_data_lenient_form, decodes, dynamic_paths, dynamic_paths_uri, index,
    methods, multiple_segments, not_found, option_param, query_string_hello,
    query_string_multiple_segments, query_string_option, rank_2, rank_3, rank_3_text,
    rank_default, request_cookies, request_guards_custom_api_key1,
    request_guards_custom_api_key2, response_content_json, response_status_accepted,
    result_param, result_param_text, std_from_param, task_fields, try_rank_3, try_result_param,
    typed_uris, user_fields, ApiKey, Content, JarEdit, Response, Task, User,
};
use route_dispatch::catalogue::{cookie_changes, render_optional_text, render_task, render_user};
use route_dispatch::form::{decode_text, Policy};
use route_dispatch::request::{Method, RequestContext};
use route_dispatch::pattern::PathPattern;
use route_dispatch::request::parse_path;
use route_dispatch::site::{failure, respond, respond_with_edits, routes};
use std::path::PathBuf;

fn get(target: &str) -> Response {
    respond(&routes(), &RequestContext::new(Method::Get, target), target)
}

fn fine(body: &str) -> Response {
    Response::plain(200, body.to_string())
}

#[test]
fn index_says_hello() {
    assert_eq!(index(), "Hello, world!");
}

#[test]
fn methods_says_put() {
    assert_eq!(methods(), "put");
}

#[test]
fn dynamic_paths_greets_by_name() {
    assert_eq!(dynamic_paths("this.is.name"), "Hello, this.is.name!");
}

#[test]
fn std_from_param_talks_of_coolness() {
    assert_eq!(std_from_param("中文".to_string(), 1, true), "You're a cool 1 year old, 中文!");
    assert_eq!(std_from_param("ann".to_string(), 255, true), "You're a cool 255 year old, ann!");
    assert_eq!(
        std_from_param("ann".to_string(), 30, false),
        "ann, we need to talk about your coolness."
    );
}

#[test]
fn multiple_segments_gives_the_path_back() {
    assert_eq!(multiple_segments(PathBuf::from("a/b/c")), "a/b/c");
    assert_eq!(multiple_segments(PathBuf::new()), "");
}

#[test]
fn rank_endpoints_name_themselves() {
    assert_eq!(rank_default(1), "[rank] id=1");
    assert_eq!(rank_2(-1), "[rank_2] id=-1");
    assert_eq!(rank_3_text("中文"), "[rank_3] id=中文");
    assert_eq!(rank_3("%e4%b8%ad%e6%96%87"), "[rank_3] id=中文");
    assert_eq!(try_rank_3("a+b"), Some("[rank_3] id=a b".to_string()));
    assert_eq!(try_rank_3("%FF"), None);
    assert!(decodes("%41"));
    assert!(!decodes("%FF"));
}

#[test]
fn option_param_tells_a_number_from_none() {
    assert_eq!(option_param(Some(1)), "param match id=1");
    assert_eq!(option_param(Some(i32::MIN)), "param match id=-2147483648");
    assert_eq!(option_param(None), "param not match");
}

#[test]
fn result_param_shows_the_text_that_is_no_number() {
    assert_eq!(result_param(Ok(1)), "param match id=1");
    assert_eq!(result_param(Err("str%20ing")), "param not match id=str ing");
    assert_eq!(result_param_text(Err("as given")), "param not match id=as given");
    assert_eq!(try_result_param(Ok(-3)), Some("param match id=-3".to_string()));
    assert_eq!(try_result_param(Err("a%21")), Some("param not match id=a!".to_string()));
    assert_eq!(try_result_param(Err("%FF")), None);
}

#[test]
fn query_string_endpoints_greet() {
    assert_eq!(query_string_hello("xiaoming"), "Hello, xiaoming!");
    assert_eq!(
        query_string_option(Some("1".to_string()), "xiaoming"),
        "Hello, wave=Some(\"1\"), name=xiaoming!"
    );
    assert_eq!(query_string_option(None, "xiaoming"), "Hello, wave=None, name=xiaoming!");
    assert_eq!(
        query_string_multiple_segments(1, User { name: "xiaoming".to_string(), account: 10 }),
        "id=1, user=User { name: \"xiaoming\", account: 10 }"
    );
}

#[test]
fn api_key_comes_from_the_authorization_header() {
    let with = RequestContext::new(Method::Get, "/").with_header("authorization", "123 ");
    assert_eq!(ApiKey::from_request(&with), Some(ApiKey { key: "123 ".to_string() }));
    assert_eq!(ApiKey::from_request(&RequestContext::new(Method::Get, "/")), None);
    assert_eq!(request_guards_custom_api_key1(ApiKey { key: "123 ".to_string() }), "api-key=123 ");
    assert_eq!(request_guards_custom_api_key2(), "No Authorization");
}

#[test]
fn request_cookies_reports_the_message_cookie() {
    let (said, edits) = request_cookies(Some("messageCookieValue"));
    assert_eq!(said, "Message: message=messageCookieValue");
    assert_eq!(
        edits,
        vec![
            JarEdit::Add("pub_key".to_string(), "value".to_string()),
            JarEdit::Remove("pub_key2".to_string()),
            JarEdit::AddPrivate("pri_key".to_string(), "value".to_string()),
            JarEdit::RemovePrivate("pri_key2".to_string()),
        ]
    );
    assert_eq!(request_cookies(None).0, "No message cookie");
}

#[test]
fn records_become_tasks_and_users() {
    let record = decode_text("complete=true&description=d", &task_fields(), Policy::Strict).unwrap();
    assert_eq!(
        Task::from_record(&record),
        Some(Task { complete: true, description: "d".to_string() })
    );
    let user = decode_text("name=ann&account=10", &user_fields(), Policy::Strict).unwrap();
    assert_eq!(User::from_record(&user), Some(User { name: "ann".to_string(), account: 10 }));
    assert_eq!(Task::from_record(&user), None);
    assert_eq!(User::from_record(&record), None);
    assert_eq!(Task::from_record(&Vec::new()), None);
}

#[test]
fn the_strict_form_endpoint_rejects_more_and_less() {
    assert_eq!(
        body_data_form("complete=true&description=description"),
        fine("Task { complete: true, description: \"description\" }")
    );
    assert_eq!(body_data_form("description=description").status, 400);
    assert_eq!(body_data_form("complete=1&description=description").status, 422);
    assert_eq!(body_data_form("a=1&complete=true&description=description").status, 400);
}

#[test]
fn the_lenient_form_endpoint_ignores_more() {
    assert_eq!(
        body_data_lenient_form("a=1&complete=true&description=description"),
        fine("Task { complete: true, description: \"description\" }")
    );
    assert_eq!(body_data_lenient_form("a=1&description=description").status, 400);
    assert_eq!(body_data_lenient_form("complete=1&description=description").status, 422);
}

#[test]
fn fixed_answers() {
    assert_eq!(not_found("/nowhere"), "Sorry, '/nowhere' is not a valid path.");
    assert_eq!(
        response_status_accepted(),
        Response { status: 202, content: Content::Plain, body: "status::Accepted".to_string() }
    );
    assert_eq!(
        response_content_json(),
        Response { status: 200, content: Content::Json, body: "{ 'hi': 'world' }".to_string() }
    );
}

#[test]
fn typed_uris_are_percent_encoded() {
    assert_eq!(dynamic_paths_uri("test"), "/dynamic-paths/test");
    assert_eq!(dynamic_paths_uri("中文"), "/dynamic-paths/%E4%B8%AD%E6%96%87");
    assert_eq!(dynamic_paths_uri("a b"), "/dynamic-paths/a%20b");
    assert_eq!(typed_uris(), "/dynamic-paths/test\n/dynamic-paths/%E4%B8%AD%E6%96%87\n");
}

#[test]
fn the_site_mounts_every_route() {
    assert_eq!(routes().len(), 21);
}

#[test]
fn the_site_answers_plain_routes() {
    assert_eq!(get("/"), fine("Hello, world!"));
    assert_eq!(get("/requests/dynamic-paths/this.is.name"), fine("Hello, this.is.name!"));
    assert_eq!(get("/requests/dynamic-paths/%e4%b8%ad%e6%96%87"), fine("Hello, 中文!"));
    assert_eq!(
        get("/requests/dynamic-paths/std-from-param/%e4%b8%ad%e6%96%87/1/true"),
        fine("You're a cool 1 year old, 中文!")
    );
    assert_eq!(get("/responses/status/accepted").status, 202);
    assert_eq!(get("/responses/content/json"), response_content_json());
    assert_eq!(get("/responses/content/json").content, Content::Json);
    assert_eq!(get("/typed-uris"), fine("/dynamic-paths/test\n/dynamic-paths/%E4%B8%AD%E6%96%87\n"));
}

#[test]
fn the_site_answers_by_method() {
    let table = routes();
    let put = respond(&table, &RequestContext::new(Method::Put, "/requests/methods"), "/requests/methods");
    assert_eq!(put, fine("put"));
    assert_eq!(get("/requests/methods").status, 404);
}

#[test]
fn the_site_reports_what_is_not_found() {
    assert_eq!(
        get("/nowhere"),
        Response::plain(404, "Sorry, '/nowhere' is not a valid path.".to_string())
    );
    assert_eq!(get("/requests/dynamic-paths/std-from-param/ann/300/true").status, 404);
}

#[test]
fn the_site_captures_multiple_segments() {
    assert_eq!(
        get("/requests/dynamic-paths/multiple-segments/%e4%b8%ad%e6%96%87/1/true"),
        fine("中文/1/true")
    );
    assert_eq!(get("/requests/dynamic-paths/multiple-segments/../1/true").status, 404);
}

#[test]
fn the_site_forwards_by_rank() {
    assert_eq!(get("/requests/forwarding/rank/1"), fine("[rank] id=1"));
    assert_eq!(get("/requests/forwarding/rank/-1"), fine("[rank_2] id=-1"));
    assert_eq!(get("/requests/forwarding/rank/%e4%b8%ad%e6%96%87"), fine("[rank_3] id=中文"));
}

#[test]
fn the_site_binds_tolerant_parameters() {
    assert_eq!(get("/requests/forwarding/option/1"), fine("param match id=1"));
    assert_eq!(get("/requests/forwarding/option/string"), fine("param not match"));
    assert_eq!(get("/requests/forwarding/result/1"), fine("param match id=1"));
    assert_eq!(get("/requests/forwarding/result/string"), fine("param not match id=string"));
}

#[test]
fn the_site_reads_query_strings() {
    assert_eq!(get("/requests/query-string/hello?wave").status, 404);
    assert_eq!(get("/requests/query-string/hello?name=xiaoming").status, 404);
    assert_eq!(get("/requests/query-string/hello?wave&name=xiaoming"), fine("Hello, xiaoming!"));
    assert_eq!(get("/requests/query-string/hello?name=xiaoming&wave&age=10"), fine("Hello, xiaoming!"));
    assert_eq!(
        get("/requests/query-string/option?name=xiaoming"),
        fine("Hello, wave=None, name=xiaoming!")
    );
    assert_eq!(
        get("/requests/query-string/option?wave=1&name=xiaoming"),
        fine("Hello, wave=Some(\"1\"), name=xiaoming!")
    );
    assert_eq!(
        get("/requests/query-string/multiple-segments?name=xiaoming&account=10&id=1"),
        fine("id=1, user=User { name: \"xiaoming\", account: 10 }")
    );
    assert_eq!(get("/requests/query-string/multiple-segments?name=xiaoming&id=1").status, 404);
}

#[test]
fn the_site_guards_the_key_endpoint() {
    let table = routes();
    let target = "/requests/request-guards/custom/api-key";
    let with = RequestContext::new(Method::Get, target).with_header("authorization", "123 ");
    assert_eq!(respond(&table, &with, target), fine("api-key=123 "));
    assert_eq!(get(target), fine("No Authorization"));
}

#[test]
fn the_site_reads_cookies_and_forms() {
    let table = routes();
    let cookies = RequestContext::new(Method::Get, "/requests/cookies")
        .with_cookie("message", "messageCookieValue");
    assert_eq!(
        respond(&table, &cookies, "/requests/cookies"),
        fine("Message: message=messageCookieValue")
    );
    assert_eq!(get("/requests/cookies"), fine("No message cookie"));
    let form = RequestContext::new(Method::Post, "/requests/body-data/form")
        .with_body("a=1&complete=true&description=description");
    assert_eq!(respond(&table, &form, "/requests/body-data/form").status, 400);
    let lenient = RequestContext::new(Method::Post, "/requests/body-data/lenient-form")
        .with_body("a=1&complete=true&description=description");
    assert_eq!(
        respond(&table, &lenient, "/requests/body-data/lenient-form"),
        fine("Task { complete: true, description: \"description\" }")
    );
}

#[test]
fn records_are_shown_as_their_debug_form() {
    let user = User { name: "xiao \"ming\"\n".to_string(), account: 10 };
    assert_eq!(render_user(&user), format!("{:?}", user));
    assert_eq!(
        render_user(&User { name: "xiaoming".to_string(), account: u64::MAX }),
        "User { name: \"xiaoming\", account: 18446744073709551615 }"
    );
    let done = Task { complete: true, description: "a\tb".to_string() };
    assert_eq!(render_task(&done), format!("{:?}", done));
    let open = Task { complete: false, description: String::new() };
    assert_eq!(render_task(&open), "Task { complete: false, description: \"\" }");
    assert_eq!(render_task(&open), format!("{:?}", open));
}

#[test]
fn an_optional_text_is_shown_as_its_debug_form() {
    assert_eq!(render_optional_text(&None), "None");
    assert_eq!(render_optional_text(&Some("1".to_string())), "Some(\"1\")");
    let quoted = Some("a\"b\\c".to_string());
    assert_eq!(render_optional_text(&quoted), format!("{:?}", quoted));
    assert_eq!(query_string_option(None, "x"), "Hello, wave=None, name=x!");
}

#[test]
fn the_raw_rank_route_decodes_its_parameter_itself() {
    assert_eq!(get("/requests/forwarding/rank/a+b"), fine("[rank_3] id=a b"));
    assert_eq!(get("/requests/forwarding/rank/a%20b"), fine("[rank_3] id=a b"));
    assert_eq!(get("/requests/forwarding/rank/%FF"), Response::plain(500, String::new()));
    assert_eq!(get("/requests/forwarding/result/a+b"), fine("param not match id=a b"));
}

#[test]
fn a_plus_in_the_path_reaches_the_handler_as_a_plus() {
    assert_eq!(get("/requests/dynamic-paths/a+b"), fine("Hello, a+b!"));
    assert_eq!(get("/requests/dynamic-paths/multiple-segments/a+b/c"), fine("a+b/c"));
    assert_eq!(get("/requests/query-string/hello?wave&name=a+b"), fine("Hello, a b!"));
}

#[test]
fn only_the_cookie_endpoint_asks_for_changes_to_the_jar() {
    let table = routes();
    let edits = vec![
        JarEdit::Add("pub_key".to_string(), "value".to_string()),
        JarEdit::Remove("pub_key2".to_string()),
        JarEdit::AddPrivate("pri_key".to_string(), "value".to_string()),
        JarEdit::RemovePrivate("pri_key2".to_string()),
    ];
    assert_eq!(cookie_changes(), edits);
    for target in ["/requests/cookies", "/requests/cookies/", "//requests//cookies?x=1"] {
        let ctx = RequestContext::new(Method::Get, target);
        assert_eq!(
            respond_with_edits(&table, &ctx, target),
            (fine("No message cookie"), edits.clone())
        );
    }
    for target in ["/", "/requests/cookies/more", "/nowhere", "/responses/status/accepted"] {
        let ctx = RequestContext::new(Method::Get, target);
        let (answer, asked) = respond_with_edits(&table, &ctx, target);
        assert_eq!(answer, respond(&table, &ctx, target));
        assert_eq!(asked, Vec::<JarEdit>::new());
    }
    let put = RequestContext::new(Method::Put, "/requests/cookies");
    assert_eq!(respond_with_edits(&table, &put, "/requests/cookies").1, Vec::<JarEdit>::new());
}

#[test]
fn a_failure_is_answered_by_its_status_code() {
    assert_eq!(
        failure(404, "/nowhere"),
        Response::plain(404, "Sorry, '/nowhere' is not a valid path.".to_string())
    );
    assert_eq!(failure(401, "/nowhere"), Response::plain(401, String::new()));
}

#[test]
fn every_route_is_declared_with_the_segments_of_its_template() {
    let declared = [
        (Method::Get, "/", "/", 0),
        (Method::Put, "/requests/methods", "/requests/methods", 1),
        (Method::Get, "/requests/dynamic-paths/<name>", "/requests/dynamic-paths/x", 2),
        (
            Method::Get,
            "/requests/dynamic-paths/std-from-param/<name>/<age:u8>/<cool:bool>",
            "/requests/dynamic-paths/std-from-param/x/1/true",
            3,
        ),
        (
            Method::Get,
            "/requests/dynamic-paths/multiple-segments/<path..>",
            "/requests/dynamic-paths/multiple-segments/a/b",
            4,
        ),
        (Method::Get, "/requests/forwarding/rank/<id:uint>", "/requests/forwarding/rank/1", 5),
        (Method::Get, "/requests/forwarding/rank/<id:int>", "/requests/forwarding/rank/1", 6),
        (Method::Get, "/requests/forwarding/rank/<id:raw>", "/requests/forwarding/rank/1", 7),
        (
            Method::Get,
            "/requests/forwarding/option/<id:optional-i32>",
            "/requests/forwarding/option/1",
            8,
        ),
        (
            Method::Get,
            "/requests/forwarding/result/<id:result-i32>",
            "/requests/forwarding/result/1",
            9,
        ),
        (Method::Get, "/requests/query-string/hello", "/requests/query-string/hello", 10),
        (Method::Get, "/requests/query-string/option", "/requests/query-string/option", 11),
        (
            Method::Get,
            "/requests/query-string/multiple-segments",
            "/requests/query-string/multiple-segments",
            12,
        ),
        (
            Method::Get,
            "/requests/request-guards/custom/api-key",
            "/requests/request-guards/custom/api-key",
            13,
        ),
        (
            Method::Get,
            "/requests/request-guards/custom/api-key",
            "/requests/request-guards/custom/api-key",
            14,
        ),
        (Method::Get, "/requests/cookies", "/requests/cookies", 15),
        (Method::Post, "/requests/body-data/form", "/requests/body-data/form", 16),
        (Method::Post, "/requests/body-data/lenient-form", "/requests/body-data/lenient-form", 17),
        (Method::Get, "/responses/status/accepted", "/responses/status/accepted", 18),
        (Method::Get, "/responses/content/json", "/responses/content/json", 19),
        (Method::Get, "/typed-uris", "/typed-uris", 20),
    ];
    let table = routes();
    for (method, template, path, handler) in declared {
        let found = table.lookup(method, &parse_path(path));
        let route = found
            .iter()
            .map(|c| c.route())
            .find(|r| r.handler == handler)
            .expect(template);
        assert_eq!(route.pattern, PathPattern::parse(template).unwrap());
        assert_eq!(route.method, method);
    }
}
