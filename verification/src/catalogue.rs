//! A catalogue of example endpoints: what each endpoint answers to the
//! values that it is handed.

use crate::decode::{percent_encode, percent_encoded, text_of, url_decode, url_decoded};
use crate::form::{
    decode_text,
    decoded_record,
    DecodeError,
    DecodeErrorView,
    Entry,
    EntryView,
    FieldSpec,
    FieldSpecView,
    Policy,
};
use crate::guard::{seek, sought, Absent, Guard, GuardView};
use crate::request::{fields_of, RequestContext};
use crate::text::{append_signed, append_unsigned, decimal_text, signed_text};
use crate::value::{BaseType, Value, ValueView};
use vstd::prelude::*;
use vstd::string::*;

verus! {

#[verifier::external_type_specification]
#[verifier::external_body]
pub struct ExPathBuf(std::path::PathBuf);

/// The text of a path, where the path is valid Unicode.
pub uninterp spec fn path_text(path: std::path::PathBuf) -> Option<Seq<char>>;

/// How `{:?}` renders a text: between double quotes, with the characters
/// that need it escaped.
pub uninterp spec fn text_rendering(text: Seq<char>) -> Seq<char>;

pub open spec fn str_of(text: Option<&str>) -> Option<Seq<char>> {
    match text {
        Some(t) => Some(t@),
        None => None,
    }
}

/// Calls `std::path::Path::to_str`, which yields the path's text where the
/// path is valid Unicode and `None` where it is not. Nothing is proved of
/// it: the contract only names what it returns.
#[verifier::external_body]
fn path_to_str(path: &std::path::PathBuf) -> (text: Option<&str>)
    ensures
        str_of(text) == path_text(*path),
{
    path.to_str()
}

/// Calls `std::path::PathBuf::from` on a text. The contract claims that the
/// path so made is valid Unicode and has that text.
#[verifier::external_body]
pub(crate) fn path_from(text: &str) -> (path: std::path::PathBuf)
    ensures
        path_text(path) == Some(text@),
{
    std::path::PathBuf::from(text)
}

/// Renders a text with `{:?}`, by `std`'s `Debug` for `str`. Nothing is
/// proved of it: the contract only names what the formatting returns.
#[verifier::external_body]
fn render_text(text: &str) -> (out: String)
    ensures
        out@ == text_rendering(text@),
{
    format!("{:?}", text)
}

/// The record that the query of the user endpoint is decoded into.
#[derive(Clone, Debug, PartialEq, Eq)]
pub struct User {
    pub name: String,
    pub account: u64,
}

/// The record that the body of the task endpoints is decoded into.
#[derive(Clone, Debug, PartialEq, Eq)]
pub struct Task {
    pub complete: bool,
    pub description: String,
}

/// The credential that the key endpoint asks for.
#[derive(Clone, Debug, PartialEq, Eq)]
pub struct ApiKey {
    pub key: String,
}

/// How an optional text is shown: `None`, or the text's rendering inside
/// `Some(` and `)`.
pub open spec fn optional_text(text: Option<Seq<char>>) -> Seq<char> {
    match text {
        Some(t) => "Some("@ + text_rendering(t) + ")"@,
        None => "None"@,
    }
}

/// How a truth value is shown.
pub open spec fn bool_text(value: bool) -> Seq<char> {
    if value {
        "true"@
    } else {
        "false"@
    }
}

/// How a user is shown: the record's name, then each field's name with its
/// value, between braces.
pub open spec fn user_text(name: Seq<char>, account: u64) -> Seq<char> {
    "User { name: "@ + text_rendering(name) + ", account: "@ + decimal_text(account as nat)
        + " }"@
}

/// How a task is shown: the record's name, then each field's name with its
/// value, between braces.
pub open spec fn task_text(complete: bool, description: Seq<char>) -> Seq<char> {
    "Task { complete: "@ + bool_text(complete) + ", description: "@ + text_rendering(description)
        + " }"@
}

/// Shows an optional text.
pub fn render_optional_text(text: &Option<String>) -> (out: String)
    ensures
        out@ == optional_text(text_of(*text)),
{
    match text {
        Some(t) => {
            let mut out = "Some(".to_owned();
            let shown = render_text(t.as_str());
            out.append(shown.as_str());
            out.append(")");
            out
        },
        None => "None".to_owned(),
    }
}

/// Shows a user.
pub fn render_user(user: &User) -> (out: String)
    ensures
        out@ == user_text(user.name@, user.account),
{
    let mut out = "User { name: ".to_owned();
    let name = render_text(user.name.as_str());
    out.append(name.as_str());
    out.append(", account: ");
    append_unsigned(&mut out, user.account);
    out.append(" }");
    out
}

/// Shows a task.
pub fn render_task(task: &Task) -> (out: String)
    ensures
        out@ == task_text(task.complete, task.description@),
{
    let mut out = "Task { complete: ".to_owned();
    if task.complete {
        out.append("true");
    } else {
        out.append("false");
    }
    out.append(", description: ");
    let description = render_text(task.description.as_str());
    out.append(description.as_str());
    out.append(" }");
    out
}

/// What kind of content the body of an answer is.
#[derive(Clone, Copy, Debug, PartialEq, Eq, Structural)]
pub enum Content {
    /// Plain text.
    Plain,
    /// A JSON document.
    Json,
}

/// An answer to a request.
#[derive(Clone, Debug, PartialEq, Eq)]
pub struct Response {
    pub status: u16,
    pub content: Content,
    pub body: String,
}

/// The mathematical model of a [`Response`].
pub struct ResponseView {
    pub status: u16,
    pub content: Content,
    pub body: Seq<char>,
}

/// An answer in plain text.
pub open spec fn plain(status: u16, body: Seq<char>) -> ResponseView {
    ResponseView { status, content: Content::Plain, body }
}

impl DeepView for Response {
    type V = ResponseView;

    open spec fn deep_view(&self) -> ResponseView {
        ResponseView { status: self.status, content: self.content, body: self.body@ }
    }
}

impl View for Response {
    type V = ResponseView;

    open spec fn view(&self) -> ResponseView {
        self.deep_view()
    }
}

impl Response {
    /// An answer in plain text.
    pub fn plain(status: u16, body: String) -> (out: Response)
        ensures
            out@ == plain(status, body@),
    {
        Response { status, content: Content::Plain, body }
    }
}

pub fn index() -> (body: &'static str)
    ensures
        body@ == "Hello, world!"@,
{
    "Hello, world!"
}

pub fn methods() -> (body: &'static str)
    ensures
        body@ == "put"@,
{
    "put"
}

pub fn dynamic_paths(name: &str) -> (body: String)
    ensures
        body@ == "Hello, "@ + name@ + "!"@,
{
    let mut body = "Hello, ".to_owned();
    body.append(name);
    body.append("!");
    body
}

pub open spec fn std_from_param_text(name: Seq<char>, age: u8, cool: bool) -> Seq<char> {
    if cool {
        "You're a cool "@ + decimal_text(age as nat) + " year old, "@ + name + "!"@
    } else {
        name + ", we need to talk about your coolness."@
    }
}

pub fn std_from_param(name: String, age: u8, cool: bool) -> (body: String)
    ensures
        body@ == std_from_param_text(name@, age, cool),
{
    if cool {
        let mut body = "You're a cool ".to_owned();
        append_unsigned(&mut body, age as u64);
        body.append(" year old, ");
        body.append(name.as_str());
        body.append("!");
        body
    } else {
        let mut body = name;
        body.append(", we need to talk about your coolness.");
        body
    }
}

pub fn multiple_segments(path: std::path::PathBuf) -> (body: String)
    ensures
        body@ == match path_text(path) {
            Some(text) => text,
            None => "None"@,
        },
{
    match path_to_str(&path) {
        Some(p) => p.to_owned(),
        None => "None".to_owned(),
    }
}

pub fn rank_default(id: usize) -> (body: String)
    ensures
        body@ == "[rank] id="@ + decimal_text(id as nat),
{
    let mut body = "[rank] id=".to_owned();
    append_unsigned(&mut body, id as u64);
    body
}

pub fn rank_2(id: isize) -> (body: String)
    ensures
        body@ == "[rank_2] id="@ + signed_text(id as int),
{
    let mut body = "[rank_2] id=".to_owned();
    append_signed(&mut body, id as i64);
    body
}

/// Whether a received text can be URL-decoded.
pub fn decodes(raw: &str) -> (can: bool)
    ensures
        can == url_decoded(raw@) is Some,
{
    url_decode(raw).is_some()
}

/// The answer of the text-typed rank endpoint to a decoded parameter.
pub fn rank_3_text(decoded: &str) -> (body: String)
    ensures
        body@ == "[rank_3] id="@ + decoded@,
{
    let mut body = "[rank_3] id=".to_owned();
    body.append(decoded);
    body
}

pub fn rank_3(id: &str) -> (body: String)
    requires
        url_decoded(id@) is Some,
    ensures
        body@ == "[rank_3] id="@ + url_decoded(id@)->0,
{
    match url_decode(id) {
        Some(decoded) => rank_3_text(decoded.as_str()),
        None => String::new(),
    }
}

/// The answer of the text-typed rank endpoint, where the parameter can be
/// decoded.
pub fn try_rank_3(id: &str) -> (body: Option<String>)
    ensures
        text_of(body) == match url_decoded(id@) {
            Some(decoded) => Some("[rank_3] id="@ + decoded),
            None => None,
        },
{
    if decodes(id) {
        Some(rank_3(id))
    } else {
        None
    }
}

pub fn option_param(id: Option<i32>) -> (body: String)
    ensures
        body@ == match id {
            Some(v) => "param match id="@ + signed_text(v as int),
            None => "param not match"@,
        },
{
    match id {
        Some(v) => {
            let mut body = "param match id=".to_owned();
            append_signed(&mut body, v as i64);
            body
        },
        None => "param not match".to_owned(),
    }
}

/// The answer of the fallible endpoint to a value or to the decoded text
/// that is none.
pub fn result_param_text(id: Result<i32, &str>) -> (body: String)
    ensures
        body@ == match id {
            Ok(v) => "param match id="@ + signed_text(v as int),
            Err(decoded) => "param not match id="@ + decoded@,
        },
{
    match id {
        Ok(v) => {
            let mut body = "param match id=".to_owned();
            append_signed(&mut body, v as i64);
            body
        },
        Err(decoded) => {
            let mut body = "param not match id=".to_owned();
            body.append(decoded);
            body
        },
    }
}

pub fn result_param(id: Result<i32, &str>) -> (body: String)
    requires
        id matches Err(raw) ==> url_decoded(raw@) is Some,
    ensures
        body@ == match id {
            Ok(v) => "param match id="@ + signed_text(v as int),
            Err(raw) => "param not match id="@ + url_decoded(raw@)->0,
        },
{
    match id {
        Ok(v) => result_param_text(Ok(v)),
        Err(raw) => match url_decode(raw) {
            Some(decoded) => result_param_text(Err(decoded.as_str())),
            None => String::new(),
        },
    }
}

/// The answer of the fallible endpoint, where the text that is no value can
/// be decoded.
pub fn try_result_param(id: Result<i32, &str>) -> (body: Option<String>)
    ensures
        text_of(body) == match id {
            Ok(v) => Some("param match id="@ + signed_text(v as int)),
            Err(raw) => match url_decoded(raw@) {
                Some(decoded) => Some("param not match id="@ + decoded),
                None => None,
            },
        },
{
    match id {
        Ok(v) => Some(result_param(Ok(v))),
        Err(raw) => {
            if decodes(raw) {
                Some(result_param(Err(raw)))
            } else {
                None
            }
        },
    }
}

pub fn query_string_hello(name: &str) -> (body: String)
    ensures
        body@ == "Hello, "@ + name@ + "!"@,
{
    dynamic_paths(name)
}

pub fn query_string_option(wave: Option<String>, name: &str) -> (body: String)
    ensures
        body@ == "Hello, wave="@ + optional_text(text_of(wave)) + ", name="@ + name@ + "!"@,
{
    let mut body = "Hello, wave=".to_owned();
    let shown = render_optional_text(&wave);
    body.append(shown.as_str());
    body.append(", name=");
    body.append(name);
    body.append("!");
    body
}

pub fn query_string_multiple_segments(id: usize, user: User) -> (body: String)
    ensures
        body@ == "id="@ + decimal_text(id as nat) + ", user="@ + user_text(
            user.name@,
            user.account,
        ),
{
    let mut body = "id=".to_owned();
    append_unsigned(&mut body, id as u64);
    body.append(", user=");
    let shown = render_user(&user);
    body.append(shown.as_str());
    body
}

impl ApiKey {
    /// The key that the request presents in its `Authorization` header;
    /// `None`, for a request without that header, forwards.
    pub fn from_request(ctx: &RequestContext) -> (key: Option<ApiKey>)
        ensures
            match key {
                Some(k) => sought(
                    GuardView::Header("Authorization"@, Absent::Forward),
                    ctx@,
                ) == Some(k.key@),
                None => sought(GuardView::Header("Authorization"@, Absent::Forward), ctx@) is None,
            },
    {
        let guard = Guard::Header("Authorization".to_owned(), Absent::Forward);
        match seek(&guard, ctx) {
            Some(key) => Some(ApiKey { key }),
            None => None,
        }
    }
}

pub fn request_guards_custom_api_key1(key: ApiKey) -> (body: String)
    ensures
        body@ == "api-key="@ + key.key@,
{
    let mut body = "api-key=".to_owned();
    body.append(key.key.as_str());
    body
}

pub fn request_guards_custom_api_key2() -> (body: String)
    ensures
        body@ == "No Authorization"@,
{
    "No Authorization".to_owned()
}

/// A change that an endpoint asks of the cookie jar; it takes effect where
/// the request succeeds.
#[derive(Clone, Debug, PartialEq, Eq)]
pub enum JarEdit {
    Add(String, String),
    Remove(String),
    AddPrivate(String, String),
    RemovePrivate(String),
}

/// The mathematical model of a [`JarEdit`].
pub enum JarEditView {
    Add(Seq<char>, Seq<char>),
    Remove(Seq<char>),
    AddPrivate(Seq<char>, Seq<char>),
    RemovePrivate(Seq<char>),
}

impl DeepView for JarEdit {
    type V = JarEditView;

    open spec fn deep_view(&self) -> JarEditView {
        match *self {
            JarEdit::Add(name, value) => JarEditView::Add(name@, value@),
            JarEdit::Remove(name) => JarEditView::Remove(name@),
            JarEdit::AddPrivate(name, value) => JarEditView::AddPrivate(name@, value@),
            JarEdit::RemovePrivate(name) => JarEditView::RemovePrivate(name@),
        }
    }
}

impl View for JarEdit {
    type V = JarEditView;

    open spec fn view(&self) -> JarEditView {
        self.deep_view()
    }
}

/// The changes that the cookie endpoint asks of the jar.
pub open spec fn cookie_edits() -> Seq<JarEditView> {
    seq![
        JarEditView::Add("pub_key"@, "value"@),
        JarEditView::Remove("pub_key2"@),
        JarEditView::AddPrivate("pri_key"@, "value"@),
        JarEditView::RemovePrivate("pri_key2"@),
    ]
}

/// What the cookie endpoint says of the value that it is handed for the
/// `message` cookie.
pub open spec fn cookie_message(message: Option<Seq<char>>) -> Seq<char> {
    match message {
        Some(value) => "Message: message="@ + value,
        None => "No message cookie"@,
    }
}

/// The changes that the cookie endpoint asks of the jar.
pub fn cookie_changes() -> (edits: Vec<JarEdit>)
    ensures
        edits.deep_view() == cookie_edits(),
{
    let mut edits: Vec<JarEdit> = Vec::new();
    edits.push(JarEdit::Add("pub_key".to_owned(), "value".to_owned()));
    edits.push(JarEdit::Remove("pub_key2".to_owned()));
    edits.push(JarEdit::AddPrivate("pri_key".to_owned(), "value".to_owned()));
    edits.push(JarEdit::RemovePrivate("pri_key2".to_owned()));
    proof {
        assert(edits.deep_view() =~= cookie_edits());
    }
    edits
}

/// The cookie endpoint: its answer to the value of the `message` cookie, and
/// the changes that it asks of the jar.
pub fn request_cookies(message: Option<&str>) -> (out: (String, Vec<JarEdit>))
    ensures
        out.0@ == cookie_message(str_of(message)),
        out.1.deep_view() == cookie_edits(),
{
    let edits = cookie_changes();
    let body = match message {
        Some(value) => {
            let mut body = "Message: message=".to_owned();
            body.append(value);
            body
        },
        None => "No message cookie".to_owned(),
    };
    (body, edits)
}

/// The schema of a task: the field `complete`, held under that key, and the
/// field `description`.
pub open spec fn task_schema() -> Seq<FieldSpecView> {
    seq![
        FieldSpecView { name: "complete"@, alias: Some("complete"@), base: BaseType::Bool },
        FieldSpecView { name: "description"@, alias: None, base: BaseType::Text },
    ]
}

/// The schema of a user: the fields `name` and `account`.
pub open spec fn user_schema() -> Seq<FieldSpecView> {
    seq![
        FieldSpecView { name: "name"@, alias: None, base: BaseType::Text },
        FieldSpecView { name: "account"@, alias: None, base: BaseType::U64 },
    ]
}

pub fn task_fields() -> (schema: Vec<FieldSpec>)
    ensures
        schema.deep_view() == task_schema(),
{
    let mut schema: Vec<FieldSpec> = Vec::new();
    schema.push(FieldSpec::renamed("complete", "complete", BaseType::Bool));
    schema.push(FieldSpec::new("description", BaseType::Text));
    proof {
        assert(schema.deep_view() =~= task_schema());
    }
    schema
}

pub fn user_fields() -> (schema: Vec<FieldSpec>)
    ensures
        schema.deep_view() == user_schema(),
{
    let mut schema: Vec<FieldSpec> = Vec::new();
    schema.push(FieldSpec::new("name", BaseType::Text));
    schema.push(FieldSpec::new("account", BaseType::U64));
    proof {
        assert(schema.deep_view() =~= user_schema());
    }
    schema
}

/// The task that a decoded record holds, where the record is one of the
/// task schema.
pub open spec fn task_of(record: Seq<EntryView>) -> Option<(bool, Seq<char>)> {
    if record.len() == 2 {
        match (record[0].value, record[1].value) {
            (ValueView::Bool(complete), ValueView::Text(description)) => Some(
                (complete, description),
            ),
            _ => None,
        }
    } else {
        None
    }
}

/// The user that a decoded record holds, where the record is one of the
/// user schema.
pub open spec fn user_of(record: Seq<EntryView>) -> Option<(Seq<char>, u64)> {
    if record.len() == 2 {
        match (record[0].value, record[1].value) {
            (ValueView::Text(name), ValueView::UInt(account)) => Some((name, account)),
            _ => None,
        }
    } else {
        None
    }
}

impl Task {
    /// The task that a decoded record holds.
    pub fn from_record(record: &Vec<Entry>) -> (task: Option<Task>)
        ensures
            match task {
                Some(t) => task_of(record.deep_view()) == Some((t.complete, t.description@)),
                None => task_of(record.deep_view()) is None,
            },
    {
        if record.len() != 2 {
            return None;
        }
        proof {
            assert(record.deep_view()[0] == record[0]@);
            assert(record.deep_view()[1] == record[1]@);
        }
        match (&record[0].value, &record[1].value) {
            (Value::Bool(complete), Value::Text(description)) => Some(
                Task { complete: *complete, description: description.clone() },
            ),
            _ => None,
        }
    }
}

impl User {
    /// The user that a decoded record holds.
    pub fn from_record(record: &Vec<Entry>) -> (user: Option<User>)
        ensures
            match user {
                Some(u) => user_of(record.deep_view()) == Some((u.name@, u.account)),
                None => user_of(record.deep_view()) is None,
            },
    {
        if record.len() != 2 {
            return None;
        }
        proof {
            assert(record.deep_view()[0] == record[0]@);
            assert(record.deep_view()[1] == record[1]@);
        }
        match (&record[0].value, &record[1].value) {
            (Value::Text(name), Value::UInt(account)) => Some(
                User { name: name.clone(), account: *account },
            ),
            _ => None,
        }
    }
}

/// The answer to a form body read as a task: the task as it is shown, with
/// status 200; status 422 where the body holds the fields of a task
/// but a value that is none of its field's type; status 400 where a field
/// is missing or unknown.
pub open spec fn task_answer(body: Seq<char>, policy: Policy) -> ResponseView {
    match decoded_record(fields_of(body), task_schema(), policy) {
        Ok(record) => match task_of(record) {
            Some((complete, description)) => plain(200, task_text(complete, description)),
            None => plain(500, Seq::empty()),
        },
        Err(DecodeErrorView::TypeMismatch(_)) => plain(422, Seq::empty()),
        Err(_) => plain(400, Seq::empty()),
    }
}

fn answer_task(body: &str, policy: Policy) -> (out: Response)
    ensures
        out@ == task_answer(body@, policy),
{
    let schema = task_fields();
    match decode_text(body, &schema, policy) {
        Ok(record) => match Task::from_record(&record) {
            Some(task) => Response::plain(200, render_task(&task)),
            None => Response::plain(500, String::new()),
        },
        Err(DecodeError::TypeMismatch(_)) => Response::plain(422, String::new()),
        Err(_) => Response::plain(400, String::new()),
    }
}

pub fn body_data_form(body: &str) -> (out: Response)
    ensures
        out@ == task_answer(body@, Policy::Strict),
{
    answer_task(body, Policy::Strict)
}

pub fn body_data_lenient_form(body: &str) -> (out: Response)
    ensures
        out@ == task_answer(body@, Policy::Lenient),
{
    answer_task(body, Policy::Lenient)
}

pub fn not_found(target: &str) -> (body: String)
    ensures
        body@ == "Sorry, '"@ + target@ + "' is not a valid path."@,
{
    let mut body = "Sorry, '".to_owned();
    body.append(target);
    body.append("' is not a valid path.");
    body
}

pub fn response_status_accepted() -> (out: Response)
    ensures
        out@ == plain(202, "status::Accepted"@),
{
    Response::plain(202, "status::Accepted".to_owned())
}

pub fn response_content_json() -> (out: Response)
    ensures
        out@ == (ResponseView { status: 200, content: Content::Json, body: "{ 'hi': 'world' }"@ }),
{
    Response { status: 200, content: Content::Json, body: "{ 'hi': 'world' }".to_owned() }
}

/// The address of the greeting endpoint for a name.
pub fn dynamic_paths_uri(name: &str) -> (uri: String)
    ensures
        uri@ == "/dynamic-paths/"@ + percent_encoded(name@),
{
    let mut uri = "/dynamic-paths/".to_owned();
    let encoded = percent_encode(name);
    uri.append(encoded.as_str());
    uri
}

pub fn typed_uris() -> (body: String)
    ensures
        body@ == "/dynamic-paths/"@ + percent_encoded("test"@) + "\n"@ + ("/dynamic-paths/"@
            + percent_encoded("中文"@)) + "\n"@,
{
    let mut body = dynamic_paths_uri("test");
    body.append("\n");
    let second = dynamic_paths_uri("中文");
    body.append(second.as_str());
    body.append("\n");
    body
}

} // verus!
