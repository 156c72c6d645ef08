//! The request dispatcher: one exchange per HTTP request, driven by events.
//!
//! An exchange decides; its caller does the I/O. `Exchange::start` routes the
//! request and names the first thing to do; each `step` takes the outcome of
//! that work and names the next, until a reply is due.
use vstd::prelude::*;
use vstd::string::*;
use vstd::utf8::encode_utf8;
use crate::escape::{escape_js, lemma_unescape_escape, unescape_js, BACKSLASH};
use crate::page::{lemma_shell_has_contents, page_spec, render_page, shell_bytes};
use crate::path::file_name_spec;
use crate::template::{embed_prefix, embed_suffix, lemma_render_embeds, push_range};

verus! {

/// 200 OK.
pub const STATUS_OK: u16 = 200;

/// 204 No Content.
pub const STATUS_NO_CONTENT: u16 = 204;

/// 400 Bad Request.
pub const STATUS_BAD_REQUEST: u16 = 400;

/// 404 Not Found.
pub const STATUS_NOT_FOUND: u16 = 404;

/// 500 Internal Server Error.
pub const STATUS_SERVER_ERROR: u16 = 500;

/// Where a request goes, by method and path.
#[derive(Clone, Copy, Debug, PartialEq, Eq, Structural)]
pub enum Route {
    /// `GET /`: show the page.
    Page,
    /// `PUT /`: overwrite the file.
    Save,
    /// Anything else.
    NotFound,
}

/// The routing table: exact match on method and path.
pub open spec fn route_of(method: Seq<char>, path: Seq<char>) -> Route {
    if method == "GET"@ && path == "/"@ {
        Route::Page
    } else if method == "PUT"@ && path == "/"@ {
        Route::Save
    } else {
        Route::NotFound
    }
}

/// Whether two strings are equal.
fn same_text(a: &str, b: &str) -> (r: bool)
    ensures
        r == (a@ == b@),
{
    let n = a.unicode_len();
    if n != b.unicode_len() {
        return false;
    }
    let mut i: usize = 0;
    while i < n
        invariant
            i <= n,
            n == a@.len(),
            n == b@.len(),
            forall|k: int| 0 <= k < i ==> a@[k] == b@[k],
        decreases n - i,
    {
        if a.get_char(i) != b.get_char(i) {
            return false;
        }
        i = i + 1;
    }
    assert(a@ =~= b@);
    true
}

/// Routes a request by its method and path.
pub fn route(method: &str, path: &str) -> (r: Route)
    ensures
        r == route_of(method@, path@),
{
    if same_text(path, "/") {
        if same_text(method, "GET") {
            return Route::Page;
        } else if same_text(method, "PUT") {
            return Route::Save;
        }
    }
    Route::NotFound
}

/// A response: status code and body.
pub struct Reply {
    pub status: u16,
    pub body: Vec<u8>,
}

/// What the caller is to do next for this request.
pub enum Action {
    /// Read the whole target file as text.
    ReadFile,
    /// Buffer the whole request body.
    ReadBody,
    /// Replace the target file's contents with exactly these bytes.
    WriteFile(Vec<u8>),
    /// Send this reply; the exchange is over.
    Respond(Reply),
}

/// An action as values.
pub enum ActionView {
    ReadFile,
    ReadBody,
    WriteFile(Seq<u8>),
    Respond(u16, Seq<u8>),
}

impl View for Action {
    type V = ActionView;

    open spec fn view(&self) -> ActionView {
        match self {
            Action::ReadFile => ActionView::ReadFile,
            Action::ReadBody => ActionView::ReadBody,
            Action::WriteFile(b) => ActionView::WriteFile(b@),
            Action::Respond(r) => ActionView::Respond(r.status, r.body@),
        }
    }
}

/// The outcome of the work an action asked for.
pub enum Event {
    /// The file's text, or `None` when it could not be read as text.
    FileText(Option<String>),
    /// The request body, or `None` when the transport failed.
    Body(Option<Vec<u8>>),
    /// Whether the write succeeded.
    Written(bool),
}

/// An event as values; text is seen as its UTF-8 bytes.
pub enum EventView {
    FileText(Option<Seq<u8>>),
    Body(Option<Seq<u8>>),
    Written(bool),
}

impl View for Event {
    type V = EventView;

    open spec fn view(&self) -> EventView {
        match self {
            Event::FileText(Some(t)) => EventView::FileText(Some(encode_utf8(t@))),
            Event::FileText(None) => EventView::FileText(None),
            Event::Body(Some(b)) => EventView::Body(Some(b@)),
            Event::Body(None) => EventView::Body(None),
            Event::Written(ok) => EventView::Written(*ok),
        }
    }
}

/// Where an exchange stands.
#[derive(Clone, Copy, Debug, PartialEq, Eq, Structural)]
pub enum Stage {
    /// Waiting for the file's text.
    AwaitingFile,
    /// Waiting for the request body.
    AwaitingBody,
    /// Waiting for the write to finish.
    AwaitingWrite,
    /// The reply has been given.
    Finished,
}

/// One request in progress.
pub struct Exchange {
    pub stage: Stage,
}

/// The body `Not Found`.
pub open spec fn not_found_text() -> Seq<u8> {
    encode_utf8("Not Found"@)
}

/// The body `Bad Request`.
pub open spec fn bad_request_text() -> Seq<u8> {
    encode_utf8("Bad Request"@)
}

/// The body `Internal Server Error`.
pub open spec fn server_error_text() -> Seq<u8> {
    encode_utf8("Internal Server Error"@)
}

/// How an exchange begins for a request with this method and path.
pub open spec fn start_spec(method: Seq<char>, path: Seq<char>) -> (Stage, ActionView) {
    match route_of(method, path) {
        Route::Page => (Stage::AwaitingFile, ActionView::ReadFile),
        Route::Save => (Stage::AwaitingBody, ActionView::ReadBody),
        Route::NotFound => (
            Stage::Finished,
            ActionView::Respond(STATUS_NOT_FOUND, not_found_text()),
        ),
    }
}

/// The reply to `GET /` once the file has been read: a file that could not be
/// read shows as empty. A path that names no file cannot be shown.
pub open spec fn page_reply(target: Seq<u8>, text: Option<Seq<u8>>) -> ActionView {
    let t = match text {
        Some(t) => t,
        None => Seq::empty(),
    };
    match page_spec(target, t) {
        Some(page) => ActionView::Respond(STATUS_OK, page),
        None => ActionView::Respond(STATUS_SERVER_ERROR, server_error_text()),
    }
}

/// How an exchange at `stage` for the file at `target` answers an event. An
/// event that the stage does not wait for ends the exchange with an error.
pub open spec fn step_spec(stage: Stage, target: Seq<u8>, event: EventView) -> (
    Stage,
    ActionView,
) {
    match (stage, event) {
        (Stage::AwaitingFile, EventView::FileText(text)) => (
            Stage::Finished,
            page_reply(target, text),
        ),
        (Stage::AwaitingBody, EventView::Body(Some(body))) => (
            Stage::AwaitingWrite,
            ActionView::WriteFile(body),
        ),
        (Stage::AwaitingBody, EventView::Body(None)) => (
            Stage::Finished,
            ActionView::Respond(STATUS_BAD_REQUEST, bad_request_text()),
        ),
        (Stage::AwaitingWrite, EventView::Written(true)) => (
            Stage::Finished,
            ActionView::Respond(STATUS_NO_CONTENT, Seq::empty()),
        ),
        _ => (Stage::Finished, ActionView::Respond(STATUS_SERVER_ERROR, server_error_text())),
    }
}

/// What the target file holds once `action` has been carried out.
pub open spec fn file_after(action: ActionView, file: Option<Seq<u8>>) -> Option<Seq<u8>> {
    match action {
        ActionView::WriteFile(bytes) => Some(bytes),
        _ => file,
    }
}

/// A reply with a fixed text body.
fn text_reply(status: u16, text: &str) -> (r: Reply)
    ensures
        r.status == status,
        r.body@ == encode_utf8(text@),
{
    let bytes = text.as_bytes();
    let mut body: Vec<u8> = Vec::new();
    push_range(&mut body, bytes, 0, bytes.len());
    assert(bytes@.subrange(0, bytes@.len() as int) =~= bytes@);
    Reply { status, body }
}

impl Exchange {
    /// Begins the exchange for a request with this method and path.
    pub fn start(method: &str, path: &str) -> (r: (Exchange, Action))
        ensures
            (r.0.stage, r.1@) == start_spec(method@, path@),
    {
        match route(method, path) {
            Route::Page => (Exchange { stage: Stage::AwaitingFile }, Action::ReadFile),
            Route::Save => (Exchange { stage: Stage::AwaitingBody }, Action::ReadBody),
            Route::NotFound => (
                Exchange { stage: Stage::Finished },
                Action::Respond(text_reply(STATUS_NOT_FOUND, "Not Found")),
            ),
        }
    }

    /// Takes the outcome of the last action and names the next one.
    pub fn step(&mut self, target: &str, event: Event) -> (r: Action)
        ensures
            (final(self).stage, r@) == step_spec(old(self).stage, target.spec_bytes(), event@),
    {
        let stage = self.stage;
        self.stage = Stage::Finished;
        match (stage, event) {
            (Stage::AwaitingFile, Event::FileText(text)) => {
                let page = match &text {
                    Some(t) => render_page(target.as_bytes(), t.as_str().as_bytes()),
                    None => {
                        let empty: Vec<u8> = Vec::new();
                        render_page(target.as_bytes(), empty.as_slice())
                    },
                };
                match page {
                    Some(body) => Action::Respond(Reply { status: STATUS_OK, body }),
                    None => Action::Respond(
                        text_reply(STATUS_SERVER_ERROR, "Internal Server Error"),
                    ),
                }
            },
            (Stage::AwaitingBody, Event::Body(Some(body))) => {
                self.stage = Stage::AwaitingWrite;
                Action::WriteFile(body)
            },
            (Stage::AwaitingBody, Event::Body(None)) => Action::Respond(
                text_reply(STATUS_BAD_REQUEST, "Bad Request"),
            ),
            (Stage::AwaitingWrite, Event::Written(true)) => Action::Respond(
                Reply { status: STATUS_NO_CONTENT, body: Vec::new() },
            ),
            _ => Action::Respond(text_reply(STATUS_SERVER_ERROR, "Internal Server Error")),
        }
    }
}

/// Any request other than `GET /` and `PUT /` is answered at once with 404
/// and the body `Not Found`.
pub proof fn lemma_unrouted_not_found(method: Seq<char>, path: Seq<char>)
    requires
        (method != "GET"@ && method != "PUT"@) || path != "/"@,
    ensures
        start_spec(method, path) == (
            Stage::Finished,
            ActionView::Respond(STATUS_NOT_FOUND, not_found_text()),
        ),
{
}

/// `PUT /` with a body asks for exactly that body to become the file, so
/// carrying it out a second time changes nothing.
pub proof fn lemma_save_idempotent(target: Seq<u8>, body: Seq<u8>, file: Option<Seq<u8>>)
    ensures
        ({
            let write = step_spec(start_spec("PUT"@, "/"@).0, target, EventView::Body(Some(body))).1;
            &&& write == ActionView::WriteFile(body)
            &&& file_after(write, file) == Some(body)
            &&& file_after(write, file_after(write, file)) == file_after(write, file)
        }),
{
    reveal_strlit("PUT");
    reveal_strlit("GET");
    assert("PUT"@[0] != "GET"@[0]);
    assert(route_of("PUT"@, "/"@) == Route::Save);
    assert(route_of("GET"@, "/"@) == Route::Page);
}

/// `GET /` on a file that could not be read shows the page with nothing
/// between the frame around the contents placeholder.
pub proof fn lemma_unreadable_shows_empty(target: Seq<u8>)
    requires
        file_name_spec(target) is Some,
    ensures
        ({
            let name = file_name_spec(target)->Some_0;
            step_spec(Stage::AwaitingFile, target, EventView::FileText(None)) == (
                Stage::Finished,
                ActionView::Respond(
                    STATUS_OK,
                    embed_prefix(shell_bytes(), name) + embed_suffix(shell_bytes(), name),
                ),
            )
        }),
{
    let name = file_name_spec(target)->Some_0;
    assert(escape_js(Seq::empty()) == Seq::<u8>::empty());
    lemma_shell_has_contents();
    lemma_render_embeds(shell_bytes(), name, Seq::empty());
    assert(embed_prefix(shell_bytes(), name) + Seq::<u8>::empty() =~= embed_prefix(
        shell_bytes(),
        name,
    ));
}

/// `PUT /` with a body and then `GET /` shows a page that holds the escaped
/// body in one piece, between a prefix and a suffix fixed by the file's name;
/// read back as a JavaScript string literal it is the body again, as long as
/// the body holds no backslash.
pub proof fn lemma_save_then_show(target: Seq<u8>, body: Seq<u8>, before: Option<Seq<u8>>)
    requires
        file_name_spec(target) is Some,
        !body.contains(BACKSLASH),
    ensures
        ({
            let name = file_name_spec(target)->Some_0;
            let put = start_spec("PUT"@, "/"@);
            let write = step_spec(put.0, target, EventView::Body(Some(body)));
            let get = start_spec("GET"@, "/"@);
            let shown = step_spec(get.0, target, EventView::FileText(file_after(write.1, before)));
            &&& put.1 == ActionView::ReadBody
            &&& write.1 == ActionView::WriteFile(body)
            &&& get.1 == ActionView::ReadFile
            &&& shown == (
                Stage::Finished,
                ActionView::Respond(
                    STATUS_OK,
                    embed_prefix(shell_bytes(), name) + escape_js(body) + embed_suffix(
                        shell_bytes(),
                        name,
                    ),
                ),
            )
            &&& unescape_js(escape_js(body)) == body
        }),
{
    reveal_strlit("PUT");
    reveal_strlit("GET");
    assert("PUT"@[0] != "GET"@[0]);
    assert(route_of("PUT"@, "/"@) == Route::Save);
    assert(route_of("GET"@, "/"@) == Route::Page);
    let name = file_name_spec(target)->Some_0;
    lemma_shell_has_contents();
    lemma_render_embeds(shell_bytes(), name, escape_js(body));
    lemma_unescape_escape(body);
}

} // verus!
