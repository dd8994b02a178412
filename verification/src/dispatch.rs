//! The dispatcher: matches a request's method and path against the fixed
//! route table — `GET /` renders the greeting, `POST /posts` creates a post,
//! `GET /posts/{id}` fetches one, anything else is not found — and runs the
//! matching handler. It is total over (method, path, body): every failure of
//! a handler step becomes an error response, never a crash.

use vstd::prelude::*;

use crate::bytes_eq;
use crate::is_utf8;
use crate::lemma_ascii_is_utf8;
use crate::form::find_in;
use crate::form::lemma_found_utf8;
use crate::form::form_field;
use crate::form::form_field_get;
use crate::form::Field;
use crate::form::FieldSpec;
use crate::form::first_occ;
use crate::ident::id_bytes_of;
use crate::ident::id_text_of;
use crate::ident::lemma_id_text_ascii;
use crate::ident::lemma_id_text_round_trip;
use crate::ident::well_formed_id;
use crate::ident::PostId;
use crate::render::greeting_text;
use crate::render::post_text;
use crate::render::Renderer;
use crate::store::PostStore;

verus! {

/// The bytes of `GET`.
pub open spec fn method_get() -> Seq<u8> {
    seq![0x47u8, 0x45, 0x54]
}

/// The bytes of `POST`.
pub open spec fn method_post() -> Seq<u8> {
    seq![0x50u8, 0x4f, 0x53, 0x54]
}

/// The bytes of the root path `/`.
pub open spec fn root_path() -> Seq<u8> {
    seq![0x2fu8]
}

/// The bytes of the collection path `/posts`.
pub open spec fn posts_path() -> Seq<u8> {
    seq![0x2fu8, 0x70, 0x6f, 0x73, 0x74, 0x73]
}

/// The bytes of the item prefix `/posts/`.
pub open spec fn posts_prefix() -> Seq<u8> {
    seq![0x2fu8, 0x70, 0x6f, 0x73, 0x74, 0x73, 0x2f]
}

/// The bytes of the form field `name`.
pub open spec fn name_key() -> Seq<u8> {
    seq![0x6eu8, 0x61, 0x6d, 0x65]
}

/// The bytes of the form field `title`.
pub open spec fn title_key() -> Seq<u8> {
    seq![0x74u8, 0x69, 0x74, 0x6c, 0x65]
}

/// The bytes of the form field `content`.
pub open spec fn content_key() -> Seq<u8> {
    seq![0x63u8, 0x6fu8, 0x6e, 0x74, 0x65, 0x6e, 0x74]
}

/// The handler a (method, path) pair selects; the table is matched in order
/// and the first row wins.
pub enum Route {
    Greeting,
    CreatePost,
    GetPost,
    NotFound,
}

/// The route table: `GET /`, `POST /posts`, `GET /posts/{id}` by prefix,
/// everything else not found.
pub open spec fn route_of(method: Seq<u8>, path: Seq<u8>) -> Route {
    if method == method_get() && path == root_path() {
        Route::Greeting
    } else if method == method_post() && path == posts_path() {
        Route::CreatePost
    } else if method == method_get() && path.len() >= 7 && path.take(7) == posts_prefix() {
        Route::GetPost
    } else {
        Route::NotFound
    }
}

/// The id segment of a `/posts/{id}` path: what stands between the prefix
/// and the next slash; further segments are ignored.
pub open spec fn id_segment(path: Seq<u8>) -> Seq<u8> {
    path.skip(7).take(first_occ(path.skip(7), 0x2f))
}

/// A response: a status code and a body.
pub struct Response {
    pub status: u16,
    pub body: Vec<u8>,
}

/// Whether a response has the given status and an empty body.
pub open spec fn empty_resp(resp: Response, status: u16) -> bool {
    resp.status == status && resp.body@ == Seq::<u8>::empty()
}

/// What the greeting handler returns: the rendered greeting for the body's
/// `name` field, or a client error when the field is missing or the body is
/// malformed. Rendering the fixed greeting template with its one binding
/// supplied cannot fail, so success is owed whenever the field is found.
pub open spec fn greeting_resp(body: Seq<u8>, resp: Response) -> bool {
    match form_field(body, name_key()) {
        FieldSpec::Found(v) => resp.status == 200 && resp.body@ == greeting_text(v),
        _ => empty_resp(resp, 400),
    }
}

/// What the create handler returns and how it changes the store `m0` into
/// `m1`: with both fields present, either the canonical text of a fresh
/// identifier now mapped to the fields, or — only when the store already
/// held a post the random identifier could collide with — a server error
/// leaving the store as it was; otherwise a client error and no change. On
/// an empty store success is owed.
pub open spec fn create_resp(
    m0: Map<Seq<u8>, (Seq<u8>, Seq<u8>)>,
    m1: Map<Seq<u8>, (Seq<u8>, Seq<u8>)>,
    body: Seq<u8>,
    resp: Response,
) -> bool {
    match (form_field(body, title_key()), form_field(body, content_key())) {
        (FieldSpec::Found(t), FieldSpec::Found(c)) => (resp.status == 200 && well_formed_id(
            resp.body@,
        ) && !m0.contains_key(id_bytes_of(resp.body@)) && m1 == m0.insert(
            id_bytes_of(resp.body@),
            (t, c),
        )) || (empty_resp(resp, 500) && m1 == m0 && m0.dom() != Set::<Seq<u8>>::empty()),
        _ => empty_resp(resp, 400) && m1 == m0,
    }
}

/// What the fetch handler returns: a client error for an ill-formed id, an
/// empty not-found response for an absent one, else exactly the rendered
/// post under its canonical (lowercase) identifier text. Rendering the fixed
/// post template with its three bindings supplied cannot fail, so success is
/// owed whenever the post is present.
pub open spec fn get_resp(
    m: Map<Seq<u8>, (Seq<u8>, Seq<u8>)>,
    path: Seq<u8>,
    resp: Response,
) -> bool {
    let seg = id_segment(path);
    if !well_formed_id(seg) {
        empty_resp(resp, 400)
    } else if !m.contains_key(id_bytes_of(seg)) {
        empty_resp(resp, 404)
    } else {
        resp.status == 200 && resp.body@ == post_text(
            id_text_of(id_bytes_of(seg)),
            m[id_bytes_of(seg)].0,
            m[id_bytes_of(seg)].1,
        )
    }
}

/// The bytes of `GET`.
fn method_get_bytes() -> (r: Vec<u8>)
    ensures
        r@ == method_get(),
{
    let mut v: Vec<u8> = Vec::new();
    v.push(0x47);
    v.push(0x45);
    v.push(0x54);
    proof {
        assert(v@ =~= method_get());
    }
    v
}

/// The bytes of `POST`.
fn method_post_bytes() -> (r: Vec<u8>)
    ensures
        r@ == method_post(),
{
    let mut v: Vec<u8> = Vec::new();
    v.push(0x50);
    v.push(0x4f);
    v.push(0x53);
    v.push(0x54);
    proof {
        assert(v@ =~= method_post());
    }
    v
}

/// The bytes of `/`.
fn root_path_bytes() -> (r: Vec<u8>)
    ensures
        r@ == root_path(),
{
    let mut v: Vec<u8> = Vec::new();
    v.push(0x2f);
    proof {
        assert(v@ =~= root_path());
    }
    v
}

/// The bytes of `/posts`.
fn posts_path_bytes() -> (r: Vec<u8>)
    ensures
        r@ == posts_path(),
{
    let mut v: Vec<u8> = Vec::new();
    v.push(0x2f);
    v.push(0x70);
    v.push(0x6f);
    v.push(0x73);
    v.push(0x74);
    v.push(0x73);
    proof {
        assert(v@ =~= posts_path());
    }
    v
}

/// The bytes of `/posts/`.
fn posts_prefix_bytes() -> (r: Vec<u8>)
    ensures
        r@ == posts_prefix(),
{
    let mut v = posts_path_bytes();
    v.push(0x2f);
    proof {
        assert(v@ =~= posts_prefix());
    }
    v
}

/// The bytes of `name`.
fn name_key_bytes() -> (r: Vec<u8>)
    ensures
        r@ == name_key(),
{
    let mut v: Vec<u8> = Vec::new();
    v.push(0x6e);
    v.push(0x61);
    v.push(0x6d);
    v.push(0x65);
    proof {
        assert(v@ =~= name_key());
    }
    v
}

/// The bytes of `title`.
fn title_key_bytes() -> (r: Vec<u8>)
    ensures
        r@ == title_key(),
{
    let mut v: Vec<u8> = Vec::new();
    v.push(0x74);
    v.push(0x69);
    v.push(0x74);
    v.push(0x6c);
    v.push(0x65);
    proof {
        assert(v@ =~= title_key());
    }
    v
}

/// The bytes of `content`.
fn content_key_bytes() -> (r: Vec<u8>)
    ensures
        r@ == content_key(),
{
    let mut v: Vec<u8> = Vec::new();
    v.push(0x63);
    v.push(0x6f);
    v.push(0x6e);
    v.push(0x74);
    v.push(0x65);
    v.push(0x6e);
    v.push(0x74);
    proof {
        assert(v@ =~= content_key());
    }
    v
}

/// Whether `s` starts with `p`.
fn has_prefix(s: &[u8], p: &[u8]) -> (r: bool)
    ensures
        r <==> (s@.len() >= p@.len() && s@.take(p@.len() as int) == p@),
{
    if s.len() < p.len() {
        return false;
    }
    let r = bytes_eq(&s[0..p.len()], p);
    proof {
        assert(s@.subrange(0, p@.len() as int) =~= s@.take(p@.len() as int));
    }
    r
}

/// Turns a rendering outcome into a response: the rendered text with a
/// success status, or an empty server-error response when rendering failed.
pub fn rendered_response(rendered: Option<Vec<u8>>) -> (resp: Response)
    ensures
        rendered matches Some(b) ==> resp.status == 200 && resp.body@ == b@,
        rendered is None ==> empty_resp(resp, 500),
{
    match rendered {
        Some(b) => Response { status: 200, body: b },
        None => Response { status: 500, body: Vec::new() },
    }
}

/// Renders the greeting for the `name` field of the url-encoded body.
pub fn greeting_response(renderer: &Renderer, body: &[u8]) -> (resp: Response)
    ensures
        greeting_resp(body@, resp),
{
    let key = name_key_bytes();
    match form_field_get(body, key.as_slice()) {
        Field::Found(v) => {
            proof {
                lemma_found_utf8(crate::form::segments(body@), name_key());
            }
            rendered_response(renderer.render_greeting(v.as_slice()))
        },
        _ => Response { status: 400, body: Vec::new() },
    }
}

/// Creates a post from the body's `title` and `content` fields and answers
/// with the new identifier's canonical text.
pub fn create_response(store: &mut PostStore, body: &[u8]) -> (resp: Response)
    requires
        old(store).wf(),
    ensures
        final(store).wf(),
        create_resp(old(store)@, final(store)@, body@, resp),
{
    let tkey = title_key_bytes();
    let ckey = content_key_bytes();
    let tf = form_field_get(body, tkey.as_slice());
    let cf = form_field_get(body, ckey.as_slice());
    match (tf, cf) {
        (Field::Found(t), Field::Found(c)) => {
            proof {
                lemma_found_utf8(crate::form::segments(body@), title_key());
                lemma_found_utf8(crate::form::segments(body@), content_key());
            }
            match store.create(t, c) {
                Ok(id) => {
                    let txt = id.to_text();
                    proof {
                        lemma_id_text_round_trip(id@);
                    }
                    Response { status: 200, body: txt }
                },
                Err(_) => Response { status: 500, body: Vec::new() },
            }
        },
        _ => Response { status: 400, body: Vec::new() },
    }
}

/// Fetches the post whose identifier stands after `/posts/` and renders it.
pub fn get_response(store: &PostStore, renderer: &Renderer, path: &[u8]) -> (resp: Response)
    requires
        store.wf(),
        path@.len() >= 7,
    ensures
        get_resp(store@, path@, resp),
{
    let end = find_in(path, 7, path.len(), 0x2f);
    let seg = &path[7..end];
    proof {
        assert(path@.subrange(7, path@.len() as int) =~= path@.skip(7));
        assert(seg@ =~= id_segment(path@));
    }
    match PostId::parse(seg) {
        None => Response { status: 400, body: Vec::new() },
        Some(id) => match store.get_by_id(&id) {
            None => Response { status: 404, body: Vec::new() },
            Some(p) => {
                let txt = id.to_text();
                proof {
                    lemma_id_text_ascii(id@);
                    lemma_ascii_is_utf8(id_text_of(id@));
                }
                rendered_response(
                    renderer.render_post(txt.as_slice(), p.title.as_slice(), p.content.as_slice()),
                )
            },
        },
    }
}

/// Dispatches a request. Total over (method, path, body): the route table is
/// tried in order, a request matching no row gets an empty not-found
/// response, and only `POST /posts` ever changes the store.
pub fn dispatch(
    store: &mut PostStore,
    renderer: &Renderer,
    method: &[u8],
    path: &[u8],
    body: &[u8],
) -> (resp: Response)
    requires
        old(store).wf(),
    ensures
        final(store).wf(),
        route_of(method@, path@) is Greeting ==> final(store)@ == old(store)@ && greeting_resp(
            body@,
            resp,
        ),
        route_of(method@, path@) is CreatePost ==> create_resp(
            old(store)@,
            final(store)@,
            body@,
            resp,
        ),
        route_of(method@, path@) is GetPost ==> final(store)@ == old(store)@ && get_resp(
            old(store)@,
            path@,
            resp,
        ),
        route_of(method@, path@) is NotFound ==> final(store)@ == old(store)@ && empty_resp(
            resp,
            404,
        ),
{
    let get_m = method_get_bytes();
    let root_p = root_path_bytes();
    if bytes_eq(method, get_m.as_slice()) && bytes_eq(path, root_p.as_slice()) {
        return greeting_response(renderer, body);
    }
    let post_m = method_post_bytes();
    let posts_p = posts_path_bytes();
    if bytes_eq(method, post_m.as_slice()) && bytes_eq(path, posts_p.as_slice()) {
        return create_response(store, body);
    }
    let prefix = posts_prefix_bytes();
    if bytes_eq(method, get_m.as_slice()) && has_prefix(path, prefix.as_slice()) {
        proof {
            assert(posts_prefix().len() == 7);
        }
        return get_response(store, renderer, path);
    }
    Response { status: 404, body: Vec::new() }
}

/// Routing totality: a (method, path) pair matching no route-table row — not
/// `GET /`, not `POST /posts`, not `GET` under the `/posts/` prefix — is
/// dispatched to not-found, which `dispatch` answers with an empty 404 and
/// no change to the store.
pub proof fn lemma_route_totality(method: Seq<u8>, path: Seq<u8>)
    requires
        !(method == method_get() && path == root_path()),
        !(method == method_post() && path == posts_path()),
        !(method == method_get() && path.len() >= 7 && path.take(7) == posts_prefix()),
    ensures
        route_of(method, path) is NotFound,
{
}

} // verus!
