use minipost::dispatch::{dispatch, Response};
use minipost::ident::PostId;
use minipost::render::Renderer;
use minipost::store::PostStore;

fn send(store: &mut PostStore, method: &[u8], path: &[u8], body: &[u8]) -> Response {
    let renderer = Renderer::new();
    dispatch(store, &renderer, method, path, body)
}

fn contains(haystack: &[u8], needle: &[u8]) -> bool {
    haystack.windows(needle.len()).any(|w| w == needle)
}

#[test]
fn create_then_fetch_scenario() {
    let mut store = PostStore::new();
    let created = send(&mut store, b"POST", b"/posts", b"title=Hello&content=World");
    assert_eq!(created.status, 200);
    let id = PostId::parse(&created.body).expect("body is not a well-formed id");
    let mut path = b"/posts/".to_vec();
    path.extend_from_slice(&created.body);
    let fetched = send(&mut store, b"GET", &path, b"");
    assert_eq!(fetched.status, 200);
    assert!(contains(&fetched.body, b"Hello"));
    assert!(contains(&fetched.body, b"World"));
    let expected = format!(
        "id: {}\ntitle: Hello\ncontent: World",
        String::from_utf8(id.to_text()).unwrap()
    );
    assert_eq!(String::from_utf8(fetched.body).unwrap(), expected);
}

#[test]
fn malformed_id_is_client_error() {
    let mut store = PostStore::new();
    let resp = send(&mut store, b"GET", b"/posts/not-a-valid-id", b"");
    assert_eq!(resp.status, 400);
}

#[test]
fn empty_id_segment_is_client_error() {
    let mut store = PostStore::new();
    let resp = send(&mut store, b"GET", b"/posts/", b"");
    assert_eq!(resp.status, 400);
}

#[test]
fn absent_id_is_not_found() {
    let mut store = PostStore::new();
    let resp = send(
        &mut store,
        b"GET",
        b"/posts/00000000-0000-0000-0000-000000000001",
        b"",
    );
    assert_eq!(resp.status, 404);
    assert!(resp.body.is_empty());
}

#[test]
fn extra_segments_are_ignored() {
    let mut store = PostStore::new();
    let created = send(&mut store, b"POST", b"/posts", b"title=a&content=b");
    assert_eq!(created.status, 200);
    let mut path = b"/posts/".to_vec();
    path.extend_from_slice(&created.body);
    path.extend_from_slice(b"/extra/segments");
    let fetched = send(&mut store, b"GET", &path, b"");
    assert_eq!(fetched.status, 200);
}

#[test]
fn unrouted_requests_are_not_found() {
    let mut store = PostStore::new();
    for (method, path) in [
        (b"DELETE".as_slice(), b"/posts/123".as_slice()),
        (b"PUT".as_slice(), b"/".as_slice()),
        (b"POST".as_slice(), b"/".as_slice()),
        (b"GET".as_slice(), b"/posts".as_slice()),
        (b"GET".as_slice(), b"/nowhere".as_slice()),
        (b"POST".as_slice(), b"/posts/abc".as_slice()),
    ] {
        let resp = send(&mut store, method, path, b"name=x");
        assert_eq!(resp.status, 404);
        assert!(resp.body.is_empty());
    }
}

#[test]
fn greeting_renders_name() {
    let mut store = PostStore::new();
    let resp = send(&mut store, b"GET", b"/", b"name=World");
    assert_eq!(resp.status, 200);
    assert_eq!(String::from_utf8(resp.body).unwrap(), "Hello, World!\n");
}

#[test]
fn greeting_decodes_name() {
    let mut store = PostStore::new();
    let resp = send(&mut store, b"GET", b"/", b"name=Post+%26+Co");
    assert_eq!(resp.status, 200);
    assert_eq!(String::from_utf8(resp.body).unwrap(), "Hello, Post & Co!\n");
}

#[test]
fn non_utf8_name_is_client_error() {
    let mut store = PostStore::new();
    let resp = send(&mut store, b"GET", b"/", b"name=%FF");
    assert_eq!(resp.status, 400);
    assert!(resp.body.is_empty());
}

#[test]
fn non_utf8_title_is_client_error() {
    let mut store = PostStore::new();
    let resp = send(&mut store, b"POST", b"/posts", b"title=%FF&content=x");
    assert_eq!(resp.status, 400);
    assert!(resp.body.is_empty());
}

#[test]
fn greeting_without_name_is_client_error() {
    let mut store = PostStore::new();
    let resp = send(&mut store, b"GET", b"/", b"");
    assert_eq!(resp.status, 400);
    let resp = send(&mut store, b"GET", b"/", b"other=x");
    assert_eq!(resp.status, 400);
}

#[test]
fn create_with_missing_field_is_client_error() {
    let mut store = PostStore::new();
    let resp = send(&mut store, b"POST", b"/posts", b"title=onlytitle");
    assert_eq!(resp.status, 400);
    let resp = send(&mut store, b"POST", b"/posts", b"content=onlycontent");
    assert_eq!(resp.status, 400);
    let resp = send(&mut store, b"POST", b"/posts", b"title=%zz&content=x");
    assert_eq!(resp.status, 400);
}

#[test]
fn create_decodes_fields() {
    let mut store = PostStore::new();
    let created = send(
        &mut store,
        b"POST",
        b"/posts",
        b"title=Hello+there&content=100%25+done",
    );
    assert_eq!(created.status, 200);
    let id = PostId::parse(&created.body).unwrap();
    let post = store.get_by_id(&id).unwrap();
    assert_eq!(post.title, b"Hello there".to_vec());
    assert_eq!(post.content, b"100% done".to_vec());
}
