//! The rendering collaborator: a tera engine holding exactly two templates,
//! registered once at construction and never changed, so the whole template
//! set is immutable and safely shared by concurrent readers. Rendering is
//! treated as pure text substitution; the engine is reached only through the
//! trusted wrappers below.

use vstd::prelude::*;

use crate::is_utf8;

verus! {

#[verifier::external_type_specification]
#[verifier::external_body]
pub struct ExTera(tera::Tera);

/// The greeting text for a name: `Hello, <name>!` and a newline.
pub open spec fn greeting_text(name: Seq<u8>) -> Seq<u8> {
    seq![0x48u8, 0x65, 0x6c, 0x6c, 0x6f, 0x2c, 0x20] + name + seq![0x21u8, 0x0a]
}

/// The rendered post text: `id: <id>`, `title: <title>` and
/// `content: <content>`, one per line.
pub open spec fn post_text(id: Seq<u8>, title: Seq<u8>, content: Seq<u8>) -> Seq<u8> {
    seq![0x69u8, 0x64, 0x3a, 0x20] + id + seq![0x0au8, 0x74, 0x69, 0x74, 0x6c, 0x65, 0x3a, 0x20]
        + title + seq![0x0au8, 0x63, 0x6f, 0x6e, 0x74, 0x65, 0x6e, 0x74, 0x3a, 0x20] + content
}

/// The template engine, with the greeting template `Hello, {{ name }}!` (and
/// a newline) registered as `hello` and the post template
/// `id: {{id}}`/`title: {{title}}`/`content: {{content}}` registered as
/// `post`. The field is private: every reachable value was built by `new`, so
/// every engine holds exactly these two templates.
pub struct Renderer {
    engine: tera::Tera,
}

impl Renderer {
    /// Relies on `tera::Tera::default` and `Tera::add_raw_template`: an empty
    /// engine, then the two fixed templates registered under `hello` and
    /// `post`. Both template bodies parse, so the registrations succeed.
    #[verifier::external_body]
    pub fn new() -> (r: Renderer)
    {
        let mut engine = tera::Tera::default();
        engine.add_raw_template("hello", "Hello, {{ name }}!\n").unwrap();
        engine
            .add_raw_template("post", "id: {{id}}\ntitle: {{title}}\ncontent: {{content}}")
            .unwrap();
        Renderer { engine }
    }

    /// Relies on `tera::Tera::render` with the `hello` template. The
    /// template is registered by `new`, the one binding it references is
    /// always supplied, and rendering a registered template of plain
    /// variables succeeds, so a rendered text always comes back. Rendering
    /// substitutes the `name` binding for `{{ name }}` verbatim (the template
    /// name ends in none of tera's autoescape suffixes, so nothing is
    /// escaped). The binding is handed over decoded as UTF-8 with invalid
    /// sequences replaced, which leaves valid UTF-8 bytes exactly as they
    /// are; of other names only the outcome's existence is stated.
    #[verifier::external_body]
    pub fn render_greeting(&self, name: &[u8]) -> (r: Option<Vec<u8>>)
        ensures
            r is Some,
            r matches Some(v) ==> is_utf8(name@) ==> v@ == greeting_text(name@),
    {
        let mut ctx = tera::Context::new();
        ctx.insert("name", &String::from_utf8_lossy(name).into_owned());
        match self.engine.render("hello", &ctx) {
            Ok(s) => Some(s.into_bytes()),
            Err(_) => None,
        }
    }

    /// Relies on `tera::Tera::render` with the `post` template. The template
    /// is registered by `new`, the three bindings it references are always
    /// supplied, and rendering a registered template of plain variables
    /// succeeds, so a rendered text always comes back. Rendering substitutes
    /// the bindings verbatim (no autoescape suffix, so nothing is escaped).
    /// Bindings are handed over decoded as UTF-8 with invalid sequences
    /// replaced, which leaves valid UTF-8 bytes exactly as they are; of
    /// other bytes only the outcome's existence is stated.
    #[verifier::external_body]
    pub fn render_post(&self, id: &[u8], title: &[u8], content: &[u8]) -> (r: Option<Vec<u8>>)
        ensures
            r is Some,
            r matches Some(v) ==> is_utf8(id@) && is_utf8(title@) && is_utf8(content@) ==> v@
                == post_text(id@, title@, content@),
    {
        let mut ctx = tera::Context::new();
        ctx.insert("id", &String::from_utf8_lossy(id).into_owned());
        ctx.insert("title", &String::from_utf8_lossy(title).into_owned());
        ctx.insert("content", &String::from_utf8_lossy(content).into_owned());
        match self.engine.render("post", &ctx) {
            Ok(s) => Some(s.into_bytes()),
            Err(_) => None,
        }
    }
}

} // verus!
