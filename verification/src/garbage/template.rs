//! Page templates of the `upon` crate, each kept together with the text it
//! was compiled from, so that what it renders is stated over that text.
use vstd::prelude::*;
use upon::{Engine, Template};
use super::garbage::{Page, links_view};

verus! {

#[verifier::external_type_specification]
#[verifier::external_body]
pub struct ExEngine<'a>(Engine<'a>);

#[verifier::external_type_specification]
#[verifier::external_body]
pub struct ExTemplate<'a>(Template<'a>);

#[verifier::external_type_specification]
#[verifier::external_body]
pub struct ExTemplateValue(upon::Value);

/// What compiling `source` with a default `upon::Engine` reports: `None`
/// where it compiles, else the error's message.
pub uninterp spec fn template_error(source: Seq<char>) -> Option<Seq<char>>;

/// What rendering the template compiled from `source` yields for a page
/// with this title, these paragraphs and these links (each a path and a
/// text; `None` stands for no links at all): the text, or the error's
/// message.
pub uninterp spec fn rendered(
    source: Seq<char>,
    title: Seq<char>,
    paragraphs: Seq<Seq<char>>,
    links: Option<Seq<(Seq<char>, Seq<char>)>>,
) -> Result<Seq<char>, Seq<char>>;

/// A default `upon::Engine`.
#[verifier::external_body]
fn engine() -> Engine<'static> {
    Engine::new()
}

/// The data of a page as an `upon::Value`: a map of its title, the list of
/// its paragraphs, and the list of its links (maps of `path` and `text`),
/// or `upon::Value::None` where there are no links.
#[verifier::external_body]
fn page_value(page: &Page) -> upon::Value {
    let links = match &page.links {
        Some(ls) => {
            let mut list = Vec::new();
            for l in ls {
                list.push(upon::Value::from([("path", l.path.clone()), ("text", l.text.clone())]));
            }
            upon::Value::List(list)
        },
        None => upon::Value::None,
    };
    let paragraphs = upon::Value::from(page.paragraphs.clone());
    upon::Value::from([("title", upon::Value::from(page.title.clone())), ("paragraphs", paragraphs), ("links", links)])
}

/// A compiled template, its engine, and the text it was compiled from.
pub struct PageTemplate {
    engine: Engine<'static>,
    template: Template<'static>,
    source: String,
}

/// `Engine::compile` of `upon` on `source`, with `engine`: the template,
/// kept with its engine and its text; or the error's message.
#[verifier::external_body]
fn compile_with(engine: Engine<'static>, source: &str) -> (r: Result<PageTemplate, String>)
    ensures
        match r {
            Ok(t) => template_error(source@) is None && t.source() == source@,
            Err(m) => template_error(source@) == Some(m@),
        },
{
    match engine.compile(source.to_owned()) {
        Ok(template) => Ok(PageTemplate { engine, template, source: source.to_owned() }),
        Err(e) => Err(e.to_string()),
    }
}

impl PageTemplate {
    /// The text the template was compiled from.
    pub closed spec fn source(&self) -> Seq<char> {
        self.source@
    }

    /// Compiles `source` with a default engine: the template, or the
    /// error's message.
    pub fn compile(source: &str) -> (r: Result<PageTemplate, String>)
        ensures
            match r {
                Ok(t) => template_error(source@) is None && t.source() == source@,
                Err(m) => template_error(source@) == Some(m@),
            },
    {
        compile_with(engine(), source)
    }

    /// `Template::render_from` of `upon` with the page's data: the text, or
    /// the error's message.
    #[verifier::external_body]
    pub fn render(&self, page: &Page) -> (r: Result<String, String>)
        ensures
            match r {
                Ok(t) => rendered(self.source(), page.title@, page.paragraphs.deep_view(), links_view(page.links))
                    == Ok::<Seq<char>, Seq<char>>(t@),
                Err(m) => rendered(self.source(), page.title@, page.paragraphs.deep_view(), links_view(page.links))
                    == Err::<Seq<char>, Seq<char>>(m@),
            },
    {
        let data = page_value(page);
        match self.template.render_from(&self.engine, &data).to_string() {
            Ok(text) => Ok(text),
            Err(e) => Err(e.to_string()),
        }
    }
}

} // verus!
