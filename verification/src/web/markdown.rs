//! Markdown as HTML, with raw HTML shown as text.

use vstd::prelude::*;

use crate::order::reversed;
use crate::order::take_first;

verus! {

/// An event of the Markdown parser, of which nothing but its kind is looked at.
#[verifier::external_type_specification]
#[verifier::external_body]
pub struct ExEvent<'a>(pulldown_cmark::Event<'a>);

/// An event as the parser hands it out: raw HTML, on lines of its own or between words, or
/// something else.
pub enum MarkdownEvent {
    Html(String),
    InlineHtml(String),
    Text(String),
    Other(pulldown_cmark::Event<'static>),
}

/// What an event says.
pub ghost enum EventView {
    Html(Seq<char>),
    InlineHtml(Seq<char>),
    Text(Seq<char>),
    Other(pulldown_cmark::Event<'static>),
}

impl View for MarkdownEvent {
    type V = EventView;

    open spec fn view(&self) -> EventView {
        match *self {
            MarkdownEvent::Html(s) => EventView::Html(s@),
            MarkdownEvent::InlineHtml(s) => EventView::InlineHtml(s@),
            MarkdownEvent::Text(s) => EventView::Text(s@),
            MarkdownEvent::Other(event) => EventView::Other(event),
        }
    }
}

pub open spec fn event_views(events: Seq<MarkdownEvent>) -> Seq<EventView> {
    Seq::new(events.len(), |i: int| events[i]@)
}

/// The events that `pulldown_cmark::Parser` yields for a text, with strikethrough, tables and
/// task lists as asked for.
pub uninterp spec fn parsed_events(
    text: Seq<char>,
    strikethrough: bool,
    tables: bool,
    tasklists: bool,
) -> Seq<EventView>;

/// `pulldown_cmark::Parser::new_ext`, run to its end: which events come depends on the text and
/// the options alone.
#[verifier::external_body]
fn parse_events(text: &str, strikethrough: bool, tables: bool, tasklists: bool) -> (r: Vec<
    MarkdownEvent,
>)
    ensures
        event_views(r@) == parsed_events(text@, strikethrough, tables, tasklists),
{
    let mut options = pulldown_cmark::Options::empty();
    options.set(pulldown_cmark::Options::ENABLE_STRIKETHROUGH, strikethrough);
    options.set(pulldown_cmark::Options::ENABLE_TABLES, tables);
    options.set(pulldown_cmark::Options::ENABLE_TASKLISTS, tasklists);
    pulldown_cmark::Parser::new_ext(text, options).map(
        |event| match event {
            pulldown_cmark::Event::Html(s) => MarkdownEvent::Html(s.into_string()),
            pulldown_cmark::Event::InlineHtml(s) => MarkdownEvent::InlineHtml(s.into_string()),
            pulldown_cmark::Event::Text(s) => MarkdownEvent::Text(s.into_string()),
            other => MarkdownEvent::Other(other.into_static()),
        },
    ).collect()
}

/// The HTML that `pulldown_cmark::html::push_html` writes for a list of events.
pub uninterp spec fn rendered_events(events: Seq<EventView>) -> Seq<char>;

/// `pulldown_cmark::html::push_html`: what is written depends on the events alone.
#[verifier::external_body]
fn render_events(events: Vec<MarkdownEvent>) -> (r: String)
    ensures
        r@ == rendered_events(event_views(events@)),
{
    let mut out = String::new();
    pulldown_cmark::html::push_html(
        &mut out,
        events.into_iter().map(
            |event| match event {
                MarkdownEvent::Html(s) => pulldown_cmark::Event::Html(s.into()),
                MarkdownEvent::InlineHtml(s) => pulldown_cmark::Event::InlineHtml(s.into()),
                MarkdownEvent::Text(s) => pulldown_cmark::Event::Text(s.into()),
                MarkdownEvent::Other(event) => event,
            },
        ),
    );
    out
}

/// An event with raw HTML taken as text.
pub open spec fn harmless(event: EventView) -> EventView {
    match event {
        EventView::Html(s) => EventView::Text(s),
        EventView::InlineHtml(s) => EventView::Text(s),
        other => other,
    }
}

/// Events with all raw HTML taken as text.
pub open spec fn all_harmless(events: Seq<EventView>) -> Seq<EventView> {
    Seq::new(events.len(), |i: int| harmless(events[i]))
}

/// Takes raw HTML as text, and leaves every other event as it is.
pub fn defuse(events: Vec<MarkdownEvent>) -> (r: Vec<MarkdownEvent>)
    ensures
        event_views(r@) == all_harmless(event_views(events@)),
{
    let ghost given = events@;
    let n: usize = events.len();
    let mut rest: Vec<MarkdownEvent> = reversed(events);
    let mut r: Vec<MarkdownEvent> = Vec::new();
    let mut i: usize = 0;
    assert(given.skip(0) =~= given);
    while i < n
        invariant
            i <= n,
            n == given.len(),
            rest@ == given.skip(i as int).reverse(),
            r@.len() == i,
            forall|k: int| 0 <= k < i ==> (#[trigger] r@[k])@ == harmless(given[k]@),
        decreases n - i,
    {
        let event: MarkdownEvent = take_first(&mut rest, Ghost(given), Ghost(i as int));
        assert(event == given[i as int]);
        let event: MarkdownEvent = match event {
            MarkdownEvent::Html(s) => MarkdownEvent::Text(s),
            MarkdownEvent::InlineHtml(s) => MarkdownEvent::Text(s),
            other => other,
        };
        r.push(event);
        i = i + 1;
    }
    assert(event_views(r@) =~= all_harmless(event_views(given)));
    r
}

/// Converts Markdown to HTML, with strikethrough, tables and task lists. Raw HTML in the source
/// is treated as text, which the renderer escapes.
pub fn markdown_to_html(markdown: &str) -> (r: String)
    ensures
        r@ == rendered_events(all_harmless(parsed_events(markdown@, true, true, true))),
{
    render_events(defuse(parse_events(markdown, true, true, true)))
}

/// No raw HTML reaches the renderer, and what is not raw HTML reaches it unchanged.
pub proof fn law_no_raw_html_is_rendered(events: Seq<EventView>, i: int)
    requires
        0 <= i < events.len(),
    ensures
        all_harmless(events).len() == events.len(),
        !(all_harmless(events)[i] is Html) && !(all_harmless(events)[i] is InlineHtml),
        !(events[i] is Html) && !(events[i] is InlineHtml) ==> all_harmless(events)[i] == events[i],
{
}

/// What raw HTML says is kept, as text.
pub proof fn law_raw_html_is_kept_as_text(events: Seq<EventView>, i: int)
    requires
        0 <= i < events.len(),
    ensures
        events[i] matches EventView::Html(s) ==> all_harmless(events)[i] == EventView::Text(s),
        events[i] matches EventView::InlineHtml(s) ==> all_harmless(events)[i] == EventView::Text(s),
{
}

} // verus!
