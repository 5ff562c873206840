//! Building a document from a markdown source file: frontmatter
//! extraction, metadata validation, and body rendering.
//!
//! A document needs `title`, `publishDate` and `excerpt`; a missing key
//! fails construction naming that key.  `publishDate` is parsed strictly
//! as an ISO `YYYY-MM-DD` calendar date, with no lenient fallback, and a
//! fixed human-readable display form is derived from it.  `slug` defaults
//! to the empty string; `external`, when present, marks the document as
//! needing no page of its own.  Every failure carries the source path.

use vstd::prelude::*;

use crate::date::{date_valid, parse_iso_date, spec_display_date, spec_parse_date, display_date, Date};
use crate::errors::{DocError, DocErrorRep};
use crate::events::{events_of, parse_events, EventRep, MdEvent};
use crate::frontmatter::{fm_parse, parse_frontmatter};
use crate::markdown::{body_html, render_body};
use crate::pages::{Blog, BlogRep};
use crate::strmap::StrMap;

verus! {

/// The validated metadata of one document.
pub struct Meta {
    pub title: String,
    pub publish_date: Date,
    pub display_date: String,
    pub excerpt: String,
    pub slug: String,
    pub external: Option<String>,
}

/// The mathematical value of a [`Meta`].
pub struct MetaRep {
    pub title: Seq<char>,
    pub publish_date: Date,
    pub display_date: Seq<char>,
    pub excerpt: Seq<char>,
    pub slug: Seq<char>,
    pub external: Option<Seq<char>>,
}

impl View for Meta {
    type V = MetaRep;

    open spec fn view(&self) -> MetaRep {
        MetaRep {
            title: self.title@,
            publish_date: self.publish_date,
            display_date: self.display_date@,
            excerpt: self.excerpt@,
            slug: self.slug@,
            external: match &self.external {
                Some(u) => Some(u@),
                None => None,
            },
        }
    }
}

/// A failure while validating frontmatter metadata.
#[derive(Debug)]
pub enum MetaError {
    /// A required key is absent; the field names it.
    MissingField(String),
    /// The publish date is not a well-formed calendar date.
    BadDate,
}

/// The mathematical value of a [`MetaError`].
pub enum MetaErrorRep {
    MissingField(Seq<char>),
    BadDate,
}

impl View for MetaError {
    type V = MetaErrorRep;

    open spec fn view(&self) -> MetaErrorRep {
        match self {
            MetaError::MissingField(k) => MetaErrorRep::MissingField(k@),
            MetaError::BadDate => MetaErrorRep::BadDate,
        }
    }
}

/// The metadata a frontmatter mapping denotes: the three required keys,
/// a strictly parsed date with its display form, and the two optional
/// keys with their defaults.  Required keys are checked in the order
/// `title`, `publishDate`, `excerpt`.
pub open spec fn spec_meta(fm: Map<Seq<char>, Seq<char>>) -> Result<MetaRep, MetaErrorRep> {
    if !fm.contains_key("title"@) {
        Err(MetaErrorRep::MissingField("title"@))
    } else if !fm.contains_key("publishDate"@) {
        Err(MetaErrorRep::MissingField("publishDate"@))
    } else if !fm.contains_key("excerpt"@) {
        Err(MetaErrorRep::MissingField("excerpt"@))
    } else {
        match spec_parse_date(fm["publishDate"@]) {
            None => Err(MetaErrorRep::BadDate),
            Some(d) => Ok(
                MetaRep {
                    title: fm["title"@],
                    publish_date: d,
                    display_date: spec_display_date(d),
                    excerpt: fm["excerpt"@],
                    slug: if fm.contains_key("slug"@) {
                        fm["slug"@]
                    } else {
                        Seq::empty()
                    },
                    external: if fm.contains_key("external"@) {
                        Some(fm["external"@])
                    } else {
                        None
                    },
                },
            ),
        }
    }
}

/// Validates a frontmatter mapping into document metadata.
pub fn frontmatter_to_meta(fm: &StrMap) -> (r: Result<Meta, MetaError>)
    ensures
        match r {
            Ok(m) => spec_meta(fm@) == Ok::<_, MetaErrorRep>(m@),
            Err(e) => spec_meta(fm@) == Err::<MetaRep, _>(e@),
        },
{
    let title = match fm.get("title") {
        Some(v) => v.clone(),
        None => {
            return Err(MetaError::MissingField(String::from_str("title")));
        },
    };
    let publish_date_str = match fm.get("publishDate") {
        Some(v) => v.clone(),
        None => {
            return Err(MetaError::MissingField(String::from_str("publishDate")));
        },
    };
    let excerpt = match fm.get("excerpt") {
        Some(v) => v.clone(),
        None => {
            return Err(MetaError::MissingField(String::from_str("excerpt")));
        },
    };
    let publish_date = match parse_iso_date(publish_date_str.as_str()) {
        Some(d) => d,
        None => {
            return Err(MetaError::BadDate);
        },
    };
    assert(date_valid(publish_date));
    let display = display_date(&publish_date);
    let slug = match fm.get("slug") {
        Some(v) => v.clone(),
        None => String::new(),
    };
    let external = match fm.get("external") {
        Some(v) => Some(v.clone()),
        None => None,
    };
    Ok(
        Meta {
            title,
            publish_date,
            display_date: display,
            excerpt,
            slug,
            external,
        },
    )
}

/// The document that an event stream denotes, with `id` as its source
/// path: frontmatter, then metadata, then the rendered body.
pub open spec fn doc_result(id: Seq<char>, evs: Seq<EventRep>) -> Result<BlogRep, DocErrorRep> {
    match fm_parse(evs) {
        Err(_) => Err(DocErrorRep::MalformedFrontmatter { path: id }),
        Ok(p) => match spec_meta(p.0) {
            Err(MetaErrorRep::MissingField(k)) => Err(
                DocErrorRep::MissingFrontmatterField { path: id, key: k },
            ),
            Err(MetaErrorRep::BadDate) => Err(DocErrorRep::MalformedFrontmatter { path: id }),
            Ok(meta) => match body_html(p.1) {
                Err(m) => Err(DocErrorRep::HighlightFailed { message: m }),
                Ok(html) => Ok(
                    BlogRep {
                        id,
                        title: meta.title,
                        publish_date: meta.publish_date,
                        display_date: meta.display_date,
                        excerpt: meta.excerpt,
                        html,
                        slug: meta.slug,
                        external: meta.external,
                    },
                ),
            },
        },
    }
}

/// The document that a raw markdown text denotes.
pub open spec fn spec_render_blog(id: Seq<char>, text: Seq<char>) -> Result<BlogRep, DocErrorRep> {
    doc_result(id, events_of(text))
}

/// Builds a document from its source path and parsed event stream.
pub fn build_document(blog_name: String, events: Vec<MdEvent>) -> (r: Result<Blog, DocError>)
    ensures
        match r {
            Ok(b) => doc_result(blog_name@, events.deep_view()) == Ok::<_, DocErrorRep>(b@),
            Err(e) => doc_result(blog_name@, events.deep_view()) == Err::<BlogRep, _>(e@),
        },
{
    let (fm, rest) = match parse_frontmatter(events) {
        Ok(p) => p,
        Err(_) => {
            return Err(DocError::MalformedFrontmatter { path: blog_name });
        },
    };
    let meta = match frontmatter_to_meta(&fm) {
        Ok(m) => m,
        Err(MetaError::MissingField(k)) => {
            return Err(DocError::MissingFrontmatterField { path: blog_name, key: k });
        },
        Err(MetaError::BadDate) => {
            return Err(DocError::MalformedFrontmatter { path: blog_name });
        },
    };
    let html = match render_body(rest) {
        Ok(h) => h,
        Err(m) => {
            return Err(DocError::HighlightFailed { message: m });
        },
    };
    Ok(
        Blog {
            id: blog_name,
            title: meta.title,
            publish_date: meta.publish_date,
            display_date: meta.display_date,
            excerpt: meta.excerpt,
            html,
            slug: meta.slug,
            external: meta.external,
        },
    )
}

/// Parses one markdown source file into a document: frontmatter and
/// metadata first, then the body rendered to HTML with fenced code
/// blocks highlighted.
pub fn render_blog(blog_name: String, contents: String) -> (r: Result<Blog, DocError>)
    ensures
        match r {
            Ok(b) => spec_render_blog(blog_name@, contents@) == Ok::<_, DocErrorRep>(b@),
            Err(e) => spec_render_blog(blog_name@, contents@) == Err::<BlogRep, _>(e@),
        },
{
    let events = parse_events(contents.as_str());
    build_document(blog_name, events)
}

} // verus!
