//! The document model and page generation.

use vstd::multiset::Multiset;
use vstd::prelude::*;

use crate::date::{date_le, spec_date_le, Date};
use crate::errors::{RenderError, RenderErrorRep};
use crate::strmap::StrMap;

pub mod layout;

pub use layout::Renderer;

verus! {

/// One blog document: parsed metadata and the rendered HTML body.
pub struct Blog {
    /// The source path the document was read from.
    pub id: String,
    pub title: String,
    pub publish_date: Date,
    /// The human-readable form of `publish_date`.
    pub display_date: String,
    pub excerpt: String,
    /// The rendered HTML of the body alone.
    pub html: String,
    /// The URL segment of the document's page; empty by default.
    pub slug: String,
    /// An external URL; a document that has one gets no page of its own.
    pub external: Option<String>,
}

/// The mathematical value of a [`Blog`].
pub struct BlogRep {
    pub id: Seq<char>,
    pub title: Seq<char>,
    pub publish_date: Date,
    pub display_date: Seq<char>,
    pub excerpt: Seq<char>,
    pub html: Seq<char>,
    pub slug: Seq<char>,
    pub external: Option<Seq<char>>,
}

impl View for Blog {
    type V = BlogRep;

    open spec fn view(&self) -> BlogRep {
        BlogRep {
            id: self.id@,
            title: self.title@,
            publish_date: self.publish_date,
            display_date: self.display_date@,
            excerpt: self.excerpt@,
            html: self.html@,
            slug: self.slug@,
            external: match &self.external {
                Some(u) => Some(u@),
                None => None,
            },
        }
    }
}

impl DeepView for Blog {
    type V = BlogRep;

    open spec fn deep_view(&self) -> BlogRep {
        self.view()
    }
}

/// One generated page: its output path and its full content.
pub struct Page {
    pub path: String,
    pub content: String,
}

/// The mathematical value of a [`Page`].
pub struct PageRep {
    pub path: Seq<char>,
    pub content: Seq<char>,
}

impl View for Page {
    type V = PageRep;

    open spec fn view(&self) -> PageRep {
        PageRep { path: self.path@, content: self.content@ }
    }
}

impl DeepView for Page {
    type V = PageRep;

    open spec fn deep_view(&self) -> PageRep {
        self.view()
    }
}

/// `x` inserted into a date-descending list, after every element whose
/// date is at least as recent, so insertion keeps equal dates in their
/// original order.
pub open spec fn insert_desc(s: Seq<BlogRep>, x: BlogRep) -> Seq<BlogRep>
    decreases s.len(),
{
    if s.len() == 0 {
        seq![x]
    } else if spec_date_le(x.publish_date, s.first().publish_date) {
        seq![s.first()] + insert_desc(s.drop_first(), x)
    } else {
        seq![x] + s
    }
}

/// The blogs sorted by publish date, most recent first; a stable
/// insertion sort.
pub open spec fn sort_desc(s: Seq<BlogRep>) -> Seq<BlogRep>
    decreases s.len(),
{
    if s.len() == 0 {
        Seq::empty()
    } else {
        insert_desc(sort_desc(s.drop_last()), s.last())
    }
}

/// Splicing `x` at position `j` — after a prefix of elements at least as
/// recent, before an element strictly older — is what `insert_desc` does.
proof fn lemma_insert_desc_at(s: Seq<BlogRep>, x: BlogRep, j: int)
    requires
        0 <= j <= s.len(),
        forall|t: int| 0 <= t < j ==> spec_date_le(x.publish_date, s[t].publish_date),
        j < s.len() ==> !spec_date_le(x.publish_date, s[j].publish_date),
    ensures
        insert_desc(s, x) == s.take(j) + seq![x] + s.skip(j),
    decreases j,
{
    if j == 0 {
        if s.len() == 0 {
            assert(insert_desc(s, x) =~= s.take(0) + seq![x] + s.skip(0));
        } else {
            assert(insert_desc(s, x) =~= s.take(0) + seq![x] + s.skip(0));
        }
    } else {
        lemma_insert_desc_at(s.drop_first(), x, j - 1);
        assert(s.drop_first().take(j - 1) =~= s.take(j).drop_first());
        assert(s.drop_first().skip(j - 1) =~= s.skip(j));
        assert(insert_desc(s, x) =~= s.take(j) + seq![x] + s.skip(j));
    }
}

/// Sorts blogs by publish date, most recent first, keeping the original
/// order of equal dates.
pub fn sort_blogs(blogs: Vec<Blog>) -> (r: Vec<Blog>)
    ensures
        r.deep_view() == sort_desc(blogs.deep_view()),
        r@.len() == blogs@.len(),
{
    let ghost bdv = blogs.deep_view();
    let mut src = blogs;
    let mut sorted: Vec<Blog> = Vec::new();
    let ghost mut i: int = 0;
    proof {
        assert(bdv.take(0) =~= Seq::<BlogRep>::empty());
    }
    loop
        invariant
            bdv == blogs.deep_view(),
            0 <= i <= bdv.len(),
            src.deep_view() =~= bdv.skip(i),
            src@.len() == bdv.len() - i,
            sorted.deep_view() == sort_desc(bdv.take(i)),
            sorted@.len() == i,
        decreases src.len(),
    {
        if src.len() == 0 {
            proof {
                assert(bdv.take(bdv.len() as int) =~= bdv);
            }
            return sorted;
        }
        let ghost srcdv = src.deep_view();
        proof {
            assert(srcdv[0] == src@[0].deep_view());
            assert(bdv.skip(i)[0] == bdv[i]);
        }
        let b = src.remove(0);
        proof {
            assert(src.deep_view() =~= srcdv.drop_first());
            assert(src.deep_view() =~= bdv.skip(i + 1));
            assert(b.deep_view() == bdv[i]);
        }
        let mut j: usize = 0;
        while j < sorted.len() && date_le(&b.publish_date, &sorted[j].publish_date)
            invariant
                sorted@.len() == sorted.deep_view().len(),
                0 <= j <= sorted@.len(),
                forall|t: int| 0 <= t < j ==> spec_date_le(
                    b@.publish_date,
                    sorted.deep_view()[t].publish_date,
                ),
            decreases sorted@.len() - j,
        {
            proof {
                let jj = j as int;
                assert(sorted.deep_view()[jj].publish_date == sorted@[jj]@.publish_date);
            }
            j = j + 1;
        }
        let ghost sdv = sorted.deep_view();
        proof {
            if (j as int) < sdv.len() {
                assert(sdv[j as int].publish_date == sorted@[j as int]@.publish_date);
            }
            lemma_insert_desc_at(sdv, b@, j as int);
        }
        sorted.insert(j, b);
        proof {
            assert(sorted.deep_view() =~= sdv.take(j as int) + seq![bdv[i]] + sdv.skip(j as int));
            assert(bdv.take(i + 1).drop_last() =~= bdv.take(i));
            assert(bdv.take(i + 1).last() == bdv[i]);
            assert(sorted.deep_view() == sort_desc(bdv.take(i + 1)));
        }
        proof {
            i = i + 1;
        }
    }
}

/// The depth bound a page render starts from.
pub open spec fn page_depth() -> nat {
    layout::LAYOUT_RECURSION_LIMIT as nat
}

/// The link a blurb carries: the document's external URL if it has one,
/// else the local path derived from its slug — the site root for an
/// empty slug.
pub open spec fn spec_link(b: BlogRep) -> Seq<char> {
    match b.external {
        Some(u) => u,
        None => if b.slug.len() == 0 {
            "/"@
        } else {
            "/posts/"@ + b.slug + "/"@
        },
    }
}

/// The argument context a blurb is rendered with.
pub open spec fn blurb_args(b: BlogRep) -> Map<Seq<char>, Seq<char>> {
    Map::empty().insert("title"@, b.title).insert("excerpt"@, b.excerpt).insert(
        "publish_date"@,
        b.display_date,
    ).insert("link"@, spec_link(b))
}

/// One document's blurb: the `blurb` template rendered with the
/// document's title, excerpt, display date and link.
pub open spec fn spec_blurb(b: BlogRep, store: Map<Seq<char>, Seq<char>>) -> Result<
    Seq<char>,
    RenderErrorRep,
> {
    layout::spec_render_named("blurb"@, blurb_args(b), store, page_depth())
}

/// The blurbs of a list of documents, concatenated in order.
pub open spec fn blurbs_concat(blogs: Seq<BlogRep>, store: Map<Seq<char>, Seq<char>>) -> Result<
    Seq<char>,
    RenderErrorRep,
>
    decreases blogs.len(),
{
    if blogs.len() == 0 {
        Ok(Seq::empty())
    } else {
        match spec_blurb(blogs.first(), store) {
            Err(e) => Err(e),
            Ok(s) => match blurbs_concat(blogs.drop_first(), store) {
                Err(e) => Err(e),
                Ok(rest) => Ok(s + rest),
            },
        }
    }
}

/// Converts one document to its blurb fragment.
pub fn blog_to_blurb(b: &Blog, r: &Renderer) -> (res: Result<String, RenderError>)
    ensures
        match res {
            Ok(s) => spec_blurb(b@, r@) == Ok::<_, RenderErrorRep>(s@),
            Err(e) => spec_blurb(b@, r@) == Err::<Seq<char>, _>(e@),
        },
{
    let link = match &b.external {
        Some(u) => u.clone(),
        None => {
            if b.slug.as_str().unicode_len() == 0 {
                String::from_str("/")
            } else {
                let mut l = String::from_str("/posts/");
                l.append(b.slug.as_str());
                l.append("/");
                l
            }
        },
    };
    let mut args = StrMap::new();
    args.insert(String::from_str("title"), b.title.clone());
    args.insert(String::from_str("excerpt"), b.excerpt.clone());
    args.insert(String::from_str("publish_date"), b.display_date.clone());
    args.insert(String::from_str("link"), link);
    r.render_layout("blurb", &args)
}

/// Concatenates the blurbs of the first `count` documents.
fn concat_blurbs(blogs: &Vec<Blog>, count: usize, r: &Renderer) -> (res: Result<
    String,
    RenderError,
>)
    requires
        count <= blogs@.len(),
    ensures
        match res {
            Ok(s) => blurbs_concat(blogs.deep_view().take(count as int), r@) == Ok::<
                _,
                RenderErrorRep,
            >(s@),
            Err(e) => blurbs_concat(blogs.deep_view().take(count as int), r@) == Err::<
                Seq<char>,
                _,
            >(e@),
        },
{
    let ghost target = blogs.deep_view().take(count as int);
    let mut out = String::new();
    let mut k: usize = 0;
    proof {
        assert(target.skip(0) =~= target);
        match blurbs_concat(target, r@) {
            Ok(rest) => {
                assert(Seq::<char>::empty() + rest =~= rest);
            },
            Err(_) => {},
        }
    }
    while k < count
        invariant
            target == blogs.deep_view().take(count as int),
            count <= blogs@.len(),
            blogs@.len() == blogs.deep_view().len(),
            0 <= k <= count,
            blurbs_concat(target, r@) == match blurbs_concat(target.skip(k as int), r@) {
                Ok(rest) => Ok::<_, RenderErrorRep>(out@ + rest),
                Err(e) => Err::<Seq<char>, _>(e),
            },
        decreases count - k,
    {
        proof {
            assert(target.skip(k as int).first() == target[k as int]);
            assert(target[k as int] == blogs.deep_view()[k as int]);
            assert(blogs.deep_view()[k as int] == blogs@[k as int].deep_view());
        }
        let blurb = match blog_to_blurb(&blogs[k], r) {
            Ok(s) => s,
            Err(e) => {
                return Err(e);
            },
        };
        let ghost out0 = out@;
        let ghost bv = blurb@;
        out.append(blurb.as_str());
        proof {
            assert(target.skip(k as int).drop_first() =~= target.skip(k + 1));
            match blurbs_concat(target.skip(k + 1), r@) {
                Ok(rest) => {
                    assert(out0 + (bv + rest) =~= (out0 + bv) + rest);
                },
                Err(_) => {},
            }
        }
        k = k + 1;
    }
    proof {
        assert(target.skip(count as int) =~= Seq::<BlogRep>::empty());
        assert(out@ + Seq::<char>::empty() =~= out@);
    }
    Ok(out)
}

/// The index page and its sitemap entry: the three most recent
/// documents' blurbs, rendered into the `index` template.
pub open spec fn spec_generate_index(
    blogs: Seq<BlogRep>,
    store: Map<Seq<char>, Seq<char>>,
) -> Result<(PageRep, Seq<Seq<char>>), RenderErrorRep> {
    match blurbs_concat(blogs.take(3), store) {
        Err(e) => Err(e),
        Ok(blurbs) => match layout::spec_render_named(
            "index"@,
            Map::empty().insert("latest_posts"@, blurbs),
            store,
            page_depth(),
        ) {
            Err(e) => Err(e),
            Ok(content) => Ok(
                (
                    PageRep { path: "index.html"@, content },
                    seq!["https://jamesholdren.com"@],
                ),
            ),
        },
    }
}

/// Builds the index page from the three most recent documents.
pub fn generate_index(blogs: &Vec<Blog>, r: &Renderer) -> (res: Result<
    (Page, Vec<String>),
    RenderError,
>)
    requires
        blogs@.len() >= 3,
    ensures
        match res {
            Ok(p) => spec_generate_index(blogs.deep_view(), r@) == Ok::<_, RenderErrorRep>(
                (p.0@, p.1.deep_view()),
            ),
            Err(e) => spec_generate_index(blogs.deep_view(), r@) == Err::<
                (PageRep, Seq<Seq<char>>),
                _,
            >(e@),
        },
{
    let blurbs = match concat_blurbs(blogs, 3, r) {
        Ok(s) => s,
        Err(e) => {
            return Err(e);
        },
    };
    let mut args = StrMap::new();
    args.insert(String::from_str("latest_posts"), blurbs);
    let content = match r.render_layout("index", &args) {
        Ok(s) => s,
        Err(e) => {
            return Err(e);
        },
    };
    let mut urls: Vec<String> = Vec::new();
    urls.push(String::from_str("https://jamesholdren.com"));
    proof {
        assert(urls.deep_view() =~= seq!["https://jamesholdren.com"@]);
    }
    Ok((Page { path: String::from_str("index.html"), content }, urls))
}

/// The argument context a dedicated post page is rendered with.
pub open spec fn post_args(b: BlogRep) -> Map<Seq<char>, Seq<char>> {
    Map::empty().insert("title"@, b.title).insert("description"@, b.excerpt).insert(
        "publish_date"@,
        b.display_date,
    ).insert("contents"@, b.html)
}

/// The dedicated pages of every document without an external link, with
/// their sitemap entries, in document order.
pub open spec fn post_pages(blogs: Seq<BlogRep>, store: Map<Seq<char>, Seq<char>>) -> Result<
    (Seq<PageRep>, Seq<Seq<char>>),
    RenderErrorRep,
>
    decreases blogs.len(),
{
    if blogs.len() == 0 {
        Ok((Seq::empty(), Seq::empty()))
    } else {
        let b = blogs.first();
        match b.external {
            Some(_) => post_pages(blogs.drop_first(), store),
            None => match layout::spec_render_named("post"@, post_args(b), store, page_depth()) {
                Err(e) => Err(e),
                Ok(content) => match post_pages(blogs.drop_first(), store) {
                    Err(e) => Err(e),
                    Ok(rest) => Ok(
                        (
                            seq![
                                PageRep {
                                    path: "posts/"@ + b.slug + "/index.html"@,
                                    content,
                                },
                            ] + rest.0,
                            seq!["https://jamesholdren.com/posts/"@ + b.slug + "/"@] + rest.1,
                        ),
                    ),
                },
            },
        }
    }
}

/// The all-posts listing page, the dedicated post pages, and their
/// sitemap entries.
pub open spec fn spec_generate_all_posts(
    blogs: Seq<BlogRep>,
    store: Map<Seq<char>, Seq<char>>,
) -> Result<(Seq<PageRep>, Seq<Seq<char>>), RenderErrorRep> {
    match blurbs_concat(blogs, store) {
        Err(e) => Err(e),
        Ok(blurbs) => match layout::spec_render_named(
            "all_posts"@,
            Map::empty().insert("posts"@, blurbs).insert("posts_selected"@, "true"@),
            store,
            page_depth(),
        ) {
            Err(e) => Err(e),
            Ok(listing) => match post_pages(blogs, store) {
                Err(e) => Err(e),
                Ok(rest) => Ok(
                    (
                        seq![PageRep { path: "posts/index.html"@, content: listing }] + rest.0,
                        seq!["https://jamesholdren.com/posts/"@] + rest.1,
                    ),
                ),
            },
        },
    }
}

/// Builds the all-posts listing page and a dedicated page per document
/// without an external link.
pub fn generate_all_posts(blogs: &Vec<Blog>, r: &Renderer) -> (res: Result<
    (Vec<Page>, Vec<String>),
    RenderError,
>)
    ensures
        match res {
            Ok(p) => spec_generate_all_posts(blogs.deep_view(), r@) == Ok::<_, RenderErrorRep>(
                (p.0.deep_view(), p.1.deep_view()),
            ),
            Err(e) => spec_generate_all_posts(blogs.deep_view(), r@) == Err::<
                (Seq<PageRep>, Seq<Seq<char>>),
                _,
            >(e@),
        },
{
    let ghost bdv = blogs.deep_view();
    let n = blogs.len();
    proof {
        assert(bdv.take(n as int) =~= bdv);
    }
    let blurbs = match concat_blurbs(blogs, n, r) {
        Ok(s) => s,
        Err(e) => {
            return Err(e);
        },
    };
    let mut args = StrMap::new();
    args.insert(String::from_str("posts"), blurbs);
    args.insert(String::from_str("posts_selected"), String::from_str("true"));
    let listing = match r.render_layout("all_posts", &args) {
        Ok(s) => s,
        Err(e) => {
            return Err(e);
        },
    };
    let ghost listing_v = listing@;
    let mut pages: Vec<Page> = Vec::new();
    pages.push(Page { path: String::from_str("posts/index.html"), content: listing });
    let mut urls: Vec<String> = Vec::new();
    urls.push(String::from_str("https://jamesholdren.com/posts/"));
    let ghost pages0 = pages.deep_view();
    let ghost urls0 = urls.deep_view();
    proof {
        assert(pages0 =~= seq![PageRep { path: "posts/index.html"@, content: listing_v }]);
        assert(urls0 =~= seq!["https://jamesholdren.com/posts/"@]);
    }
    let mut k: usize = 0;
    proof {
        assert(bdv.skip(0) =~= bdv);
    }
    while k < n
        invariant
            bdv == blogs.deep_view(),
            n == blogs@.len(),
            blogs@.len() == bdv.len(),
            0 <= k <= n,
            spec_generate_all_posts(bdv, r@) == match post_pages(bdv, r@) {
                Ok(rest) => Ok::<_, RenderErrorRep>(
                    (pages0 + rest.0, urls0 + rest.1),
                ),
                Err(e) => Err::<(Seq<PageRep>, Seq<Seq<char>>), _>(e),
            },
            ({
                let whole = post_pages(bdv, r@);
                let rest = post_pages(bdv.skip(k as int), r@);
                match rest {
                    Ok(rp) => whole matches Ok(wp) && pages.deep_view() + rp.0 =~= pages0 + wp.0
                        && urls.deep_view() + rp.1 =~= urls0 + wp.1,
                    Err(e) => whole == Err::<(Seq<PageRep>, Seq<Seq<char>>), RenderErrorRep>(e),
                }
            }),
        decreases n - k,
    {
        proof {
            assert(bdv.skip(k as int).first() == bdv[k as int]);
            assert(bdv[k as int] == blogs@[k as int].deep_view());
            assert(bdv.skip(k as int).drop_first() =~= bdv.skip(k + 1));
        }
        match &blogs[k].external {
            Some(_) => {},
            None => {
                let b = &blogs[k];
                let mut pargs = StrMap::new();
                pargs.insert(String::from_str("title"), b.title.clone());
                pargs.insert(String::from_str("description"), b.excerpt.clone());
                pargs.insert(String::from_str("publish_date"), b.display_date.clone());
                pargs.insert(String::from_str("contents"), b.html.clone());
                let content = match r.render_layout("post", &pargs) {
                    Ok(s) => s,
                    Err(e) => {
                        return Err(e);
                    },
                };
                let mut path = String::from_str("posts/");
                path.append(b.slug.as_str());
                path.append("/index.html");
                let mut url = String::from_str("https://jamesholdren.com/posts/");
                url.append(b.slug.as_str());
                url.append("/");
                let ghost pagesk = pages.deep_view();
                let ghost urlsk = urls.deep_view();
                let ghost pv = PageRep { path: path@, content: content@ };
                let ghost uv = url@;
                pages.push(Page { path, content });
                urls.push(url);
                proof {
                    assert(pages.deep_view() =~= pagesk + seq![pv]);
                    assert(urls.deep_view() =~= urlsk + seq![uv]);
                    match post_pages(bdv.skip(k + 1), r@) {
                        Ok(rp2) => {
                            assert(pagesk + (seq![pv] + rp2.0) =~= (pagesk + seq![pv]) + rp2.0);
                            assert(urlsk + (seq![uv] + rp2.1) =~= (urlsk + seq![uv]) + rp2.1);
                        },
                        Err(_) => {},
                    }
                }
            },
        }
        k = k + 1;
    }
    proof {
        assert(bdv.skip(n as int) =~= Seq::<BlogRep>::empty());
        match post_pages(bdv, r@) {
            Ok(wp) => {
                assert(pages.deep_view() + Seq::<PageRep>::empty() =~= pages.deep_view());
                assert(urls.deep_view() + Seq::<Seq<char>>::empty() =~= urls.deep_view());
            },
            Err(_) => {},
        }
    }
    Ok((pages, urls))
}

/// The sitemap text: one absolute URL per line, in generation order.
pub open spec fn sitemap_text(urls: Seq<Seq<char>>) -> Seq<char>
    decreases urls.len(),
{
    if urls.len() == 0 {
        Seq::empty()
    } else {
        urls.first() + "\n"@ + sitemap_text(urls.drop_first())
    }
}

/// Serializes the recorded page URLs as newline-delimited plain text.
pub fn generate_sitemap(page_list: Vec<String>) -> (r: String)
    ensures
        r@ == sitemap_text(page_list.deep_view()),
{
    let ghost udv = page_list.deep_view();
    let mut out = String::new();
    let mut k: usize = 0;
    proof {
        assert(udv.skip(0) =~= udv);
        assert(Seq::<char>::empty() + sitemap_text(udv) =~= sitemap_text(udv));
    }
    while k < page_list.len()
        invariant
            udv == page_list.deep_view(),
            0 <= k <= page_list@.len(),
            page_list@.len() == udv.len(),
            sitemap_text(udv) == out@ + sitemap_text(udv.skip(k as int)),
        decreases page_list@.len() - k,
    {
        proof {
            assert(udv.skip(k as int).first() == udv[k as int]);
            assert(udv[k as int] == page_list@[k as int]@);
            assert(udv.skip(k as int).drop_first() =~= udv.skip(k + 1));
        }
        let ghost out0 = out@;
        out.append(page_list[k].as_str());
        out.append("\n");
        proof {
            assert(out@ =~= out0 + (udv[k as int] + "\n"@));
            assert(out0 + ((udv[k as int] + "\n"@) + sitemap_text(udv.skip(k + 1))) =~= (out0 + (
            udv[k as int] + "\n"@)) + sitemap_text(udv.skip(k + 1)));
        }
        k = k + 1;
    }
    proof {
        assert(udv.skip(udv.len() as int) =~= Seq::<Seq<char>>::empty());
        assert(out@ + Seq::<char>::empty() =~= out@);
    }
    out
}

/// Every page of one generation run: the index, the all-posts listing, a
/// page per document without an external link, and the sitemap, built
/// from the documents sorted by publish date, most recent first.
pub open spec fn spec_generate_all(blogs: Seq<BlogRep>, store: Map<Seq<char>, Seq<char>>) -> Result<
    Seq<PageRep>,
    RenderErrorRep,
> {
    let sorted = sort_desc(blogs);
    match spec_generate_index(sorted, store) {
        Err(e) => Err(e),
        Ok(index) => match spec_generate_all_posts(sorted, store) {
            Err(e) => Err(e),
            Ok(rest) => Ok(
                seq![index.0] + rest.0 + seq![
                    PageRep {
                        path: "sitemap.txt"@,
                        content: sitemap_text(index.1 + rest.1),
                    },
                ],
            ),
        },
    }
}

/// Runs one whole generation: sorts the documents by date, renders the
/// index from the three most recent, the listing and the per-document
/// pages, and records every page's URL in the sitemap, in generation
/// order.
pub fn generate_all(blogs: Vec<Blog>, renderer: Renderer) -> (res: Result<Vec<Page>, RenderError>)
    requires
        blogs@.len() >= 3,
    ensures
        match res {
            Ok(p) => spec_generate_all(blogs.deep_view(), renderer@) == Ok::<_, RenderErrorRep>(
                p.deep_view(),
            ),
            Err(e) => spec_generate_all(blogs.deep_view(), renderer@) == Err::<Seq<PageRep>, _>(
                e@,
            ),
        },
{
    let ghost bdv = blogs.deep_view();
    let sorted = sort_blogs(blogs);
    let (index_page, index_urls) = match generate_index(&sorted, &renderer) {
        Ok(p) => p,
        Err(e) => {
            return Err(e);
        },
    };
    let (post_page_list, post_urls) = match generate_all_posts(&sorted, &renderer) {
        Ok(p) => p,
        Err(e) => {
            return Err(e);
        },
    };
    let ghost ipv = index_page@;
    let ghost ppdv = post_page_list.deep_view();
    let mut pages: Vec<Page> = Vec::new();
    pages.push(index_page);
    let mut rest = post_page_list;
    pages.append(&mut rest);
    let mut urls = index_urls;
    let ghost iudv = urls.deep_view();
    let ghost pudv = post_urls.deep_view();
    let mut purls = post_urls;
    urls.append(&mut purls);
    proof {
        assert(urls.deep_view() =~= iudv + pudv);
    }
    let content = generate_sitemap(urls);
    let ghost sv = content@;
    pages.push(Page { path: String::from_str("sitemap.txt"), content });
    proof {
        assert(pages.deep_view() =~= seq![ipv] + ppdv + seq![
            PageRep { path: "sitemap.txt"@, content: sv },
        ]);
    }
    Ok(pages)
}

/// Date-descending order: every later element is no more recent.
pub open spec fn sorted_by_date_desc(s: Seq<BlogRep>) -> bool {
    forall|i: int, j: int|
        0 <= i < j < s.len() ==> spec_date_le(s[j].publish_date, s[i].publish_date)
}

proof fn lemma_cons_multiset(a: BlogRep, t: Seq<BlogRep>)
    ensures
        (seq![a] + t).to_multiset() =~= t.to_multiset().insert(a),
{
    broadcast use vstd::seq_lib::group_to_multiset_ensures;

    let u = seq![a] + t;
    assert(u.remove(0) =~= t);
    assert(u[0] == a);
    assert(u.contains(a));
    assert(u.to_multiset().count(a) > 0);
    assert(u.remove(0).to_multiset() =~= u.to_multiset().remove(a));
}

proof fn lemma_empty_multiset()
    ensures
        Seq::<BlogRep>::empty().to_multiset() =~= Multiset::<BlogRep>::empty(),
{
    broadcast use vstd::seq_lib::group_to_multiset_ensures;

    let e = Seq::<BlogRep>::empty();
    assert forall|x: BlogRep| e.to_multiset().count(x) == 0 by {
        assert(!e.contains(x));
    }
}

proof fn lemma_insert_desc_multiset(s: Seq<BlogRep>, x: BlogRep)
    ensures
        insert_desc(s, x).to_multiset() =~= s.to_multiset().insert(x),
    decreases s.len(),
{
    broadcast use vstd::multiset::group_multiset_axioms;
    broadcast use vstd::multiset::group_multiset_properties;

    if s.len() == 0 {
        lemma_empty_multiset();
        assert(s =~= Seq::<BlogRep>::empty());
        assert(seq![x] =~= seq![x] + Seq::<BlogRep>::empty());
        lemma_cons_multiset(x, Seq::<BlogRep>::empty());
        assert(insert_desc(s, x).to_multiset() =~= s.to_multiset().insert(x));
    } else if spec_date_le(x.publish_date, s.first().publish_date) {
        lemma_insert_desc_multiset(s.drop_first(), x);
        lemma_cons_multiset(s.first(), insert_desc(s.drop_first(), x));
        assert(s =~= seq![s.first()] + s.drop_first());
        lemma_cons_multiset(s.first(), s.drop_first());
        assert(insert_desc(s, x) == seq![s.first()] + insert_desc(s.drop_first(), x));
        assert(insert_desc(s, x).to_multiset() =~= insert_desc(
            s.drop_first(),
            x,
        ).to_multiset().insert(s.first()));
        assert(insert_desc(s.drop_first(), x).to_multiset() =~= s.drop_first().to_multiset().insert(
            x,
        ));
        assert(s.to_multiset() =~= s.drop_first().to_multiset().insert(s.first()));
        assert(insert_desc(s, x).to_multiset() =~= s.to_multiset().insert(x));
    } else {
        lemma_cons_multiset(x, s);
        assert(insert_desc(s, x) == seq![x] + s);
        assert(insert_desc(s, x).to_multiset() =~= s.to_multiset().insert(x));
    }
}

/// Sorting is a permutation: the sorted list holds exactly the given
/// documents.
pub proof fn lemma_sort_desc_multiset(s: Seq<BlogRep>)
    ensures
        sort_desc(s).to_multiset() =~= s.to_multiset(),
    decreases s.len(),
{
    broadcast use vstd::seq_lib::group_to_multiset_ensures;

    if s.len() > 0 {
        lemma_sort_desc_multiset(s.drop_last());
        lemma_insert_desc_multiset(sort_desc(s.drop_last()), s.last());
        assert(s =~= s.drop_last().push(s.last()));
    } else {
        assert(sort_desc(s) =~= s);
    }
}

proof fn lemma_insert_desc_elems(s: Seq<BlogRep>, x: BlogRep)
    ensures
        forall|k: int|
            0 <= k < insert_desc(s, x).len() ==> (insert_desc(s, x)[k] == x || s.contains(
                insert_desc(s, x)[k],
            )),
    decreases s.len(),
{
    if s.len() == 0 {
    } else if spec_date_le(x.publish_date, s.first().publish_date) {
        lemma_insert_desc_elems(s.drop_first(), x);
        let r = insert_desc(s, x);
        let rr = insert_desc(s.drop_first(), x);
        assert forall|k: int| 0 <= k < r.len() implies (r[k] == x || s.contains(r[k])) by {
            if k == 0 {
                assert(r[0] == s.first());
                assert(s.contains(s.first()));
            } else {
                assert(r[k] == rr[k - 1]);
                if rr[k - 1] != x {
                    let t = choose|t: int| 0 <= t < s.drop_first().len() && s.drop_first()[t]
                        == rr[k - 1];
                    assert(s[t + 1] == rr[k - 1]);
                }
            }
        }
    } else {
        let r = insert_desc(s, x);
        assert forall|k: int| 0 <= k < r.len() implies (r[k] == x || s.contains(r[k])) by {
            if k > 0 {
                assert(r[k] == s[k - 1]);
            }
        }
    }
}

proof fn lemma_insert_desc_sorted(s: Seq<BlogRep>, x: BlogRep)
    requires
        sorted_by_date_desc(s),
    ensures
        sorted_by_date_desc(insert_desc(s, x)),
    decreases s.len(),
{
    if s.len() == 0 {
    } else if spec_date_le(x.publish_date, s.first().publish_date) {
        assert(sorted_by_date_desc(s.drop_first())) by {
            assert forall|i: int, j: int|
                0 <= i < j < s.drop_first().len() implies spec_date_le(
                s.drop_first()[j].publish_date,
                s.drop_first()[i].publish_date,
            ) by {
                assert(s.drop_first()[i] == s[i + 1]);
                assert(s.drop_first()[j] == s[j + 1]);
            }
        }
        lemma_insert_desc_sorted(s.drop_first(), x);
        lemma_insert_desc_elems(s.drop_first(), x);
        let r = insert_desc(s, x);
        let rr = insert_desc(s.drop_first(), x);
        assert forall|i: int, j: int| 0 <= i < j < r.len() implies spec_date_le(
            r[j].publish_date,
            r[i].publish_date,
        ) by {
            if i == 0 {
                assert(r[0] == s.first());
                assert(r[j] == rr[j - 1]);
                if rr[j - 1] == x {
                } else {
                    let t = choose|t: int| 0 <= t < s.drop_first().len() && s.drop_first()[t]
                        == rr[j - 1];
                    assert(s[t + 1] == rr[j - 1]);
                    assert(spec_date_le(s[t + 1].publish_date, s[0].publish_date));
                }
            } else {
                assert(r[i] == rr[i - 1]);
                assert(r[j] == rr[j - 1]);
            }
        }
    } else {
        let r = insert_desc(s, x);
        assert forall|i: int, j: int| 0 <= i < j < r.len() implies spec_date_le(
            r[j].publish_date,
            r[i].publish_date,
        ) by {
            if i == 0 {
                assert(r[0] == x);
                assert(r[j] == s[j - 1]);
                if j - 1 == 0 {
                } else {
                    assert(spec_date_le(s[j - 1].publish_date, s[0].publish_date));
                }
            } else {
                assert(r[i] == s[i - 1]);
                assert(r[j] == s[j - 1]);
            }
        }
    }
}

/// The document collection is fully ordered before any page is built:
/// sorting yields a date-descending list, so the "latest" prefixes and
/// the chronological listing read off it directly.
pub proof fn lemma_sort_desc_sorted(s: Seq<BlogRep>)
    ensures
        sorted_by_date_desc(sort_desc(s)),
    decreases s.len(),
{
    if s.len() > 0 {
        lemma_sort_desc_sorted(s.drop_last());
        lemma_insert_desc_sorted(sort_desc(s.drop_last()), s.last());
    }
}

/// One generation run is a pure function of the documents and the
/// template store: every verified step's contract pins its result to
/// these functions, and what the outside calls return is itself a
/// function of their inputs, so running generation twice on unchanged
/// input produces byte-identical output.
pub proof fn lemma_generation_deterministic(
    blogs_a: Seq<BlogRep>,
    blogs_b: Seq<BlogRep>,
    store_a: Map<Seq<char>, Seq<char>>,
    store_b: Map<Seq<char>, Seq<char>>,
)
    requires
        blogs_a == blogs_b,
        store_a == store_b,
    ensures
        spec_generate_all(blogs_a, store_a) == spec_generate_all(blogs_b, store_b),
{
}

} // verus!
