//! The generation pass: pages for the documents, then the entry module that
//! imports, routes and links them.

use vstd::prelude::*;
use crate::discovery::{document_slug, slug_of};
use crate::page::{make_react_md_page, module_name, page_module_name, page_text};
use crate::lang::{english, kebab_to_english};
use crate::route::{get_actual_md_route_path, home_slug, route_path};
use crate::template::{replaced, replace_all};
use crate::text::str_equal;

verus! {

/// A document found in the input directory.
pub struct SourceDocument {
    pub path: String,
    pub content: String,
}

/// The page module made for one document.
pub struct GeneratedPage {
    pub id: usize,
    pub module_name: String,
    pub slug: String,
    pub text: String,
}

/// `p` is the page made for document `d` at position `i` of the discovery.
pub open spec fn page_for(p: GeneratedPage, d: SourceDocument, page_template: Seq<char>, i: int) -> bool {
    &&& p.id == i
    &&& p.module_name@ == module_name(i as nat)
    &&& p.slug@ == slug_of(d.path@)
    &&& p.text@ == page_text(page_template, d.path@, d.content@, i as nat)
}

/// `ps` holds one page per document of `ds`, in discovery order.
pub open spec fn pages_for(ps: Seq<GeneratedPage>, ds: Seq<SourceDocument>, page_template: Seq<char>) -> bool {
    &&& ps.len() == ds.len()
    &&& forall|i: int| 0 <= i < ps.len() ==> page_for(#[trigger] ps[i], ds[i], page_template, i)
}

/// Makes the page module of every document, numbering them from 0 in order.
pub fn generate_pages(docs: &Vec<SourceDocument>, page_template: &str) -> (r: Vec<GeneratedPage>)
    ensures
        pages_for(r@, docs@, page_template@),
        forall|i: int, j: int| 0 <= i < j < r@.len() ==> r@[i].id < r@[j].id,
{
    let mut out: Vec<GeneratedPage> = Vec::new();
    let mut i: usize = 0;
    while i < docs.len()
        invariant
            i <= docs@.len(),
            out@.len() == i,
            forall|k: int| 0 <= k < i ==> page_for(#[trigger] out@[k], docs@[k], page_template@, k),
        decreases docs@.len() - i,
    {
        let d = &docs[i];
        let page = GeneratedPage {
            id: i,
            module_name: page_module_name(i),
            slug: document_slug(d.path.as_str()),
            text: make_react_md_page(d.path.as_str(), d.content.as_str(), i, page_template),
        };
        out.push(page);
        i = i + 1;
    }
    out
}

/// No two pages share a slug.
pub open spec fn slugs_distinct(ps: Seq<GeneratedPage>) -> bool {
    forall|i: int, j: int| 0 <= i < j < ps.len() ==> ps[i].slug@ != ps[j].slug@
}

/// The first pair of pages, by the later one's position, that share a slug.
pub fn find_duplicate_slug(pages: &Vec<GeneratedPage>) -> (r: Option<(usize, usize)>)
    ensures
        r is None <==> slugs_distinct(pages@),
        r matches Some((i, j)) ==> i < j < pages@.len() && pages@[i as int].slug@
            == pages@[j as int].slug@,
        r matches Some((i, j)) ==> forall|a: int, b: int|
            0 <= a < b < j ==> pages@[a].slug@ != pages@[b].slug@,
        r matches Some((i, j)) ==> forall|a: int|
            0 <= a < i ==> pages@[a].slug@ != pages@[j as int].slug@,
{
    let mut j: usize = 0;
    while j < pages.len()
        invariant
            j <= pages@.len(),
            forall|a: int, b: int| 0 <= a < b < j ==> pages@[a].slug@ != pages@[b].slug@,
        decreases pages@.len() - j,
    {
        let mut i: usize = 0;
        while i < j
            invariant
                i <= j < pages@.len(),
                forall|a: int, b: int| 0 <= a < b < j ==> pages@[a].slug@ != pages@[b].slug@,
                forall|a: int| 0 <= a < i ==> pages@[a].slug@ != pages@[j as int].slug@,
            decreases j - i,
        {
            if str_equal(pages[i].slug.as_str(), pages[j].slug.as_str()) {
                return Some((i, j));
            }
            i = i + 1;
        }
        j = j + 1;
    }
    None
}

/// The import statement of one page module.
pub open spec fn import_line(m: Seq<char>) -> Seq<char> {
    "import "@ + m + " from \"./pages/"@ + m + ".jsx\";"@
}

/// The route record that serves page module `m` for slug `slug`.
pub open spec fn route_line(slug: Seq<char>, m: Seq<char>) -> Seq<char> {
    "{path: \""@ + route_path(slug) + "\", element: <"@ + m + " />},"@
}

/// The navigation label of a slug: `Home` for the home document, else the
/// display label of its route path.
pub open spec fn nav_label(slug: Seq<char>) -> Seq<char> {
    if slug == home_slug() {
        "Home"@
    } else {
        english(route_path(slug))
    }
}

/// Where the navigation link of a slug points: the site root for the home
/// document, else the route path under the root.
pub open spec fn link_target(slug: Seq<char>) -> Seq<char> {
    if slug == home_slug() {
        "/"@
    } else {
        "/"@ + route_path(slug)
    }
}

/// The navigation link of a slug.
pub open spec fn link_line(slug: Seq<char>) -> Seq<char> {
    "<Link noHighlight href=\""@ + link_target(slug) + "\">"@ + nav_label(slug) + "</Link>"@
}

/// The import block: one statement per page, in order.
pub open spec fn imports_of(ps: Seq<GeneratedPage>) -> Seq<char>
    decreases ps.len(),
{
    if ps.len() == 0 {
        Seq::empty()
    } else {
        imports_of(ps.drop_last()) + import_line(ps.last().module_name@)
    }
}

/// The route block: one record per page, in order.
pub open spec fn routes_of(ps: Seq<GeneratedPage>) -> Seq<char>
    decreases ps.len(),
{
    if ps.len() == 0 {
        Seq::empty()
    } else {
        routes_of(ps.drop_last()) + route_line(ps.last().slug@, ps.last().module_name@)
    }
}

/// The navigation block: one link per page, in order.
pub open spec fn links_of(ps: Seq<GeneratedPage>) -> Seq<char>
    decreases ps.len(),
{
    if ps.len() == 0 {
        Seq::empty()
    } else {
        links_of(ps.drop_last()) + link_line(ps.last().slug@)
    }
}

/// The entry module: the template with imports, configuration, routes and
/// navigation links put in, in that order.
pub open spec fn entry_text(main_template: Seq<char>, ps: Seq<GeneratedPage>, config_json: Seq<char>) -> Seq<char> {
    replaced(
        replaced(
            replaced(replaced(main_template, "$imports"@, imports_of(ps)), "$config"@, config_json),
            "$routes"@,
            routes_of(ps),
        ),
        "$sidebar_links"@,
        links_of(ps),
    )
}

/// The label shown in navigation for a slug.
pub fn navigation_label(slug: &str) -> (r: String)
    ensures
        r@ == nav_label(slug@),
{
    if str_equal(slug, "_home") {
        String::from_str("Home")
    } else {
        let path = get_actual_md_route_path(slug);
        kebab_to_english(path.as_str())
    }
}

/// The import block of the pages.
pub fn imports_block(pages: &Vec<GeneratedPage>) -> (r: String)
    ensures
        r@ == imports_of(pages@),
{
    let mut out = String::new();
    let mut i: usize = 0;
    while i < pages.len()
        invariant
            i <= pages@.len(),
            out@ == imports_of(pages@.subrange(0, i as int)),
        decreases pages@.len() - i,
    {
        assert(pages@.subrange(0, i + 1).drop_last() == pages@.subrange(0, i as int));
        let m = pages[i].module_name.as_str();
        out.append("import ");
        out.append(m);
        out.append(" from \"./pages/");
        out.append(m);
        out.append(".jsx\";");
        i = i + 1;
    }
    assert(pages@.subrange(0, pages@.len() as int) == pages@);
    out
}

/// The route block of the pages.
pub fn routes_block(pages: &Vec<GeneratedPage>) -> (r: String)
    ensures
        r@ == routes_of(pages@),
{
    let mut out = String::new();
    let mut i: usize = 0;
    while i < pages.len()
        invariant
            i <= pages@.len(),
            out@ == routes_of(pages@.subrange(0, i as int)),
        decreases pages@.len() - i,
    {
        assert(pages@.subrange(0, i + 1).drop_last() == pages@.subrange(0, i as int));
        let path = get_actual_md_route_path(pages[i].slug.as_str());
        out.append("{path: \"");
        out.append(path.as_str());
        out.append("\", element: <");
        out.append(pages[i].module_name.as_str());
        out.append(" />},");
        i = i + 1;
    }
    assert(pages@.subrange(0, pages@.len() as int) == pages@);
    out
}

/// The navigation block of the pages.
pub fn links_block(pages: &Vec<GeneratedPage>) -> (r: String)
    ensures
        r@ == links_of(pages@),
{
    let mut out = String::new();
    let mut i: usize = 0;
    while i < pages.len()
        invariant
            i <= pages@.len(),
            out@ == links_of(pages@.subrange(0, i as int)),
        decreases pages@.len() - i,
    {
        assert(pages@.subrange(0, i + 1).drop_last() == pages@.subrange(0, i as int));
        let slug = pages[i].slug.as_str();
        let label = navigation_label(slug);
        out.append("<Link noHighlight href=\"");
        if str_equal(slug, "_home") {
            out.append("/");
        } else {
            let path = get_actual_md_route_path(slug);
            out.append("/");
            out.append(path.as_str());
        }
        out.append("\">");
        out.append(label.as_str());
        out.append("</Link>");
        i = i + 1;
    }
    assert(pages@.subrange(0, pages@.len() as int) == pages@);
    out
}

/// Instantiates the entry-module template for the pages and configuration.
pub fn render_entry_module(main_template: &str, pages: &Vec<GeneratedPage>, config_json: &str) -> (r:
    String)
    ensures
        r@ == entry_text(main_template@, pages@, config_json@),
{
    let imports = imports_block(pages);
    let routes = routes_block(pages);
    let links = links_block(pages);
    let a = replace_all(main_template, "$imports", imports.as_str());
    let b = replace_all(a.as_str(), "$config", config_json);
    let c = replace_all(b.as_str(), "$routes", routes.as_str());
    replace_all(c.as_str(), "$sidebar_links", links.as_str())
}

/// Why a generation pass stops.
pub enum GenerateError {
    /// Two documents, at these positions of the discovery, share a slug.
    DuplicateSlug { first: usize, second: usize },
}

/// What a generation pass writes: the page modules and the entry module.
pub struct Site {
    pub pages: Vec<GeneratedPage>,
    pub entry_module: String,
}

/// No two documents have the same slug.
pub open spec fn doc_slugs_distinct(ds: Seq<SourceDocument>) -> bool {
    forall|i: int, j: int| 0 <= i < j < ds.len() ==> slug_of(ds[i].path@) != slug_of(ds[j].path@)
}

/// Generates the pages of the documents and the entry module that wires
/// them together. Two documents with the same slug are an error.
pub fn generate_site(
    docs: &Vec<SourceDocument>,
    page_template: &str,
    main_template: &str,
    config_json: &str,
) -> (r: Result<Site, GenerateError>)
    ensures
        r is Ok <==> doc_slugs_distinct(docs@),
        r matches Ok(site) ==> pages_for(site.pages@, docs@, page_template@)
            && site.entry_module@ == entry_text(main_template@, site.pages@, config_json@),
        r matches Err(GenerateError::DuplicateSlug { first, second }) ==> first < second
            < docs@.len() && slug_of(docs@[first as int].path@) == slug_of(
            docs@[second as int].path@,
        ),
{
    let pages = generate_pages(docs, page_template);
    match find_duplicate_slug(&pages) {
        Some((first, second)) => {
            assert(page_for(pages@[first as int], docs@[first as int], page_template@, first as int));
            assert(page_for(pages@[second as int], docs@[second as int], page_template@, second as int));
            Err(GenerateError::DuplicateSlug { first, second })
        },
        None => {
            assert forall|i: int, j: int| 0 <= i < j < docs@.len() implies slug_of(docs@[i].path@)
                != slug_of(docs@[j].path@) by {
                assert(page_for(pages@[i], docs@[i], page_template@, i));
                assert(page_for(pages@[j], docs@[j], page_template@, j));
            }
            let entry_module = render_entry_module(main_template, &pages, config_json);
            Ok(Site { pages, entry_module })
        },
    }
}

/// Where a generation pass reads and writes, all under one root directory.
pub struct Locations {
    pub root: String,
    pub cache: String,
    pub gen: String,
    pub src: String,
    pub pages: String,
    pub config: String,
    pub docs: String,
}

impl Locations {
    /// The standard layout under `root`.
    pub fn new(root: &str) -> (r: Locations)
        ensures
            r.root@ == root@,
            r.cache@ == root@ + "/cache"@,
            r.gen@ == root@ + "/gen"@,
            r.src@ == root@ + "/gen/src"@,
            r.pages@ == root@ + "/gen/src/pages"@,
            r.config@ == root@ + "/docs/config.json"@,
            r.docs@ == root@ + "/docs/md"@,
    {
        let mut cache = String::from_str(root);
        cache.append("/cache");
        let mut gen = String::from_str(root);
        gen.append("/gen");
        let mut src = String::from_str(root);
        src.append("/gen/src");
        let mut pages = String::from_str(root);
        pages.append("/gen/src/pages");
        let mut config = String::from_str(root);
        config.append("/docs/config.json");
        let mut docs = String::from_str(root);
        docs.append("/docs/md");
        Locations { root: String::from_str(root), cache, gen, src, pages, config, docs }
    }
}

} // verus!
