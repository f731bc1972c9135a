use docgen::assemble::{
    find_duplicate_slug, generate_pages, generate_site, imports_block, links_block,
    navigation_label, render_entry_module, routes_block, GenerateError, Locations,
    SourceDocument,
};
use docgen::config::{config_json, frame_config, Config};
use docgen::discovery::{document_slug, is_document_path, select_documents, WalkEntry};
use docgen::lang::kebab_to_english;
use docgen::page::{escape_content, make_react_md_page, page_module_name};
use docgen::route::get_actual_md_route_path;
use docgen::template::{instantiate, replace_all};
use docgen::text::{chars_of, str_equal};

fn doc(path: &str, content: &str) -> SourceDocument {
    SourceDocument { path: path.to_string(), content: content.to_string() }
}

fn entry(path: &str, is_file: bool) -> WalkEntry {
    WalkEntry { path: path.to_string(), is_file }
}

#[test]
fn home_slug_routes_to_root() {
    assert_eq!(get_actual_md_route_path("_home"), "/");
}

#[test]
fn other_slugs_route_to_themselves() {
    assert_eq!(get_actual_md_route_path("anything-else"), "anything-else");
    assert_eq!(get_actual_md_route_path("_home2"), "_home2");
    assert_eq!(get_actual_md_route_path("home"), "home");
    assert_eq!(get_actual_md_route_path(""), "");
}

#[test]
fn labels_capitalize_each_segment() {
    assert_eq!(kebab_to_english("getting-started"), "Getting Started");
    assert_eq!(kebab_to_english("a-b-c"), "A B C");
    assert_eq!(kebab_to_english("home"), "Home");
}

#[test]
fn labels_skip_empty_segments() {
    assert_eq!(kebab_to_english("-a--b-"), "A B");
    assert_eq!(kebab_to_english(""), "");
    assert_eq!(kebab_to_english("---"), "");
}

#[test]
fn labels_keep_the_rest_of_a_segment() {
    assert_eq!(kebab_to_english("api-REFERENCE-v2"), "Api REFERENCE V2");
    assert_eq!(kebab_to_english("/"), "/");
}

#[test]
fn labels_use_unicode_uppercase() {
    assert_eq!(kebab_to_english("émile-ßtraße"), "Émile SStraße");
}

#[test]
fn escaping_marks_breaks_and_backticks() {
    assert_eq!(escape_content("a\nb`c"), "a  \nb\\`c");
    assert_eq!(escape_content(""), "");
    assert_eq!(escape_content("plain"), "plain");
}

#[test]
fn escaped_text_has_no_bare_backtick_and_keeps_breaks() {
    let t = "one\n`two`\n\nthree``";
    let e = chars_of(&escape_content(t));
    for (p, c) in e.iter().enumerate() {
        if *c == '`' {
            assert!(p >= 1 && e[p - 1] == '\\');
        }
    }
    let s: String = e.iter().collect();
    let back: Vec<&str> = s.split("  \n").collect();
    assert_eq!(back.join("\n").replace("\\`", "`"), t);
}

#[test]
fn replace_all_replaces_every_occurrence() {
    assert_eq!(replace_all("a $x b $x", "$x", "1"), "a 1 b 1");
    assert_eq!(replace_all("aaa", "aa", "X"), "Xa");
    assert_eq!(replace_all("no keys", "$x", "1"), "no keys");
    assert_eq!(replace_all("abc", "", "1"), "abc");
    assert_eq!(replace_all("$x", "$x", "$x$x"), "$x$x");
}

#[test]
fn instantiation_fills_each_placeholder_once() {
    let subs = vec![
        ("$title".to_string(), "T".to_string()),
        ("$body".to_string(), "B".to_string()),
    ];
    let out = instantiate("<h1>$title</h1><p>$body</p>", &subs);
    assert_eq!(out, "<h1>T</h1><p>B</p>");
    assert!(!out.contains("$title") && !out.contains("$body"));
    assert_eq!(instantiate("x", &Vec::new()), "x");
}

#[test]
fn module_names_are_decimal() {
    assert_eq!(page_module_name(0), "Gen_0");
    assert_eq!(page_module_name(9), "Gen_9");
    assert_eq!(page_module_name(10), "Gen_10");
    assert_eq!(page_module_name(255), "Gen_255");
    assert_eq!(page_module_name(256), "Gen_256");
    assert_eq!(page_module_name(1234567), "Gen_1234567");
}

#[test]
fn page_module_fills_the_template() {
    let page = make_react_md_page("docs/md/a.md", "x\ny`", 3, "T=$title F=$file_name C=$contents");
    assert_eq!(page, "T=Gen_3 F=docs/md/a.md C=x  \ny\\`");
}

#[test]
fn document_paths_need_the_md_extension() {
    assert!(is_document_path("docs/a.md"));
    assert!(is_document_path("a.md"));
    assert!(is_document_path("x/y/z/deep.md"));
    assert!(!is_document_path("a.txt"));
    assert!(!is_document_path("README"));
    assert!(!is_document_path(".md"));
    assert!(!is_document_path("a.MD"));
    assert!(!is_document_path("dir.md/file"));
    assert!(!is_document_path("a.md.txt"));
    assert!(!is_document_path("a.mdx"));
    assert!(!is_document_path(""));
}

#[test]
fn slugs_drop_directory_and_extension() {
    assert_eq!(document_slug("x/y/getting-started.md"), "getting-started");
    assert_eq!(document_slug("a.b.md"), "a.b");
    assert_eq!(document_slug("dir/README"), "README");
    assert_eq!(document_slug("dir/.hidden"), ".hidden");
    assert_eq!(document_slug("_home.md"), "_home");
}

#[test]
fn discovery_keeps_documents_at_any_depth() {
    let entries = vec![
        entry("docs", false),
        entry("docs/a.md", true),
        entry("docs/sub", false),
        entry("docs/sub/b.txt", true),
        entry("docs/sub/deep/c.md", true),
        entry("docs/folder.md", false),
        entry("docs/NOTES", true),
    ];
    assert_eq!(select_documents(&entries), vec!["docs/a.md".to_string(), "docs/sub/deep/c.md".to_string()]);
}

#[test]
fn discovery_without_documents_is_empty() {
    let entries = vec![entry("docs/a.txt", true), entry("docs/b", true)];
    assert!(select_documents(&entries).is_empty());
    assert!(select_documents(&Vec::new()).is_empty());
}

#[test]
fn config_is_written_as_json() {
    let c = Config { title: "My Docs".to_string() };
    assert_eq!(config_json(&c), "{\"title\":\"My Docs\"}");
    let q = Config { title: "a\"b\\c\n".to_string() };
    assert_eq!(config_json(&q), "{\"title\":\"a\\\"b\\\\c\\n\"}");
    assert_eq!(frame_config("\"t\""), "{\"title\":\"t\"}");
}

#[test]
fn config_escapes_control_characters() {
    let c = Config { title: "\u{1}\t\u{8}\u{c}\r\u{1f}é/".to_string() };
    assert_eq!(config_json(&c), "{\"title\":\"\\u0001\\t\\b\\f\\r\\u001fé/\"}");
}

#[test]
fn identifiers_count_up_from_zero() {
    let docs = vec![doc("a.md", "1"), doc("b.md", "2"), doc("c/d.md", "3")];
    let pages = generate_pages(&docs, "$title");
    let ids: Vec<usize> = pages.iter().map(|p| p.id).collect();
    assert_eq!(ids, vec![0, 1, 2]);
    let names: Vec<&str> = pages.iter().map(|p| p.module_name.as_str()).collect();
    assert_eq!(names, vec!["Gen_0", "Gen_1", "Gen_2"]);
    assert_eq!(pages[2].slug, "d");
    assert!(generate_pages(&Vec::new(), "$title").is_empty());
}

#[test]
fn duplicate_slugs_are_found() {
    let pages = generate_pages(&vec![doc("a/x.md", ""), doc("y.md", ""), doc("b/x.md", "")], "");
    assert_eq!(find_duplicate_slug(&pages), Some((0, 2)));
    let distinct = generate_pages(&vec![doc("a/x.md", ""), doc("y.md", "")], "");
    assert_eq!(find_duplicate_slug(&distinct), None);
}

#[test]
fn duplicate_slugs_stop_generation() {
    let docs = vec![doc("a/x.md", ""), doc("b/x.md", "")];
    match generate_site(&docs, "", "", "{}") {
        Err(GenerateError::DuplicateSlug { first, second }) => {
            assert_eq!((first, second), (0, 1));
        }
        Ok(_) => panic!("expected a duplicate slug"),
    }
}

#[test]
fn navigation_labels_name_home() {
    assert_eq!(navigation_label("_home"), "Home");
    assert_eq!(navigation_label("getting-started"), "Getting Started");
}

#[test]
fn blocks_list_pages_in_order() {
    let pages = generate_pages(&vec![doc("_home.md", ""), doc("my-guide.md", "")], "");
    assert_eq!(
        imports_block(&pages),
        "import Gen_0 from \"./pages/Gen_0.jsx\";import Gen_1 from \"./pages/Gen_1.jsx\";"
    );
    assert_eq!(
        routes_block(&pages),
        "{path: \"/\", element: <Gen_0 />},{path: \"my-guide\", element: <Gen_1 />},"
    );
    assert_eq!(
        links_block(&pages),
        "<Link noHighlight href=\"/\">Home</Link><Link noHighlight href=\"/my-guide\">My Guide</Link>"
    );
    assert_eq!(
        render_entry_module("[$imports|$config]", &pages, "{}"),
        "[import Gen_0 from \"./pages/Gen_0.jsx\";import Gen_1 from \"./pages/Gen_1.jsx\";|{}]"
    );
}

#[test]
fn end_to_end_two_documents() {
    let docs = vec![doc("docs/md/_home.md", "Hello\nWorld"), doc("docs/md/guide.md", "Use `code`")];
    let site = match generate_site(&docs, "$title|$file_name|$contents", "$imports\n$config\n$routes\n$sidebar_links", "{\"title\":\"T\"}") {
        Ok(site) => site,
        Err(_) => panic!("expected a site"),
    };
    assert_eq!(site.pages.len(), 2);
    assert_eq!(site.pages[0].module_name, "Gen_0");
    assert_eq!(site.pages[1].module_name, "Gen_1");
    assert_eq!(site.pages[0].text, "Gen_0|docs/md/_home.md|Hello  \nWorld");
    assert_eq!(site.pages[1].text, "Gen_1|docs/md/guide.md|Use \\`code\\`");
    assert_eq!(
        site.entry_module,
        "import Gen_0 from \"./pages/Gen_0.jsx\";import Gen_1 from \"./pages/Gen_1.jsx\";\n\
         {\"title\":\"T\"}\n\
         {path: \"/\", element: <Gen_0 />},{path: \"guide\", element: <Gen_1 />},\n\
         <Link noHighlight href=\"/\">Home</Link><Link noHighlight href=\"/guide\">Guide</Link>"
    );
}

#[test]
fn locations_sit_under_the_root() {
    let l = Locations::new("/r");
    assert_eq!(l.root, "/r");
    assert_eq!(l.cache, "/r/cache");
    assert_eq!(l.gen, "/r/gen");
    assert_eq!(l.src, "/r/gen/src");
    assert_eq!(l.pages, "/r/gen/src/pages");
    assert_eq!(l.config, "/r/docs/config.json");
    assert_eq!(l.docs, "/r/docs/md");
}

#[test]
fn strings_compare_by_characters() {
    assert!(str_equal("abc", "abc"));
    assert!(!str_equal("abc", "abd"));
    assert!(!str_equal("ab", "abc"));
    assert_eq!(chars_of("héllo"), vec!['h', 'é', 'l', 'l', 'o']);
}
