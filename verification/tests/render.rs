use page_context::document::Document;
use page_context::render::{
    page_name, respond, root_redirect, template_name, Rendering, Response, Status,
};
use page_context::tree::{load, DirEntry, Directory, FileText, Node};

#[test]
fn an_empty_page_name_means_index() {
    assert_eq!(page_name(""), "index");
    assert_eq!(page_name("index"), "index");
    assert_eq!(template_name(&page_name("")), template_name(&page_name("index")));
}

#[test]
fn a_given_page_name_is_kept() {
    assert_eq!(page_name("about"), "about");
    assert_eq!(page_name(" "), " ");
}

#[test]
fn templates_live_under_pages() {
    assert_eq!(template_name("index"), "pages/index");
    assert_eq!(template_name("about"), "pages/about");
    assert_eq!(template_name(""), "pages/");
}

#[test]
fn the_root_redirects_to_the_index_page() {
    assert_eq!(root_redirect(), "/index");
    assert_eq!(root_redirect(), format!("/{}", page_name("")));
}

#[test]
fn a_rendered_page_is_sent_as_it_is() {
    let response = respond("index", Rendering::Rendered("<h1>Hi</h1>".to_string()));
    assert_eq!(response.status, Status::Rendered);
    assert_eq!(response.status.code(), 200);
    assert_eq!(response.body, "<h1>Hi</h1>");
    assert!(response.is_html());
}

#[test]
fn an_unknown_page_is_not_found() {
    let response = respond("nope", Rendering::Failed);
    assert_eq!(response.status, Status::NotFound);
    assert_eq!(response.status.code(), 404);
    assert_eq!(response.body, "Template 'nope' not found or rendering failed");
    assert!(!response.is_html());
}

#[test]
fn missing_templates_or_data_are_internal_errors() {
    let response = respond("index", Rendering::TemplatesUnavailable);
    assert_eq!(response.status, Status::InternalError);
    assert_eq!(response.status.code(), 500);
    assert_eq!(response.body, "Failed to load templates");
    assert!(!response.is_html());

    let response = respond("index", Rendering::DataUnavailable);
    assert_eq!(response.status, Status::InternalError);
    assert_eq!(response.status.code(), 500);
    assert_eq!(response.body, "Failed to load data files");
}

fn render(templates: &handlebars::Handlebars, document: Document, requested: &str) -> Response {
    let page = page_name(requested);
    let context = document.into_json();
    let rendering = match templates.render(&template_name(&page), &context) {
        Ok(text) => Rendering::Rendered(text),
        Err(_) => Rendering::Failed,
    };
    respond(&page, rendering)
}

fn site_tree() -> Directory {
    Directory::Listed(vec![DirEntry {
        name: "site.json".to_string(),
        node: Node::File(FileText::Text("{\"title\":\"Hi\"}".to_string())),
    }])
}

#[test]
fn the_index_page_shows_the_site_title() {
    let mut templates = handlebars::Handlebars::new();
    templates.register_template_string("pages/index", "<title>{{site.title}}</title>").unwrap();
    let response = render(&templates, load(&site_tree()).unwrap(), "");
    assert_eq!(response.status.code(), 200);
    assert!(response.body.contains("Hi"));
    assert_eq!(response.body, "<title>Hi</title>");
}

#[test]
fn a_page_without_template_is_not_found_whatever_the_data() {
    let mut templates = handlebars::Handlebars::new();
    templates.register_template_string("pages/index", "{{site.title}}").unwrap();
    let response = render(&templates, load(&site_tree()).unwrap(), "missing");
    assert_eq!(response.status, Status::NotFound);
    assert_eq!(response.status.code(), 404);
    assert_eq!(response.body, "Template 'missing' not found or rendering failed");
}

#[test]
fn nested_data_and_text_reach_the_template() {
    let tree = Directory::Listed(vec![
        DirEntry {
            name: "blog".to_string(),
            node: Node::Directory(Directory::Listed(vec![DirEntry {
                name: "intro.txt".to_string(),
                node: Node::File(FileText::Text("welcome".to_string())),
            }])),
        },
        DirEntry {
            name: "site.json".to_string(),
            node: Node::File(FileText::Text("{\"tags\": [\"a\", \"b\"]}".to_string())),
        },
    ]);
    let mut templates = handlebars::Handlebars::new();
    templates
        .register_template_string(
            "pages/about",
            "{{blog.intro}}:{{#each site.tags}}{{this}}{{/each}}",
        )
        .unwrap();
    let response = render(&templates, load(&tree).unwrap(), "about");
    assert_eq!(response.status.code(), 200);
    assert_eq!(response.body, "welcome:ab");
}
