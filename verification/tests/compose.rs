use ezekiel::compose::{
    compose, converter_arguments, gen_html, gen_markdown, html_artifact, html_request,
    markdown_artifact, markdown_request, markdown_targets, rendered_text, template_name, Context,
};
use ezekiel::error::BuildError;
use ezekiel::gather::{gather_metadata, SourceFile};
use ezekiel::metadata::Metadata;
use ezekiel::store::MetadataStore;

fn store(files: &[(&str, &str)]) -> MetadataStore {
    let files: Vec<SourceFile> = files
        .iter()
        .map(|(path, content)| SourceFile { path: path.to_string(), content: content.to_string() })
        .collect();
    gather_metadata(&files).unwrap()
}

fn text(answer: &str) -> Result<String, String> {
    Ok(answer.to_string())
}

fn failure(words: &str) -> Result<String, String> {
    Err(words.to_string())
}

#[test]
fn compose_puts_the_fragment_in_the_place_of_the_marker() {
    let page = compose("<body><!-- markdown --></body>", "<h1>Hi</h1>");
    assert_eq!(page, "<body><h1>Hi</h1></body>");
}

#[test]
fn compose_keeps_what_stands_before_and_behind_the_marker() {
    let rendered = "<nav>é</nav>\n<!-- markdown -->\n<footer>☃</footer>\n";
    let page = compose(rendered, "<p>text</p>\n");
    assert_eq!(page, "<nav>é</nav>\n<p>text</p>\n\n<footer>☃</footer>\n");
}

#[test]
fn compose_without_a_marker_changes_nothing() {
    assert_eq!(compose("<body></body>", "<h1>Hi</h1>"), "<body></body>");
    assert_eq!(compose("<!-- markdown-->", "x"), "<!-- markdown-->");
    assert_eq!(compose("<!--markdown -->", "x"), "<!--markdown -->");
    assert_eq!(compose("", "x"), "");
}

#[test]
fn compose_replaces_every_marker() {
    let page = compose("<!-- markdown -->|<!-- markdown -->", "x");
    assert_eq!(page, "x|x");
}

#[test]
fn compose_does_not_look_into_the_fragment() {
    let page = compose("a<!-- markdown -->b", "<!-- markdown -->");
    assert_eq!(page, "a<!-- markdown -->b");
}

#[test]
fn compose_with_an_empty_fragment_removes_the_marker() {
    assert_eq!(compose("a<!-- markdown -->b", ""), "ab");
}

#[test]
fn template_name_drops_one_leading_root_marker() {
    let name = |text: &str| template_name(&Metadata::parse(text).unwrap());
    assert_eq!(name("template: base.html").unwrap(), "base.html");
    assert_eq!(name("template: /base.html").unwrap(), "base.html");
    assert_eq!(name("template: //base.html").unwrap(), "/base.html");
    assert_eq!(name("template: layouts/post.html").unwrap(), "layouts/post.html");
    assert_eq!(name("template: /").unwrap(), "");
    assert_eq!(name("template: ''").unwrap(), "");
    assert_eq!(name("template: \"3\"").unwrap(), "3");
    assert_eq!(name("title: x\ntemplate: t\nother: y").unwrap(), "t");
}

#[test]
fn template_name_fails_where_metadata_names_none() {
    let name = |text: &str| template_name(&Metadata::parse(text).unwrap());
    for text in ["- a", "", "~", "plain words", "42", "!tag {template: t}"] {
        assert!(matches!(name(text), Err(BuildError::NotAMapping)), "{text}");
    }
    for text in ["title: x", "{}", "Template: t", "[template]: t"] {
        assert!(matches!(name(text), Err(BuildError::MissingTemplate)), "{text}");
    }
    for text in ["template: 7", "template: [a, b]", "template: {a: b}", "template:", "template: true"] {
        assert!(matches!(name(text), Err(BuildError::TemplateNotText)), "{text}");
    }
    assert!(matches!(template_name(&Metadata::empty_mapping()), Err(BuildError::MissingTemplate)));
}

#[test]
fn markdown_targets_mirror_the_source() {
    let meta = store(&[("./posts/one.md", "---\ntemplate: t.html\n---\n")]);
    let targets = markdown_targets("./posts/one.md", &meta).unwrap();
    assert_eq!(targets.page, "www/posts/one.html");
    assert_eq!(targets.fragment, "www/posts/one.html.partial");
}

#[test]
fn markdown_targets_need_a_mapping_but_no_template() {
    let meta = store(&[("a.md", "no front matter"), ("b.md", "---\n- x\n---\n")]);
    assert_eq!(markdown_targets("a.md", &meta).unwrap().page, "www/a.html");
    assert!(matches!(markdown_targets("b.md", &meta), Err(BuildError::NotAMapping)));
    assert!(matches!(markdown_targets("c.md", &meta), Err(BuildError::MissingMetadata)));
}

#[test]
fn converter_is_given_its_extensions_the_source_and_the_fragment() {
    let expected = [
        "--ext-footnotes",
        "--ext-mathjax",
        "--ext-punctuation",
        "--ext-skylighting",
        "--ext-toc",
        "2-3",
        "-i",
        "./posts/one.md",
        "-o",
        "www/posts/one.html.partial",
    ];
    assert_eq!(converter_arguments("./posts/one.md"), expected);
    let arguments = converter_arguments("a.md");
    assert_eq!(arguments[7], "a.md");
    assert_eq!(arguments[9], "www/a.html.partial");
}

#[test]
fn artifacts_hold_the_target_and_the_content() {
    let page = markdown_artifact("./a/b.md", "[<!-- markdown -->]", "x");
    assert_eq!(page.path, "www/a/b.html");
    assert_eq!(page.content, "[x]");
    let html = html_artifact("./a/b.html", "<p>".to_string());
    assert_eq!(html.path, "www/a/b.html");
    assert_eq!(html.content, "<p>");
}

#[test]
fn context_holds_the_relative_path_of_the_page() {
    let meta = MetadataStore::new();
    let context = Context::for_page(&meta, "./a/b.md");
    assert_eq!(context.page.path, "a/b.md");
    assert!(std::ptr::eq(context.meta, &meta));
}

#[test]
fn html_request_names_the_template_by_its_relative_path() {
    let meta = MetadataStore::new();
    let request = html_request("./sub/index.html", &meta);
    assert_eq!(request.template, "sub/index.html");
    assert_eq!(request.context.page.path, "sub/index.html");
    assert!(std::ptr::eq(request.context.meta, &meta));
}

#[test]
fn markdown_request_names_the_template_of_the_metadata() {
    let meta = store(&[
        ("./posts/one.md", "---\ntemplate: /layouts/post.html\n---\n"),
        ("./posts/post.html.md", "---\ntemplate: plain\n---\n"),
    ]);
    let request = markdown_request("./posts/one.md", &meta).unwrap();
    assert_eq!(request.template, "layouts/post.html");
    assert_eq!(request.context.page.path, "posts/one.md");
    assert!(std::ptr::eq(request.context.meta, &meta));
    let request = markdown_request("posts/post.html.md", &meta).unwrap();
    assert_eq!(request.template, "plain");
    assert_eq!(request.context.page.path, "posts/post.html.md");
}

#[test]
fn markdown_request_fails_where_metadata_names_no_template() {
    let meta = store(&[
        ("list.md", "---\n- a\n---\n"),
        ("bare.md", "text\n"),
        ("number.md", "---\ntemplate: 1.5\n---\n"),
    ]);
    assert!(matches!(markdown_request("list.md", &meta), Err(BuildError::NotAMapping)));
    assert!(matches!(markdown_request("bare.md", &meta), Err(BuildError::MissingTemplate)));
    assert!(matches!(markdown_request("number.md", &meta), Err(BuildError::TemplateNotText)));
    assert!(matches!(markdown_request("none.md", &meta), Err(BuildError::MissingMetadata)));
}

#[test]
fn rendered_text_keeps_the_text_and_turns_the_failure() {
    assert_eq!(rendered_text(text("<p>é</p>")).unwrap(), "<p>é</p>");
    assert_eq!(rendered_text(text("")).unwrap(), "");
    match rendered_text(failure("no such thing")) {
        Err(BuildError::Templating(words)) => assert_eq!(words, "no such thing"),
        other => panic!("{other:?}"),
    }
}

#[test]
fn gen_html_places_the_engine_text_at_the_mirrored_path() {
    let artifact = gen_html("./sub/about.html", text("<p>about</p>")).unwrap();
    assert_eq!(artifact.path, "www/sub/about.html");
    assert_eq!(artifact.content, "<p>about</p>");
    let empty = gen_html("a.html", text("")).unwrap();
    assert_eq!(empty.path, "www/a.html");
    assert_eq!(empty.content, "");
}

#[test]
fn gen_html_fails_when_the_engine_fails() {
    match gen_html("./missing.html", failure("Template 'missing.html' not found")) {
        Err(BuildError::Templating(words)) => {
            assert_eq!(words, "Template 'missing.html' not found")
        }
        Ok(_) | Err(_) => panic!("the engine's failure should be the result"),
    }
}

#[test]
fn gen_html_takes_what_the_engine_makes_of_its_request() {
    let meta = MetadataStore::new();
    let request = html_request("./about.html", &meta);
    let mut tera = tera::Tera::default();
    tera.add_raw_template("about.html", "<p>{{ 1 + 1 }}</p>").unwrap();
    let answer = tera.render(&request.template, &tera::Context::new());
    let artifact = gen_html("./about.html", answer.map_err(|error| format!("{error:?}"))).unwrap();
    assert_eq!(artifact.content, "<p>2</p>");
    let answer = tera.render("./about.html", &tera::Context::new());
    let done = gen_html("./about.html", answer.map_err(|error| format!("{error:?}")));
    assert!(matches!(done, Err(BuildError::Templating(_))));
}

#[test]
fn gen_markdown_composes_the_engine_text_and_the_fragment() {
    let meta = store(&[("./page.md", "---\ntemplate: base.html\n---\n# Hi\n")]);
    let answer = text("<body><!-- markdown --></body>");
    let artifact = gen_markdown("./page.md", &meta, answer, "<h1>Hi</h1>\n").unwrap();
    assert_eq!(artifact.path, "www/page.html");
    assert_eq!(artifact.content, "<body><h1>Hi</h1>\n</body>");
}

#[test]
fn gen_markdown_fails_on_metadata_that_names_no_template() {
    let meta = store(&[
        ("list.md", "---\n- a\n---\n"),
        ("bare.md", "# no front matter\n"),
        ("number.md", "---\ntemplate: 1\n---\n"),
    ]);
    let answer = || text("<!-- markdown -->");
    assert!(matches!(gen_markdown("list.md", &meta, answer(), ""), Err(BuildError::NotAMapping)));
    assert!(matches!(gen_markdown("bare.md", &meta, answer(), ""), Err(BuildError::MissingTemplate)));
    assert!(matches!(
        gen_markdown("number.md", &meta, answer(), ""),
        Err(BuildError::TemplateNotText)
    ));
    assert!(matches!(gen_markdown("none.md", &meta, answer(), ""), Err(BuildError::MissingMetadata)));
    assert!(matches!(
        gen_markdown("list.md", &meta, failure("engine"), ""),
        Err(BuildError::NotAMapping)
    ));
}

#[test]
fn gen_markdown_fails_when_the_engine_fails() {
    let meta = store(&[("a.md", "---\ntemplate: nowhere.html\n---\n")]);
    match gen_markdown("a.md", &meta, failure("Template 'nowhere.html' not found"), "x") {
        Err(BuildError::Templating(words)) => {
            assert_eq!(words, "Template 'nowhere.html' not found")
        }
        Ok(_) | Err(_) => panic!("the engine's failure should be the result"),
    }
}
