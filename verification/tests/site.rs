use doccrate_core::site::{
    file_item_markdown, folder_item_html, folder_label_of, master_index_html, page_markdown,
    plan_page, project_index_markdown, project_name_of, root_prefix_of, skips_directory, PageKind,
    MASTER_INDEX_HEAD, MASTER_INDEX_TAIL,
};

fn strings(v: &[&str]) -> Vec<String> {
    v.iter().map(|s| s.to_string()).collect()
}

#[test]
fn project_names() {
    assert_eq!(project_name_of("https://github.com/rust-lang/book.git"), "book");
    assert_eq!(project_name_of("git@github.com:me/notes.git"), "notes");
    assert_eq!(project_name_of("https://example.com/a.github.io"), "ahub.io");
    assert_eq!(project_name_of("https://example.com/repo/"), "");
    assert_eq!(project_name_of("./my_notes"), "my_notes");
    assert_eq!(project_name_of("./my_notes/"), "my_notes");
    assert_eq!(project_name_of("docs/."), "docs");
    assert_eq!(project_name_of(".."), "");
    assert_eq!(project_name_of("/"), "");
    assert_eq!(project_name_of(""), "");
}

#[test]
fn master_index_lists_folders_in_order() {
    let html = master_index_html(strings(&["zeta", "alpha", "Beta"]));
    let expected = format!(
        "{}{}{}{}{}",
        MASTER_INDEX_HEAD,
        "\n            <li><a href=\"Beta/index.html\">📁 Beta</a></li>",
        "\n            <li><a href=\"alpha/index.html\">📁 alpha</a></li>",
        "\n            <li><a href=\"zeta/index.html\">📁 zeta</a></li>",
        MASTER_INDEX_TAIL
    );
    assert_eq!(html, expected);
    assert!(html.starts_with("<!DOCTYPE html>"));
    assert!(html.ends_with("</html>"));
    assert_eq!(master_index_html(Vec::new()), format!("{}{}", MASTER_INDEX_HEAD, MASTER_INDEX_TAIL));
    assert_eq!(folder_item_html("x"), "\n            <li><a href=\"x/index.html\">📁 x</a></li>");
}

#[test]
fn project_index_groups_pages_by_folder() {
    let md = project_index_markdown(
        "book",
        strings(&["src/b.md.html", "README.md.html", "src/a.rs.html", "src/ch/c.md.html"]),
    );
    let expected = "# 🗃️ book Documentation\n\n\
<details class=\"folder-group\" open>\n<summary>Root Project Files</summary>\n<div class=\"file-explorer\">\n<ul>\n\
<li><a href=\"README.md.html\">📄 README.md.html</a></li>\n\
</ul></div></details>\n\n\
<details class=\"folder-group\" open>\n<summary>📁 src</summary>\n<div class=\"file-explorer\">\n<ul>\n\
<li><a href=\"src/a.rs.html\">📄 a.rs.html</a></li>\n\
<li><a href=\"src/b.md.html\">📄 b.md.html</a></li>\n\
</ul></div></details>\n\n\
<details class=\"folder-group\" open>\n<summary>📁 src/ch</summary>\n<div class=\"file-explorer\">\n<ul>\n\
<li><a href=\"src/ch/c.md.html\">📄 c.md.html</a></li>\n\
</ul></div></details>\n";
    assert_eq!(md, expected);
    assert_eq!(project_index_markdown("empty", Vec::new()), "# 🗃️ empty Documentation\n\n");
    assert_eq!(folder_label_of("a/b/c.html"), "📁 a/b");
    assert_eq!(folder_label_of("c.html"), "Root Project Files");
    assert_eq!(file_item_markdown("a/c.html"), "<li><a href=\"a/c.html\">📄 c.html</a></li>\n");
}

#[test]
fn folders_the_builder_skips() {
    assert!(skips_directory(".git"));
    assert!(skips_directory("target"));
    assert!(skips_directory("node_modules"));
    assert!(skips_directory("dist"));
    assert!(!skips_directory("docs"));
    assert!(!skips_directory("targets"));
}

#[test]
fn plans_pages() {
    let plan = plan_page("guide/ch1/intro.md").unwrap();
    assert_eq!(plan.kind, PageKind::Markdown);
    assert_eq!(plan.extension, "md");
    assert_eq!(plan.root_prefix, "../../");
    assert_eq!(plan.output, "guide/ch1/intro.md.html");
    assert_eq!(plan.link, "guide/ch1/intro.md.html");
    assert_eq!(plan.title, "intro.md");

    let plan = plan_page("main.rs").unwrap();
    assert_eq!(plan.kind, PageKind::Code);
    assert_eq!(plan.root_prefix, "./");
    assert_eq!(plan.link, "main.rs.html");

    let plan = plan_page("notes/a\\b.markdown").unwrap();
    assert_eq!(plan.kind, PageKind::Markdown);
    assert_eq!(plan.output, "notes/a\\b.markdown.html");
    assert_eq!(plan.link, "notes/a/b.markdown.html");

    assert!(plan_page("image.png").is_none());
    assert!(plan_page("Makefile").is_none());
    assert!(plan_page(".md").is_none());
    for ext in ["py", "js", "ts", "json", "toml", "yaml", "yml", "c", "cpp", "h", "sh", "txt", "html", "css", "java", "kt"] {
        assert_eq!(plan_page(&format!("x.{}", ext)).unwrap().kind, PageKind::Code);
    }
}

#[test]
fn page_sources() {
    assert_eq!(page_markdown(PageKind::Markdown, "md", "# T"), "# T");
    assert_eq!(page_markdown(PageKind::Code, "rs", "fn main() {}"), "```rs\nfn main() {}\n```");
    assert_eq!(root_prefix_of(0), "./");
    assert_eq!(root_prefix_of(3), "../../../");
}
