//! The pages the command-line builder writes: the master index that links
//! every built project, the index of one project, and the plan for turning
//! one source file into an HTML page.

use vstd::prelude::*;
use crate::text::{
    after_last, after_last_of, before_last, before_last_of, chars_of, file_name, file_name_of,
    has_prefix, matches_at, occurs_at, occurs_in, path_extension, path_extension_of, push_chars,
    repeat, repeat_chars, replace_all, replace_chars, sorted_order, sorted_strings, starts_with,
    string_of, views,
};

verus! {

/// The opening of the master index page, up to the list of projects.
pub const MASTER_INDEX_HEAD: &'static str = r#"<!DOCTYPE html>
<html lang="en">
<head>
    <meta charset="UTF-8">
    <meta name="viewport" content="width=device-width, initial-scale=1.0">
    <title>DocCrate Library</title>
    <style>
        :root { --bg: #f6f8fa; --card: #ffffff; --border: #d0d7de; --text: #24292f; --link: #0969da; --hover: #f3f4f6; }
        body { font-family: -apple-system, BlinkMacSystemFont, "Segoe UI", Helvetica, Arial, sans-serif; line-height: 1.6; margin: 0; padding: 2rem 1rem; color: var(--text); background-color: var(--bg); }
        .container { max-width: 900px; margin: 0 auto; background-color: var(--card); padding: 2.5rem; border-radius: 12px; box-shadow: 0 4px 14px rgba(0,0,0,0.05); border: 1px solid var(--border); }
        h1 { border-bottom: 2px solid var(--border); padding-bottom: 0.3em; margin-top: 0; }
        p { color: #57606a; font-size: 1.1em; }
        .folder-list { list-style: none; padding: 0; border: 1px solid var(--border); border-radius: 8px; overflow: hidden; margin-top: 1.5rem; }
        .folder-list li { border-bottom: 1px solid var(--border); }
        .folder-list li:last-child { border-bottom: none; }
        .folder-list a { display: flex; align-items: center; gap: 10px; padding: 16px; color: var(--text); text-decoration: none; font-weight: 600; font-size: 1.1em; transition: background 0.2s; }
        .folder-list a:hover { background-color: var(--hover); color: var(--link); }
    </style>
</head>
<body>
    <div class="container">
        <h1>📚 Offline Knowledge Library</h1>
        <p>Welcome to your completely offline documentation bundle. Select a project below to browse its files:</p>
        <ul class="folder-list">"#;

/// The closing of the master index page, after the list of projects.
pub const MASTER_INDEX_TAIL: &'static str = "\n        </ul>\n    </div>\n</body>\n</html>";

/// The list item that links a project folder from the master index.
pub open spec fn folder_item(folder: Seq<char>) -> Seq<char> {
    "\n            <li><a href=\""@ + folder + "/index.html\">📁 "@ + folder + "</a></li>"@
}

/// The list items of the given folders, in the given order.
pub open spec fn folder_items(folders: Seq<Seq<char>>) -> Seq<char>
    decreases folders.len(),
{
    if folders.len() == 0 {
        seq![]
    } else {
        folder_items(folders.drop_last()) + folder_item(folders.last())
    }
}

/// The master index page for the given project folders: they are listed in
/// ascending order.
pub open spec fn master_index(folders: Seq<Seq<char>>) -> Seq<char> {
    MASTER_INDEX_HEAD@ + folder_items(sorted_order(folders)) + MASTER_INDEX_TAIL@
}

/// The list item that links a project folder from the master index.
pub fn folder_item_html(folder: &str) -> (r: String)
    ensures
        r@ == folder_item(folder@),
{
    let mut r = String::from_str("\n            <li><a href=\"");
    r.append(folder);
    r.append("/index.html\">📁 ");
    r.append(folder);
    r.append("</a></li>");
    r
}

/// The master index page that links the given project folders.
pub fn master_index_html(folders: Vec<String>) -> (r: String)
    ensures
        r@ == master_index(views(folders@)),
{
    let ghost all = views(folders@);
    let sorted = sorted_strings(folders);
    let mut html = String::from_str(MASTER_INDEX_HEAD);
    let mut i: usize = 0;
    assert(views(sorted@).subrange(0, 0) =~= Seq::<Seq<char>>::empty());
    while i < sorted.len()
        invariant
            i <= sorted@.len(),
            html@ == MASTER_INDEX_HEAD@ + folder_items(views(sorted@).subrange(0, i as int)),
        decreases sorted@.len() - i,
    {
        let item = folder_item_html(sorted[i].as_str());
        html.append(item.as_str());
        assert(views(sorted@).subrange(0, i + 1).drop_last() =~= views(sorted@).subrange(0, i as int));
        i = i + 1;
    }
    assert(views(sorted@).subrange(0, i as int) =~= views(sorted@));
    html.append(MASTER_INDEX_TAIL);
    html
}

/// The items of a list of folders include the item of each of them.
proof fn lemma_folder_items_include(folders: Seq<Seq<char>>, k: int)
    requires
        0 <= k < folders.len(),
    ensures
        occurs_in(folder_items(folders), folder_item(folders[k])),
    decreases folders.len(),
{
    let whole = folder_items(folders);
    let front = folder_items(folders.drop_last());
    let item = folder_item(folders[k]);
    if k == folders.len() - 1 {
        assert(whole.subrange(front.len() as int, (front.len() + item.len()) as int) =~= item);
        assert(occurs_at(whole, item, front.len() as int));
    } else {
        assert(folders.drop_last()[k] == folders[k]);
        lemma_folder_items_include(folders.drop_last(), k);
        let i = choose|i: int| occurs_at(front, item, i);
        assert(whole.subrange(i, i + item.len()) =~= front.subrange(i, i + item.len()));
        assert(occurs_at(whole, item, i));
    }
}

/// Law: the master index links every project folder it is given.
#[verifier::rlimit(40)]
pub proof fn law_master_index_links_every_folder(folders: Seq<Seq<char>>, k: int)
    requires
        0 <= k < folders.len(),
    ensures
        occurs_in(master_index(folders), folder_item(folders[k])),
{
    broadcast use vstd::seq_lib::group_to_multiset_ensures;

    let t = sorted_order(folders);
    crate::text::lemma_sorted_order(folders);
    assert(folders.to_multiset().count(folders[k]) > 0);
    assert(t.contains(folders[k]));
    let j = choose|j: int| 0 <= j < t.len() && t[j] == folders[k];
    lemma_folder_items_include(t, j);
    let items = folder_items(t);
    let item = folder_item(folders[k]);
    let i = choose|i: int| occurs_at(items, item, i);
    let page = master_index(folders);
    let off = MASTER_INDEX_HEAD@.len() as int;
    assert(page.subrange(off + i, off + i + item.len()) =~= items.subrange(i, i + item.len()));
    assert(occurs_at(page, item, off + i));
}

// ---------------------------------------------------------------------------
// A project and its index
// ---------------------------------------------------------------------------

/// A source that is cloned with git rather than read from a folder.
pub open spec fn is_remote_source(source: Seq<char>) -> bool {
    has_prefix(source, "http"@) || has_prefix(source, "git@"@)
}

/// The name of the project a source holds: for a remote source, the last
/// `/`-separated part of its address with every `.git` taken out; for a
/// folder, its last path component (nothing when it has none).
pub open spec fn project_name(source: Seq<char>) -> Seq<char> {
    if is_remote_source(source) {
        replace_all(after_last(source, '/'), ".git"@, seq![])
    } else {
        match file_name(source) {
            Some(name) => name,
            None => seq![],
        }
    }
}

/// The heading under which a page link is listed: its folder, or the root.
pub open spec fn folder_label(link: Seq<char>) -> Seq<char> {
    if before_last(link, '/').len() == 0 {
        "Root Project Files"@
    } else {
        "📁 "@ + before_last(link, '/')
    }
}

/// The opening of a folder group.
pub open spec fn group_open(label: Seq<char>) -> Seq<char> {
    "<details class=\"folder-group\" open>\n<summary>"@ + label + "</summary>\n<div class=\"file-explorer\">\n<ul>\n"@
}

/// The list item that links one page.
pub open spec fn file_item(link: Seq<char>) -> Seq<char> {
    "<li><a href=\""@ + link + "\">📄 "@ + after_last(link, '/') + "</a></li>\n"@
}

/// The groups of a project index for the given links, the group of
/// `current` being open already when there is one.
pub open spec fn index_body(links: Seq<Seq<char>>, current: Option<Seq<char>>) -> Seq<char>
    decreases links.len(),
{
    if links.len() == 0 {
        if current is Some {
            "</ul></div></details>\n"@
        } else {
            seq![]
        }
    } else {
        let label = folder_label(links[0]);
        let opening = if current == Some(label) {
            seq![]
        } else if current is Some {
            "</ul></div></details>\n\n"@ + group_open(label)
        } else {
            group_open(label)
        };
        opening + file_item(links[0]) + index_body(links.drop_first(), Some(label))
    }
}

/// The Markdown index of a project: a heading, then its page links in
/// ascending order, grouped by folder.
pub open spec fn project_index(project: Seq<char>, links: Seq<Seq<char>>) -> Seq<char> {
    "# 🗃️ "@ + project + " Documentation\n\n"@ + index_body(sorted_order(links), None)
}

/// Whether a source is cloned with git (see `is_remote_source`).
pub fn is_remote(source: &str) -> (r: bool)
    ensures
        r == is_remote_source(source@),
{
    let s = chars_of(source);
    let http = chars_of("http");
    let git = chars_of("git@");
    starts_with(s.as_slice(), http.as_slice()) || starts_with(s.as_slice(), git.as_slice())
}

/// The name of the project a source holds (see `project_name`).
pub fn project_name_of(source: &str) -> (r: String)
    ensures
        r@ == project_name(source@),
{
    let s = chars_of(source);
    if is_remote(source) {
        let last = after_last_of(s.as_slice(), '/');
        let pat = chars_of(".git");
        let empty: Vec<char> = Vec::new();
        assert(pat@.len() > 0) by {
            reveal_strlit(".git");
        }
        let name = replace_chars(last.as_slice(), pat.as_slice(), empty.as_slice());
        assert(empty@ =~= Seq::<char>::empty());
        string_of(name.as_slice())
    } else {
        match file_name_of(s.as_slice()) {
            Some(name) => string_of(name.as_slice()),
            None => String::new(),
        }
    }
}

/// The heading under which a page link is listed (see `folder_label`).
pub fn folder_label_of(link: &str) -> (r: String)
    ensures
        r@ == folder_label(link@),
{
    let l = chars_of(link);
    let parent = before_last_of(l.as_slice(), '/');
    if parent.len() == 0 {
        String::from_str("Root Project Files")
    } else {
        let mut r = String::from_str("📁 ");
        push_chars(&mut r, parent.as_slice());
        r
    }
}

/// The list item that links one page (see `file_item`).
pub fn file_item_markdown(link: &str) -> (r: String)
    ensures
        r@ == file_item(link@),
{
    let l = chars_of(link);
    let name = after_last_of(l.as_slice(), '/');
    let mut r = String::from_str("<li><a href=\"");
    r.append(link);
    r.append("\">📄 ");
    push_chars(&mut r, name.as_slice());
    r.append("</a></li>\n");
    r
}

/// The view of the heading of the group that is open, if any.
spec fn label_view(o: Option<String>) -> Option<Seq<char>> {
    match o {
        Some(c) => Some(c@),
        None => None,
    }
}

/// The Markdown index of a project (see `project_index`).
pub fn project_index_markdown(project: &str, links: Vec<String>) -> (r: String)
    ensures
        r@ == project_index(project@, views(links@)),
{
    let sorted = sorted_strings(links);
    let ghost all = views(sorted@);
    let mut md = String::from_str("# 🗃️ ");
    md.append(project);
    md.append(" Documentation\n\n");
    let ghost head = md@;
    let mut current: Option<String> = None;
    let mut i: usize = 0;
    assert(all.subrange(0, all.len() as int) =~= all);
    while i < sorted.len()
        invariant
            i <= sorted@.len(),
            all == views(sorted@),
            md@ + index_body(all.subrange(i as int, all.len() as int), label_view(current)) == head
                + index_body(all, None),
        decreases sorted@.len() - i,
    {
        let ghost cur = label_view(current);
        let ghost rest = all.subrange(i as int, all.len() as int);
        assert(rest[0] == all[i as int]);
        assert(rest.drop_first() =~= all.subrange(i + 1, all.len() as int));
        let link = &sorted[i];
        let label = folder_label_of(link.as_str());
        let same = match &current {
            Some(c) => *c == label,
            None => false,
        };
        let ghost before = md@;
        if !same {
            if current.is_some() {
                md.append("</ul></div></details>\n\n");
            }
            md.append("<details class=\"folder-group\" open>\n<summary>");
            md.append(label.as_str());
            md.append("</summary>\n<div class=\"file-explorer\">\n<ul>\n");
        }
        let item = file_item_markdown(link.as_str());
        md.append(item.as_str());
        proof {
            let opening = if cur == Some(label@) {
                Seq::<char>::empty()
            } else if cur is Some {
                "</ul></div></details>\n\n"@ + group_open(label@)
            } else {
                group_open(label@)
            };
            assert(md@ =~= before + opening + file_item(link@));
        }
        current = Some(label);
        i = i + 1;
    }
    if current.is_some() {
        md.append("</ul></div></details>\n");
    }
    proof {
        assert(all.subrange(i as int, all.len() as int) =~= Seq::<Seq<char>>::empty());
    }
    md
}

/// The groups of a project index link each page.
proof fn lemma_index_body_links(links: Seq<Seq<char>>, current: Option<Seq<char>>, k: int)
    requires
        0 <= k < links.len(),
    ensures
        occurs_in(index_body(links, current), file_item(links[k])),
    decreases links.len(),
{
    let label = folder_label(links[0]);
    let opening = if current == Some(label) {
        Seq::<char>::empty()
    } else if current is Some {
        "</ul></div></details>\n\n"@ + group_open(label)
    } else {
        group_open(label)
    };
    let first = file_item(links[0]);
    let rest = index_body(links.drop_first(), Some(label));
    let body = index_body(links, current);
    assert(body == opening + first + rest);
    let item = file_item(links[k]);
    if k == 0 {
        let off = opening.len() as int;
        assert(body.subrange(off, off + item.len()) =~= item);
        assert(occurs_at(body, item, off));
    } else {
        assert(links.drop_first()[k - 1] == links[k]);
        lemma_index_body_links(links.drop_first(), Some(label), k - 1);
        let i = choose|i: int| occurs_at(rest, item, i);
        let off = (opening.len() + first.len()) as int;
        assert(body.subrange(off + i, off + i + item.len()) =~= rest.subrange(i, i + item.len()));
        assert(occurs_at(body, item, off + i));
    }
}

/// Law: the index of a project links every page of the project.
#[verifier::rlimit(40)]
pub proof fn law_project_index_links_every_page(project: Seq<char>, links: Seq<Seq<char>>, k: int)
    requires
        0 <= k < links.len(),
    ensures
        occurs_in(project_index(project, links), file_item(links[k])),
{
    broadcast use vstd::seq_lib::group_to_multiset_ensures;

    let t = sorted_order(links);
    crate::text::lemma_sorted_order(links);
    assert(links.to_multiset().count(links[k]) > 0);
    assert(t.contains(links[k]));
    let j = choose|j: int| 0 <= j < t.len() && t[j] == links[k];
    lemma_index_body_links(t, None, j);
    let body = index_body(t, None);
    let item = file_item(links[k]);
    let i = choose|i: int| occurs_at(body, item, i);
    let page = project_index(project, links);
    let off = ("# 🗃️ "@ + project + " Documentation\n\n"@).len() as int;
    assert(page.subrange(off + i, off + i + item.len()) =~= body.subrange(i, i + item.len()));
    assert(occurs_at(page, item, off + i));
}

// ---------------------------------------------------------------------------
// Pages of source files
// ---------------------------------------------------------------------------

/// A folder the builder does not enter: a hidden one, or one that holds
/// build output or dependencies.
pub open spec fn is_skipped_dir(name: Seq<char>) -> bool {
    has_prefix(name, "."@) || name == "target"@ || name == "node_modules"@ || name == "dist"@
}

/// The kind of page a source file becomes.
#[derive(PartialEq, Eq, Structural, Clone, Copy, Debug)]
pub enum PageKind {
    /// A Markdown file, rendered as it is.
    Markdown,
    /// A code or text file, rendered as one fenced code block.
    Code,
}

/// An extension of files shown as code.
pub open spec fn is_code_extension(e: Seq<char>) -> bool {
    e == "rs"@ || e == "py"@ || e == "js"@ || e == "ts"@ || e == "json"@ || e == "toml"@ || e == "yaml"@ || e == "yml"@ || e == "c"@ || e == "cpp"@ || e == "h"@ || e == "sh"@ || e == "txt"@ || e == "html"@ || e == "css"@ || e == "java"@ || e == "kt"@
}

/// The kind of page a file with extension `e` becomes, if any.
pub open spec fn page_kind(e: Seq<char>) -> Option<PageKind> {
    if e == "md"@ || e == "markdown"@ {
        Some(PageKind::Markdown)
    } else if is_code_extension(e) {
        Some(PageKind::Code)
    } else {
        None
    }
}

/// The number of `/` in `s`.
pub open spec fn separator_count(s: Seq<char>) -> nat
    decreases s.len(),
{
    if s.len() == 0 {
        0
    } else {
        separator_count(s.drop_last()) + if s.last() == '/' {
            1nat
        } else {
            0nat
        }
    }
}

/// The relative path from a page `depth` folders down back to the root.
pub open spec fn root_prefix(depth: nat) -> Seq<char> {
    if depth == 0 {
        "./"@
    } else {
        repeat("../"@, depth)
    }
}

/// The extension of a path, or nothing.
pub open spec fn extension_or_empty(rel: Seq<char>) -> Seq<char> {
    match path_extension(rel) {
        Some(e) => e,
        None => seq![],
    }
}

/// The link to the page of the file at relative path `rel`.
pub open spec fn page_link(rel: Seq<char>) -> Seq<char> {
    replace_all(rel + ".html"@, "\\"@, "/"@)
}

/// The Markdown a page is rendered from.
pub open spec fn page_source(kind: PageKind, ext: Seq<char>, content: Seq<char>) -> Seq<char> {
    match kind {
        PageKind::Markdown => content,
        PageKind::Code => "```"@ + ext + "\n"@ + content + "\n```"@,
    }
}

/// How the file at a relative path becomes a page.
#[derive(Debug, PartialEq, Eq)]
pub struct PagePlan {
    /// The kind of page.
    pub kind: PageKind,
    /// The extension of the file.
    pub extension: String,
    /// The relative path from the page back to the root of the output.
    pub root_prefix: String,
    /// The page's path relative to the output folder.
    pub output: String,
    /// The link to the page from the project index.
    pub link: String,
    /// The title of the page: the file's name.
    pub title: String,
}

/// Whether two texts are equal.
fn same_text(a: &str, b: &str) -> (r: bool)
    ensures
        r == (a@ == b@),
{
    let x = chars_of(a);
    let y = chars_of(b);
    if x.len() != y.len() {
        return false;
    }
    let r = matches_at(x.as_slice(), y.as_slice(), 0);
    assert(r ==> x@ =~= y@) by {
        if r {
            assert(x@.subrange(0, y@.len() as int) =~= x@);
        }
    }
    assert(x@ == y@ ==> r) by {
        if x@ == y@ {
            assert(x@.subrange(0, y@.len() as int) =~= x@);
        }
    }
    r
}

/// Whether the builder passes over a folder (see `is_skipped_dir`).
pub fn skips_directory(name: &str) -> (r: bool)
    ensures
        r == is_skipped_dir(name@),
{
    let n = chars_of(name);
    let dot = chars_of(".");
    starts_with(n.as_slice(), dot.as_slice()) || same_text(name, "target") || same_text(name, "node_modules")
        || same_text(name, "dist")
}

/// The kind of page a file with this extension becomes (see `page_kind`).
pub fn page_kind_of(ext: &str) -> (r: Option<PageKind>)
    ensures
        r == page_kind(ext@),
{
    if same_text(ext, "md") || same_text(ext, "markdown") {
        Some(PageKind::Markdown)
    } else if same_text(ext, "rs") || same_text(ext, "py") || same_text(ext, "js") || same_text(ext, "ts") || same_text(ext, "json") || same_text(ext, "toml") || same_text(ext, "yaml") || same_text(ext, "yml") || same_text(ext, "c") || same_text(ext, "cpp") || same_text(ext, "h") || same_text(ext, "sh") || same_text(ext, "txt") || same_text(ext, "html") || same_text(ext, "css") || same_text(ext, "java") || same_text(ext, "kt") {
        Some(PageKind::Code)
    } else {
        None
    }
}

/// The number of `/` in a path.
fn separators(s: &[char]) -> (r: usize)
    ensures
        r == separator_count(s@),
{
    let mut count: usize = 0;
    let mut i: usize = 0;
    assert(s@.subrange(0, 0) =~= Seq::<char>::empty());
    while i < s.len()
        invariant
            i <= s@.len(),
            count == separator_count(s@.subrange(0, i as int)),
            count <= i,
        decreases s@.len() - i,
    {
        assert(s@.subrange(0, i + 1).drop_last() =~= s@.subrange(0, i as int));
        if s[i] == '/' {
            count = count + 1;
        }
        i = i + 1;
    }
    assert(s@.subrange(0, i as int) =~= s@);
    count
}

/// The relative path from a page `depth` folders down back to the root.
pub fn root_prefix_of(depth: usize) -> (r: String)
    ensures
        r@ == root_prefix(depth as nat),
{
    if depth == 0 {
        String::from_str("./")
    } else {
        let up = chars_of("../");
        let cs = repeat_chars(up.as_slice(), depth);
        string_of(cs.as_slice())
    }
}

/// How the file at relative path `rel` becomes a page, or `None` when it
/// does not become one.
///
/// The depth of the page is the number of `/` in `rel`, which is the
/// number of its components less one for the relative paths of files the
/// builder finds.
pub fn plan_page(rel: &str) -> (r: Option<PagePlan>)
    ensures
        r is None <==> page_kind(extension_or_empty(rel@)) is None,
        r matches Some(plan) ==> {
            &&& Some(plan.kind) == page_kind(extension_or_empty(rel@))
            &&& plan.extension@ == extension_or_empty(rel@)
            &&& plan.root_prefix@ == root_prefix(separator_count(rel@))
            &&& plan.output@ == rel@ + ".html"@
            &&& plan.link@ == page_link(rel@)
            &&& plan.title@ == match file_name(rel@) {
                Some(n) => n,
                None => seq![],
            }
        },
{
    let r_chars = chars_of(rel);
    let ext = match path_extension_of(r_chars.as_slice()) {
        Some(e) => string_of(e.as_slice()),
        None => String::new(),
    };
    let kind = match page_kind_of(ext.as_str()) {
        Some(k) => k,
        None => return None,
    };
    let depth = separators(r_chars.as_slice());
    let root_prefix = root_prefix_of(depth);
    let mut output = String::from_str(rel);
    output.append(".html");
    let out_chars = chars_of(output.as_str());
    let backslash = chars_of("\\");
    let slash = chars_of("/");
    assert(backslash@.len() > 0) by {
        reveal_strlit("\\");
    }
    let link_chars = replace_chars(out_chars.as_slice(), backslash.as_slice(), slash.as_slice());
    let link = string_of(link_chars.as_slice());
    let title = match file_name_of(r_chars.as_slice()) {
        Some(n) => string_of(n.as_slice()),
        None => String::new(),
    };
    Some(PagePlan { kind, extension: ext, root_prefix, output, link, title })
}

/// The Markdown a page is rendered from (see `page_source`).
pub fn page_markdown(kind: PageKind, ext: &str, content: &str) -> (r: String)
    ensures
        r@ == page_source(kind, ext@, content@),
{
    match kind {
        PageKind::Markdown => String::from_str(content),
        PageKind::Code => {
            let mut r = String::from_str("```");
            r.append(ext);
            r.append("\n");
            r.append(content);
            r.append("\n```");
            r
        },
    }
}

/// `../` repeated `d` times is `3 * d` long, holds `d` separators, and is
/// made of `d` blocks `../`.
proof fn lemma_climb(d: nat)
    ensures
        repeat("../"@, d).len() == 3 * d,
        separator_count(repeat("../"@, d)) == d,
        forall|i: int| 0 <= i < d ==> #[trigger] repeat("../"@, d).subrange(3 * i, 3 * i + 3) == "../"@,
    decreases d,
{
    reveal_strlit("../");
    if d > 0 {
        let x = repeat("../"@, (d - 1) as nat);
        lemma_climb((d - 1) as nat);
        let y = x + "../"@;
        assert(y == repeat("../"@, d));
        assert(y.drop_last() =~= x + seq!['.', '.']);
        assert(y.drop_last().drop_last() =~= x + seq!['.']);
        assert(y.drop_last().drop_last().drop_last() =~= x);
        assert(separator_count(y.drop_last().drop_last()) == separator_count(x));
        assert(separator_count(y.drop_last()) == separator_count(x));
        assert(separator_count(y) == separator_count(x) + 1);
        assert forall|i: int| 0 <= i < d implies #[trigger] y.subrange(3 * i, 3 * i + 3) == "../"@ by {
            if i < d - 1 {
                assert(y.subrange(3 * i, 3 * i + 3) =~= x.subrange(3 * i, 3 * i + 3));
            } else {
                assert(y.subrange(3 * i, 3 * i + 3) =~= "../"@);
            }
        }
    }
}

/// Law: the link back to the index climbs exactly as many folders as the
/// page is down. A page at the root links to `./`; a page `d > 0` folders
/// down links to `../` repeated `d` times: `3 * d` characters holding `d`
/// separators.
pub proof fn law_root_prefix_climbs_to_root(d: nat)
    ensures
        d == 0 ==> root_prefix(d) == "./"@,
        d > 0 ==> root_prefix(d).len() == 3 * d,
        d > 0 ==> separator_count(root_prefix(d)) == d,
        d > 0 ==> forall|i: int| 0 <= i < d ==> #[trigger] root_prefix(d).subrange(3 * i, 3 * i + 3) == "../"@,
{
    lemma_climb(d);
}

/// Law: in the index of a project, a new folder group is opened between
/// two consecutive links exactly when their folder labels differ as text:
/// the links of one folder are listed one after the other in the same
/// group, and the link that starts another folder follows the close of the
/// group before and the opening of a group headed by its own label.
pub proof fn law_index_groups_by_folder(links: Seq<Seq<char>>, current: Option<Seq<char>>, k: int)
    requires
        0 < k < links.len(),
    ensures
        folder_label(links[k]) == folder_label(links[k - 1]) ==> occurs_in(
            index_body(links, current),
            file_item(links[k - 1]) + file_item(links[k]),
        ),
        folder_label(links[k]) != folder_label(links[k - 1]) ==> occurs_in(
            index_body(links, current),
            file_item(links[k - 1]) + "</ul></div></details>\n\n"@ + group_open(folder_label(links[k]))
                + file_item(links[k]),
        ),
    decreases k,
{
    let label = folder_label(links[0]);
    let opening = if current == Some(label) {
        Seq::<char>::empty()
    } else if current is Some {
        "</ul></div></details>\n\n"@ + group_open(label)
    } else {
        group_open(label)
    };
    let rest = links.drop_first();
    let tail = index_body(rest, Some(label));
    let body = index_body(links, current);
    assert(body == opening + file_item(links[0]) + tail);
    let sep = if folder_label(links[k]) == folder_label(links[k - 1]) {
        Seq::<char>::empty()
    } else {
        "</ul></div></details>\n\n"@ + group_open(folder_label(links[k]))
    };
    let piece = file_item(links[k - 1]) + sep + file_item(links[k]);
    if k == 1 {
        assert(rest[0] == links[1]);
        let l1 = folder_label(rest[0]);
        let opening1 = if Some(label) == Some(l1) {
            Seq::<char>::empty()
        } else {
            "</ul></div></details>\n\n"@ + group_open(l1)
        };
        assert(opening1 == sep);
        assert(tail == opening1 + file_item(rest[0]) + index_body(rest.drop_first(), Some(l1)));
        let off = opening.len() as int;
        assert(body.subrange(off, off + piece.len()) =~= piece);
        assert(occurs_at(body, piece, off));
    } else {
        assert(rest[k - 1] == links[k]);
        assert(rest[k - 2] == links[k - 1]);
        law_index_groups_by_folder(rest, Some(label), k - 1);
        if folder_label(links[k]) == folder_label(links[k - 1]) {
            assert(piece =~= file_item(links[k - 1]) + file_item(links[k]));
        } else {
            assert(piece =~= file_item(links[k - 1]) + "</ul></div></details>\n\n"@ + group_open(
                folder_label(links[k]),
            ) + file_item(links[k]));
        }
        assert(occurs_in(tail, piece));
        let i = choose|i: int| occurs_at(tail, piece, i);
        let off = (opening.len() + file_item(links[0]).len()) as int;
        assert(body.subrange(off + i, off + i + piece.len()) =~= tail.subrange(i, i + piece.len()));
        assert(occurs_at(body, piece, off + i));
    }
    if folder_label(links[k]) == folder_label(links[k - 1]) {
        assert(piece =~= file_item(links[k - 1]) + file_item(links[k]));
    } else {
        assert(piece =~= file_item(links[k - 1]) + "</ul></div></details>\n\n"@ + group_open(
            folder_label(links[k]),
        ) + file_item(links[k]));
    }
}

/// Law: the index of a project opens with the group of its first page,
/// headed by that page's folder label, and then lists that page; after
/// it, consecutive pages (in the sorted order of the index) share a group
/// exactly when their folder labels are the same text, as
/// `law_index_groups_by_folder` says.
pub proof fn law_project_index_groups_by_folder(project: Seq<char>, links: Seq<Seq<char>>, k: int)
    requires
        0 <= k < sorted_order(links).len(),
    ensures
        ({
            let t = sorted_order(links);
            &&& k == 0 ==> has_prefix(
                project_index(project, links),
                "# 🗃️ "@ + project + " Documentation\n\n"@ + group_open(folder_label(t[0])) + file_item(t[0]),
            )
            &&& k > 0 && folder_label(t[k]) == folder_label(t[k - 1]) ==> occurs_in(
                project_index(project, links),
                file_item(t[k - 1]) + file_item(t[k]),
            )
            &&& k > 0 && folder_label(t[k]) != folder_label(t[k - 1]) ==> occurs_in(
                project_index(project, links),
                file_item(t[k - 1]) + "</ul></div></details>\n\n"@ + group_open(folder_label(t[k]))
                    + file_item(t[k]),
            )
        }),
{
    let t = sorted_order(links);
    let head = "# 🗃️ "@ + project + " Documentation\n\n"@;
    let body = index_body(t, None);
    let page = project_index(project, links);
    assert(page == head + body);
    if k == 0 {
        let first = group_open(folder_label(t[0])) + file_item(t[0]);
        assert(body == first + index_body(t.drop_first(), Some(folder_label(t[0]))));
        assert(page =~= (head + first) + index_body(t.drop_first(), Some(folder_label(t[0]))));
        assert(page.subrange(0, (head + first).len() as int) =~= head + first);
        assert(head + first =~= head + group_open(folder_label(t[0])) + file_item(t[0]));
    } else {
        law_index_groups_by_folder(t, None, k);
        let piece = if folder_label(t[k]) == folder_label(t[k - 1]) {
            file_item(t[k - 1]) + file_item(t[k])
        } else {
            file_item(t[k - 1]) + "</ul></div></details>\n\n"@ + group_open(folder_label(t[k])) + file_item(t[k])
        };
        let i = choose|i: int| occurs_at(body, piece, i);
        let off = head.len() as int;
        assert(page.subrange(off + i, off + i + piece.len()) =~= body.subrange(i, i + piece.len()));
        assert(occurs_at(page, piece, off + i));
    }
}

} // verus!
