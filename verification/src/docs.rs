//! The document tree that a project is projected into, and its Markdown
//! rendering.
use crate::text::{decimal, file_name, file_name_of, has_file_name, pair_texts, push_decimal};
use inform::fmt::IndentFormatter;
use std::fmt::Write;
use vstd::prelude::*;

verus! {

/// Spaces per indentation level of the rendered text.
pub const INDENT: usize = 2;

/// How far a symbol can be seen.
#[derive(Clone, Copy, PartialEq, Eq, Structural, Debug)]
pub enum Visibility {
    Global,
    Private,
    External,
}

impl Visibility {
    /// The word shown for this visibility.
    pub open spec fn text(self) -> Seq<char> {
        match self {
            Visibility::Global => "global"@,
            Visibility::Private => "private"@,
            Visibility::External => "external"@,
        }
    }

    pub fn to_string(&self) -> (s: String)
        ensures
            s@ == self.text(),
    {
        match self {
            Visibility::Global => "global".to_owned(),
            Visibility::Private => "private".to_owned(),
            Visibility::External => "external".to_owned(),
        }
    }
}

/// A backend-agnostic document tree.
#[derive(Debug)]
pub enum Docs {
    File { path: String, symbols: Box<Docs>, defines: Box<Docs>, macros: Box<Docs> },
    Paragraphs(Vec<Box<Docs>>),
    List(Vec<Box<Docs>>),
    Table { header: Vec<Box<Docs>>, rows: Vec<Vec<Box<Docs>>> },
    Macro { name: String, arg_count: usize },
    Define { name: String },
    InlineCode(String),
    Text(String),
    CellLines(Vec<Box<Docs>>),
    ResolveFile(String),
    Concat(Vec<Box<Docs>>),
}

/// The mathematical content of a [`Docs`] tree.
pub enum DocsView {
    File { path: Seq<char>, symbols: Box<DocsView>, defines: Box<DocsView>, macros: Box<DocsView> },
    Paragraphs(Seq<DocsView>),
    List(Seq<DocsView>),
    Table { header: Seq<DocsView>, rows: Seq<Seq<DocsView>> },
    Macro { name: Seq<char>, arg_count: nat },
    Define { name: Seq<char> },
    InlineCode(Seq<char>),
    Text(Seq<char>),
    CellLines(Seq<DocsView>),
    ResolveFile(Seq<char>),
    Concat(Seq<DocsView>),
}

/// The content of each tree of `items`.
pub open spec fn views(items: Seq<Box<Docs>>) -> Seq<DocsView> {
    Seq::new(items.len(), |i: int| items[i].view())
}

impl Docs {
    pub open spec fn view(&self) -> DocsView
        decreases self,
    {
        match self {
            Docs::File { path, symbols, defines, macros } => DocsView::File {
                path: path@,
                symbols: Box::new(symbols.view()),
                defines: Box::new(defines.view()),
                macros: Box::new(macros.view()),
            },
            Docs::Paragraphs(items) => DocsView::Paragraphs(
                Seq::new(
                    items@.len(),
                    |i: int|
                        if 0 <= i < items@.len() {
                            items@[i].view()
                        } else {
                            DocsView::Text(Seq::empty())
                        },
                ),
            ),
            Docs::List(items) => DocsView::List(
                Seq::new(
                    items@.len(),
                    |i: int|
                        if 0 <= i < items@.len() {
                            items@[i].view()
                        } else {
                            DocsView::Text(Seq::empty())
                        },
                ),
            ),
            Docs::Table { header, rows } => DocsView::Table {
                header: Seq::new(
                    header@.len(),
                    |i: int|
                        if 0 <= i < header@.len() {
                            header@[i].view()
                        } else {
                            DocsView::Text(Seq::empty())
                        },
                ),
                rows: Seq::new(
                    rows@.len(),
                    |r: int|
                        Seq::new(
                            if 0 <= r < rows@.len() {
                                rows@[r]@.len()
                            } else {
                                0
                            },
                            |i: int|
                                if 0 <= r < rows@.len() && 0 <= i < rows@[r]@.len() {
                                    rows@[r]@[i].view()
                                } else {
                                    DocsView::Text(Seq::empty())
                                },
                        ),
                ),
            },
            Docs::Macro { name, arg_count } => DocsView::Macro {
                name: name@,
                arg_count: *arg_count as nat,
            },
            Docs::Define { name } => DocsView::Define { name: name@ },
            Docs::InlineCode(code) => DocsView::InlineCode(code@),
            Docs::Text(text) => DocsView::Text(text@),
            Docs::CellLines(items) => DocsView::CellLines(
                Seq::new(
                    items@.len(),
                    |i: int|
                        if 0 <= i < items@.len() {
                            items@[i].view()
                        } else {
                            DocsView::Text(Seq::empty())
                        },
                ),
            ),
            Docs::ResolveFile(file) => DocsView::ResolveFile(file@),
            Docs::Concat(items) => DocsView::Concat(
                Seq::new(
                    items@.len(),
                    |i: int|
                        if 0 <= i < items@.len() {
                            items@[i].view()
                        } else {
                            DocsView::Text(Seq::empty())
                        },
                ),
            ),
        }
    }

    /// Whether this tree has nothing to show: a list, table or sequence
    /// without entries.
    pub fn is_empty(&self) -> (b: bool)
        ensures
            b == self@.is_empty(),
    {
        match self {
            Docs::File { .. } => false,
            Docs::Paragraphs(items) => items.len() == 0,
            Docs::List(list) => list.len() == 0,
            Docs::Table { rows, .. } => rows.len() == 0,
            Docs::Macro { .. } => false,
            Docs::Define { .. } => false,
            Docs::InlineCode(..) => false,
            Docs::Text(..) => false,
            Docs::CellLines(lines) => lines.len() == 0,
            Docs::ResolveFile(..) => false,
            Docs::Concat(items) => items.len() == 0,
        }
    }
}

impl DocsView {
    /// Whether this tree has nothing to show.
    pub open spec fn is_empty(self) -> bool {
        match self {
            DocsView::Paragraphs(items) => items.len() == 0,
            DocsView::List(items) => items.len() == 0,
            DocsView::Table { rows, .. } => rows.len() == 0,
            DocsView::CellLines(lines) => lines.len() == 0,
            DocsView::Concat(items) => items.len() == 0,
            _ => false,
        }
    }
}

/// Where the document of each source file will be: pairs of a source path
/// and the path of its document.
pub type Links = Seq<(Seq<char>, Seq<char>)>;

/// The content of a list of link targets.
pub open spec fn link_views(file_map: Seq<(String, String)>) -> Links {
    pair_texts(file_map)
}

/// The target of the first pair at or after index `i` whose source is `file`.
pub open spec fn link_from(links: Links, file: Seq<char>, i: int) -> Option<Seq<char>>
    decreases links.len() - i,
{
    if i < 0 || i >= links.len() {
        None
    } else if links[i].0 == file {
        Some(links[i].1)
    } else {
        link_from(links, file, i + 1)
    }
}

/// The document path that `links` gives for `file`, if any.
pub open spec fn link_of(links: Links, file: Seq<char>) -> Option<Seq<char>> {
    link_from(links, file, 0)
}

/// Whether every tree of `items` can be shown with the targets `links`.
pub open spec fn all_showable(items: Seq<DocsView>, links: Links) -> bool
    decreases items, 0nat,
{
    forall|i: int| 0 <= i < items.len() ==> showable(#[trigger] items[i], links)
}

/// Whether every tree of every row of `rows` can be shown with the targets
/// `links`.
pub open spec fn rows_showable(rows: Seq<Seq<DocsView>>, links: Links) -> bool
    decreases rows, 1nat,
{
    forall|r: int| 0 <= r < rows.len() ==> all_showable(#[trigger] rows[r], links)
}

/// Whether `d` can be shown with the targets `links`: every file that it
/// documents or refers to has a file name, and `links` has a target for
/// every file that it refers to.
pub open spec fn showable(d: DocsView, links: Links) -> bool
    decreases d, 2nat,
{
    match d {
        DocsView::File { path, symbols, defines, macros } => has_file_name(path) && showable(
            *symbols,
            links,
        ) && showable(*defines, links) && showable(*macros, links),
        DocsView::Paragraphs(items) => all_showable(items, links),
        DocsView::List(items) => all_showable(items, links),
        DocsView::Table { header, rows } => all_showable(header, links) && rows_showable(
            rows,
            links,
        ),
        DocsView::CellLines(items) => all_showable(items, links),
        DocsView::ResolveFile(file) => has_file_name(file) && link_of(links, file) is Some,
        DocsView::Concat(items) => all_showable(items, links),
        _ => true,
    }
}

/// The first line of every rendered file.
pub open spec fn banner() -> Seq<char> {
    "<!-- This file was generated by asmdoc <https://github.com/ethanuppal/asmdoc>. -->"@
}

/// `text`, `n` times over.
pub open spec fn repeated(text: Seq<char>, n: nat) -> Seq<char>
    decreases n,
{
    if n == 0 {
        Seq::empty()
    } else {
        repeated(text, (n - 1) as nat) + text
    }
}

/// The Markdown text of the first `n` trees of `items`: each between
/// `prefix` and `suffix`, with `sep` before every one but the first.
pub open spec fn items_text(
    items: Seq<DocsView>,
    links: Links,
    sep: Seq<char>,
    prefix: Seq<char>,
    suffix: Seq<char>,
    n: nat,
) -> Seq<char>
    decreases items, n,
{
    if n == 0 || n > items.len() {
        Seq::empty()
    } else {
        items_text(items, links, sep, prefix, suffix, (n - 1) as nat) + (if n > 1 {
            sep
        } else {
            Seq::empty()
        }) + prefix + markdown(items[n - 1], links) + suffix
    }
}

/// The Markdown text of the first `n` rows of a table.
pub open spec fn rows_text(rows: Seq<Seq<DocsView>>, links: Links, n: nat) -> Seq<char>
    decreases rows, n,
{
    if n == 0 || n > rows.len() {
        Seq::empty()
    } else {
        rows_text(rows, links, (n - 1) as nat) + "| "@ + items_text(
            rows[n - 1],
            links,
            Seq::empty(),
            Seq::empty(),
            " |"@,
            rows[n - 1].len(),
        ) + "\n"@
    }
}

/// A titled part of a file's document; nothing when `body` is empty.
pub open spec fn part(title: Seq<char>, body_is_empty: bool, body: Seq<char>) -> Seq<char> {
    if body_is_empty {
        Seq::empty()
    } else {
        title + "\n"@ + body + "\n"@
    }
}

/// The Markdown text of `d`. A reference to a file shows the file's name and
/// links to the target that `links` gives for it.
pub open spec fn markdown(d: DocsView, links: Links) -> Seq<char>
    decreases d, 0nat,
{
    match d {
        DocsView::File { path, symbols, defines, macros } => banner() + "\n"@ + "# "@ + file_name(
            path,
        ) + "\n\n"@ + part("## Symbols"@, symbols.is_empty(), markdown(*symbols, links)) + part(
            "## Defines"@,
            defines.is_empty(),
            markdown(*defines, links),
        ) + part("## Macros"@, macros.is_empty(), markdown(*macros, links)),
        DocsView::Paragraphs(items) => items_text(
            items,
            links,
            Seq::empty(),
            "- "@,
            "\n\n"@,
            items.len(),
        ),
        DocsView::List(items) => items_text(
            items,
            links,
            Seq::empty(),
            "- "@,
            "\n"@,
            items.len(),
        ),
        DocsView::Table { header, rows } => "\n| "@ + items_text(
            header,
            links,
            Seq::empty(),
            Seq::empty(),
            " |"@,
            header.len(),
        ) + "\n"@ + "| "@ + repeated("--- |"@, header.len()) + "\n"@ + rows_text(
            rows,
            links,
            rows.len(),
        ),
        DocsView::Macro { name, arg_count } => "`"@ + name + "` ("@ + decimal(arg_count)
            + " argument"@ + (if arg_count == 1 {
            Seq::empty()
        } else {
            "s"@
        }) + ")"@,
        DocsView::Define { name } => "`"@ + name + "`"@,
        DocsView::InlineCode(code) => "`"@ + code + "`"@,
        DocsView::Text(text) => text,
        DocsView::CellLines(lines) => items_text(
            lines,
            links,
            "<br>"@,
            Seq::empty(),
            Seq::empty(),
            lines.len(),
        ),
        DocsView::ResolveFile(file) => "["@ + file_name(file) + "]("@ + (match link_of(
            links,
            file,
        ) {
            Some(target) => target,
            None => Seq::empty(),
        }) + ")"@,
        DocsView::Concat(items) => items_text(
            items,
            links,
            Seq::empty(),
            Seq::empty(),
            Seq::empty(),
            items.len(),
        ),
    }
}

/// Appends `text` to `out` by way of `inform::fmt::IndentFormatter`. Its
/// `write_str` hands each character on and puts the current indentation
/// after a line break; a formatter fresh from `IndentFormatter::new` has no
/// indentation. So what arrives in `out` is `text` as it stands.
#[verifier::external_body]
fn write_text(out: &mut String, text: &str)
    ensures
        final(out)@ == old(out)@ + text@,
{
    let shown = std::fmt::from_fn(|f| IndentFormatter::new(f, INDENT).write_str(text));
    let _ = write!(out, "{}", shown);
}

/// The target that `file_map` gives for `file`, if any.
pub fn find_link<'a>(file_map: &'a Vec<(String, String)>, file: &String) -> (r: Option<&'a String>)
    ensures
        match r {
            Some(target) => link_of(link_views(file_map@), file@) == Some(target@),
            None => link_of(link_views(file_map@), file@) is None,
        },
{
    let ghost links = link_views(file_map@);
    let mut i: usize = 0;
    while i < file_map.len()
        invariant
            i <= file_map.len(),
            links == link_views(file_map@),
            link_of(links, file@) == link_from(links, file@, i as int),
        decreases file_map.len() - i,
    {
        assert(links[i as int] == (file_map@[i as int].0@, file_map@[i as int].1@));
        if file_map[i].0 == *file {
            return Some(&file_map[i].1);
        }
        i += 1;
    }
    None
}

/// The content of each row of `rows`.
pub open spec fn row_views(rows: Seq<Vec<Box<Docs>>>) -> Seq<Seq<DocsView>> {
    Seq::new(rows.len(), |r: int| views(rows[r]@))
}

/// The content of a list with one more tree at its end.
pub proof fn lemma_views_push(items: Seq<Box<Docs>>, last: Box<Docs>)
    ensures
        views(items.push(last)) == views(items).push(last.view()),
{
    assert(views(items.push(last)) =~= views(items).push(last.view()));
}

/// The content of a list of rows with one more row at its end.
pub proof fn lemma_row_views_push(rows: Seq<Vec<Box<Docs>>>, last: Vec<Box<Docs>>)
    ensures
        row_views(rows.push(last)) == row_views(rows).push(views(last@)),
{
    assert(row_views(rows.push(last)) =~= row_views(rows).push(views(last@)));
}

/// The content of a tree with subtrees, in terms of theirs.
pub proof fn lemma_view_of_items(docs: &Docs)
    ensures
        docs matches Docs::Paragraphs(items) ==> docs@ == DocsView::Paragraphs(views(items@)),
        docs matches Docs::List(items) ==> docs@ == DocsView::List(views(items@)),
        docs matches Docs::CellLines(items) ==> docs@ == DocsView::CellLines(views(items@)),
        docs matches Docs::Concat(items) ==> docs@ == DocsView::Concat(views(items@)),
        docs matches Docs::Table { header, rows } ==> docs@ == (DocsView::Table {
            header: views(header@),
            rows: row_views(rows@),
        }),
{
    match docs {
        Docs::Paragraphs(items) => {
            assert(docs@->Paragraphs_0 =~= views(items@));
        },
        Docs::List(items) => {
            assert(docs@->List_0 =~= views(items@));
        },
        Docs::CellLines(items) => {
            assert(docs@->CellLines_0 =~= views(items@));
        },
        Docs::Concat(items) => {
            assert(docs@->Concat_0 =~= views(items@));
        },
        Docs::Table { header, rows } => {
            assert(docs@->Table_header =~= views(header@));
            assert forall|r: int| 0 <= r < rows@.len() implies (#[trigger] docs@->Table_rows[r])
                =~= views(rows@[r]@) by {}
            assert(docs@->Table_rows =~= row_views(rows@));
        },
        _ => {},
    }
}

fn items_showable(items: &Vec<Box<Docs>>, file_map: &Vec<(String, String)>) -> (b: bool)
    ensures
        b == all_showable(views(items@), link_views(file_map@)),
    decreases items, 0nat,
{
    let mut i: usize = 0;
    while i < items.len()
        invariant
            i <= items.len(),
            forall|k: int|
                0 <= k < i ==> showable(#[trigger] views(items@)[k], link_views(file_map@)),
        decreases items.len() - i,
    {
        if !items[i].is_showable(file_map) {
            assert(!showable(views(items@)[i as int], link_views(file_map@)));
            return false;
        }
        i += 1;
    }
    true
}

impl Docs {
    /// Whether this tree can be shown with the targets `file_map`: every
    /// file that it documents or refers to has a file name, and `file_map`
    /// has a target for every file that it refers to.
    pub fn is_showable(&self, file_map: &Vec<(String, String)>) -> (b: bool)
        ensures
            b == showable(self@, link_views(file_map@)),
        decreases self, 1nat,
    {
        proof {
            lemma_view_of_items(self);
        }
        match self {
            Docs::File { path, symbols, defines, macros } => {
                let named = file_name_of(path.as_str()).is_some();
                let a = symbols.is_showable(file_map);
                let b = defines.is_showable(file_map);
                let c = macros.is_showable(file_map);
                named && a && b && c
            },
            Docs::Paragraphs(items) => items_showable(items, file_map),
            Docs::List(items) => items_showable(items, file_map),
            Docs::Table { header, rows } => {
                if !items_showable(header, file_map) {
                    return false;
                }
                let ghost links = link_views(file_map@);
                let mut r: usize = 0;
                while r < rows.len()
                    invariant
                        r <= rows.len(),
                        links == link_views(file_map@),
                        *self matches Docs::Table { header: h, rows: rs } && rs == *rows,
                        self@ == (DocsView::Table {
                            header: views(header@),
                            rows: row_views(rows@),
                        }),
                        all_showable(views(header@), links),
                        forall|k: int|
                            0 <= k < r ==> all_showable(#[trigger] row_views(rows@)[k], links),
                    decreases rows.len() - r,
                {
                    assert(row_views(rows@)[r as int] == views(rows@[r as int]@));
                    if !items_showable(&rows[r], file_map) {
                        assert(!rows_showable(row_views(rows@), links));
                        return false;
                    }
                    r += 1;
                }
                assert(rows_showable(row_views(rows@), links));
                true
            },
            Docs::Macro { .. } => true,
            Docs::Define { .. } => true,
            Docs::InlineCode(..) => true,
            Docs::Text(..) => true,
            Docs::CellLines(items) => items_showable(items, file_map),
            Docs::ResolveFile(file) => file_name_of(file.as_str()).is_some() && find_link(
                file_map,
                file,
            ).is_some(),
            Docs::Concat(items) => items_showable(items, file_map),
        }
    }
}

fn render_items(
    items: &Vec<Box<Docs>>,
    out: &mut String,
    file_map: &Vec<(String, String)>,
    sep: &str,
    prefix: &str,
    suffix: &str,
)
    requires
        all_showable(views(items@), link_views(file_map@)),
    ensures
        final(out)@ == old(out)@ + items_text(
            views(items@),
            link_views(file_map@),
            sep@,
            prefix@,
            suffix@,
            items@.len(),
        ),
    decreases items, 3nat,
{
    let ghost links = link_views(file_map@);
    let ghost start = out@;
    let mut i: usize = 0;
    assert(out@ =~= start + items_text(views(items@), links, sep@, prefix@, suffix@, 0));
    while i < items.len()
        invariant
            i <= items.len(),
            links == link_views(file_map@),
            all_showable(views(items@), links),
            out@ == start + items_text(views(items@), links, sep@, prefix@, suffix@, i as nat),
        decreases items.len() - i,
    {
        if i > 0 {
            write_text(out, sep);
        }
        write_text(out, prefix);
        assert(showable(views(items@)[i as int], links));
        render(&items[i], out, file_map);
        write_text(out, suffix);
        i += 1;
        assert(out@ =~= start + items_text(views(items@), links, sep@, prefix@, suffix@, i as nat));
    }
}

fn render_part(title: &str, body: &Docs, out: &mut String, file_map: &Vec<(String, String)>)
    requires
        showable(body@, link_views(file_map@)),
    ensures
        final(out)@ == old(out)@ + part(
            title@,
            body@.is_empty(),
            markdown(body@, link_views(file_map@)),
        ),
    decreases body, 3nat,
{
    if !body.is_empty() {
        let ghost start = out@;
        write_text(out, title);
        write_text(out, "\n");
        render(body, out, file_map);
        write_text(out, "\n");
        assert(out@ =~= start + part(
            title@,
            body@.is_empty(),
            markdown(body@, link_views(file_map@)),
        ));
    } else {
        assert(out@ =~= out@ + Seq::<char>::empty());
    }
}

fn render_rule(out: &mut String, columns: usize)
    ensures
        final(out)@ == old(out)@ + repeated("--- |"@, columns as nat),
{
    let ghost start = out@;
    let mut i: usize = 0;
    assert(out@ =~= start + repeated("--- |"@, 0));
    while i < columns
        invariant
            i <= columns,
            out@ == start + repeated("--- |"@, i as nat),
        decreases columns - i,
    {
        write_text(out, "--- |");
        i += 1;
        assert(out@ =~= start + repeated("--- |"@, i as nat));
    }
}

fn render_file(docs: &Docs, out: &mut String, file_map: &Vec<(String, String)>)
    requires
        docs is File,
        showable(docs@, link_views(file_map@)),
    ensures
        final(out)@ == old(out)@ + markdown(docs@, link_views(file_map@)),
    decreases docs, 1nat,
{
    let ghost links = link_views(file_map@);
    let ghost start = out@;
    match docs {
        Docs::File { path, symbols, defines, macros } => {
            write_text(
                out,
                "<!-- This file was generated by asmdoc <https://github.com/ethanuppal/asmdoc>. -->",
            );
            write_text(out, "\n");
            write_text(out, "# ");
            match file_name_of(path.as_str()) {
                Some(name) => {
                    write_text(out, name.as_str());
                },
                None => {},
            }
            write_text(out, "\n\n");
            let ghost head = out@;
            assert(head =~= start + (banner() + "\n"@ + "# "@ + file_name(path@) + "\n\n"@));
            render_part("## Symbols", symbols, out, file_map);
            render_part("## Defines", defines, out, file_map);
            render_part("## Macros", macros, out, file_map);
            assert(out@ =~= start + markdown(docs@, links));
        },
        _ => {},
    }
}

fn render_table(docs: &Docs, out: &mut String, file_map: &Vec<(String, String)>)
    requires
        docs is Table,
        showable(docs@, link_views(file_map@)),
    ensures
        final(out)@ == old(out)@ + markdown(docs@, link_views(file_map@)),
    decreases docs, 1nat,
{
    let ghost links = link_views(file_map@);
    let ghost start = out@;
    proof {
        lemma_view_of_items(docs);
    }
    match docs {
        Docs::Table { header, rows } => {
            proof {
                reveal_strlit("");
                assert(""@ =~= Seq::<char>::empty());
            }
            write_text(out, "\n| ");
            render_items(header, out, file_map, "", "", " |");
            write_text(out, "\n");
            write_text(out, "| ");
            render_rule(out, header.len());
            write_text(out, "\n");
            let ghost head = out@;
            assert(head =~= start + ("\n| "@ + items_text(
                views(header@),
                links,
                Seq::empty(),
                Seq::empty(),
                " |"@,
                header@.len(),
            ) + "\n"@ + "| "@ + repeated("--- |"@, header@.len()) + "\n"@));
            let mut r: usize = 0;
            assert(rows_showable(row_views(rows@), links));
            assert(out@ =~= head + rows_text(row_views(rows@), links, 0));
            while r < rows.len()
                invariant
                    r <= rows.len(),
                    links == link_views(file_map@),
                    ""@ == Seq::<char>::empty(),
                    *docs matches Docs::Table { header: h, rows: rs } && rs == *rows,
                    rows_showable(row_views(rows@), links),
                    out@ == head + rows_text(row_views(rows@), links, r as nat),
                decreases rows.len() - r,
            {
                assert(row_views(rows@)[r as int] == views(rows@[r as int]@));
                write_text(out, "| ");
                render_items(&rows[r], out, file_map, "", "", " |");
                write_text(out, "\n");
                r += 1;
                assert(out@ =~= head + rows_text(row_views(rows@), links, r as nat));
            }
            assert(out@ =~= start + markdown(docs@, links));
        },
        _ => {},
    }
}

fn render_macro(name: &String, arg_count: usize, out: &mut String)
    ensures
        final(out)@ == old(out)@ + ("`"@ + name@ + "` ("@ + decimal(arg_count as nat)
            + " argument"@ + (if arg_count == 1 {
            Seq::empty()
        } else {
            "s"@
        }) + ")"@),
{
    let ghost start = out@;
    write_text(out, "`");
    write_text(out, name.as_str());
    write_text(out, "` (");
    let mut count = String::new();
    push_decimal(&mut count, arg_count);
    assert(count@ =~= decimal(arg_count as nat));
    write_text(out, count.as_str());
    write_text(out, " argument");
    if arg_count != 1 {
        write_text(out, "s");
    }
    write_text(out, ")");
    assert(out@ =~= start + ("`"@ + name@ + "` ("@ + decimal(arg_count as nat) + " argument"@ + (
    if arg_count == 1 {
        Seq::empty()
    } else {
        "s"@
    }) + ")"@));
}

fn render_code(code: &String, out: &mut String)
    ensures
        final(out)@ == old(out)@ + ("`"@ + code@ + "`"@),
{
    let ghost start = out@;
    write_text(out, "`");
    write_text(out, code.as_str());
    write_text(out, "`");
    assert(out@ =~= start + ("`"@ + code@ + "`"@));
}

fn render_link(file: &String, out: &mut String, file_map: &Vec<(String, String)>)
    requires
        has_file_name(file@),
    ensures
        final(out)@ == old(out)@ + markdown(DocsView::ResolveFile(file@), link_views(file_map@)),
{
    let ghost start = out@;
    write_text(out, "[");
    match file_name_of(file.as_str()) {
        Some(name) => {
            write_text(out, name.as_str());
        },
        None => {},
    }
    write_text(out, "](");
    match find_link(file_map, file) {
        Some(target) => {
            write_text(out, target.as_str());
        },
        None => {
            assert(out@ =~= out@ + Seq::<char>::empty());
        },
    }
    write_text(out, ")");
    assert(out@ =~= start + markdown(DocsView::ResolveFile(file@), link_views(file_map@)));
}

fn render(docs: &Docs, out: &mut String, file_map: &Vec<(String, String)>)
    requires
        showable(docs@, link_views(file_map@)),
    ensures
        final(out)@ == old(out)@ + markdown(docs@, link_views(file_map@)),
    decreases docs, 2nat,
{
    proof {
        lemma_view_of_items(docs);
        reveal_strlit("");
        assert(""@ =~= Seq::<char>::empty());
    }
    match docs {
        Docs::File { .. } => render_file(docs, out, file_map),
        Docs::Paragraphs(items) => render_items(items, out, file_map, "", "- ", "\n\n"),
        Docs::List(items) => render_items(items, out, file_map, "", "- ", "\n"),
        Docs::Table { .. } => render_table(docs, out, file_map),
        Docs::Macro { name, arg_count } => render_macro(name, *arg_count, out),
        Docs::Define { name } => render_code(name, out),
        Docs::InlineCode(code) => render_code(code, out),
        Docs::Text(text) => write_text(out, text.as_str()),
        Docs::CellLines(lines) => render_items(lines, out, file_map, "<br>", "", ""),
        Docs::ResolveFile(file) => render_link(file, out, file_map),
        Docs::Concat(items) => render_items(items, out, file_map, "", "", ""),
    }
}

/// A way of turning a document tree into text.
pub trait Backend {
    /// The trees that this backend can show with the targets `links`.
    spec fn accepts(docs: DocsView, links: Links) -> bool;

    /// What this backend shows for `docs`.
    spec fn text(docs: DocsView, links: Links) -> Seq<char>;

    /// Appends the text of `docs` to `out`.
    fn fmt(docs: &Docs, out: &mut String, file_map: &Vec<(String, String)>)
        requires
            Self::accepts(docs@, link_views(file_map@)),
        ensures
            final(out)@ == old(out)@ + Self::text(docs@, link_views(file_map@)),
    ;
}

/// The Markdown backend.
pub struct Markdown;

impl Backend for Markdown {
    open spec fn accepts(docs: DocsView, links: Links) -> bool {
        showable(docs, links)
    }

    open spec fn text(docs: DocsView, links: Links) -> Seq<char> {
        markdown(docs, links)
    }

    fn fmt(docs: &Docs, out: &mut String, file_map: &Vec<(String, String)>) {
        render(docs, out, file_map)
    }
}

impl Docs {
    /// The text of this tree in the backend `B`. `file_map` gives, for each
    /// source file that the tree refers to, the path of that file's
    /// document. A file is shown by its file name.
    pub fn to<B: Backend>(&self, file_map: &Vec<(String, String)>) -> (s: String)
        requires
            B::accepts(self@, link_views(file_map@)),
        ensures
            s@ == B::text(self@, link_views(file_map@)),
    {
        let mut out = String::new();
        B::fmt(self, &mut out, file_map);
        assert(out@ =~= B::text(self@, link_views(file_map@)));
        out
    }
}

} // verus!
