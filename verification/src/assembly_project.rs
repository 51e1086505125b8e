//! Linking the files of a project: which file defines each global name, which
//! external names are defined inside the project, the symbols of each file,
//! and the sub-labels of each label.
use crate::assembly_file::{
    AssemblyFile, AssemblyFileView, AssemblyItem, AssemblyMacro, AssemblySection, ItemView,
    MacroView, item_views, macro_views,
};
use crate::docs::{
    Docs, DocsView, Links, Visibility, all_showable, lemma_row_views_push, lemma_view_of_items,
    lemma_views_push, link_of, row_views, rows_showable, showable, views,
};
use crate::names::NameMap;
use crate::text::{contains_name, has_file_name, lemma_push_contains, pair_texts, texts};
use linked_hash_map::LinkedHashMap;
use vstd::prelude::*;
use vstd::string::StringExecFns;

verus! {

#[verifier::external_type_specification]
#[verifier::external_body]
#[verifier::reject_recursive_types(K)]
#[verifier::reject_recursive_types(V)]
#[verifier::reject_recursive_types(S)]
pub struct ExLinkedHashMap<K, V, S>(LinkedHashMap<K, V, S>);

/// What is known of a symbol: how far it can be seen, and the section it was
/// defined in, if it was defined in the file.
pub type SymbolInfo = (Visibility, Option<AssemblySection>);

/// A symbol of a file: its name and what is known of it.
pub type SymbolEntry = (Seq<char>, SymbolInfo);

/// The symbols of a file, in the order in which they were last put in.
pub type SymbolTable = LinkedHashMap<String, (Visibility, Option<AssemblySection>)>;

/// The entries of a `linked_hash_map::LinkedHashMap`, in the order in which
/// its iterator yields them.
pub uninterp spec fn table_entries(
    table: LinkedHashMap<String, (Visibility, Option<AssemblySection>)>,
) -> Seq<(Seq<char>, (Visibility, Option<AssemblySection>))>;

/// The entries whose name is not `name`.
pub open spec fn other_than(name: Seq<char>) -> spec_fn(SymbolEntry) -> bool {
    |e: SymbolEntry| e.0 != name
}

/// `entries` after `name` was put in with `info`: an earlier entry of that
/// name is gone, and the new one stands last.
pub open spec fn put(entries: Seq<SymbolEntry>, name: Seq<char>, info: SymbolInfo) -> Seq<
    SymbolEntry,
> {
    entries.filter(other_than(name)).push((name, info))
}

/// `LinkedHashMap::new` makes a map without entries.
#[verifier::external_body]
fn table_new() -> (table: SymbolTable)
    ensures
        table_entries(table) == Seq::<SymbolEntry>::empty(),
{
    LinkedHashMap::new()
}

/// `LinkedHashMap::insert` stores the value under the key. A key that was
/// there already keeps no earlier value, and in either case the key is then
/// the last that the iterator yields.
#[verifier::external_body]
fn table_insert(
    table: &mut SymbolTable,
    name: String,
    visibility: Visibility,
    section: Option<AssemblySection>,
)
    ensures
        table_entries(*final(table)) == put(
            table_entries(*old(table)),
            name@,
            (visibility, section),
        ),
{
    table.insert(name, (visibility, section));
}

/// `LinkedHashMap::iter` yields every entry once, from the one put in
/// longest ago to the one put in last.
#[verifier::external_body]
fn table_items(table: &SymbolTable) -> (items: Vec<(String, Visibility, Option<AssemblySection>)>)
    ensures
        items@.len() == table_entries(*table).len(),
        forall|i: int|
            0 <= i < items@.len() ==> (#[trigger] items@[i].0@, (items@[i].1, items@[i].2))
                == table_entries(*table)[i],
{
    table.iter().map(|(name, info)| (name.clone(), info.0, info.1)).collect()
}

/// What a walk over the labels of a file has gathered.
pub struct Scan {
    /// The symbols found.
    pub table: Seq<SymbolEntry>,
    /// The label that sub-labels belong to: the last one without a leading
    /// dot, or the empty name before the first.
    pub current: Seq<char>,
    /// The sub-labels found, each with the label it belongs to.
    pub subs: Seq<(Seq<char>, Seq<char>)>,
}

/// Whether `name` is that of a sub-label: it starts with a dot.
pub open spec fn is_sub_label(name: Seq<char>) -> bool {
    name.len() > 0 && name[0] == '.'
}

/// The visibility of a label `name` in a file whose global names are
/// `globals`.
pub open spec fn label_visibility(globals: Set<Seq<char>>, name: Seq<char>) -> Visibility {
    if globals.contains(name) {
        Visibility::Global
    } else {
        Visibility::Private
    }
}

/// The walk `s` after `item`, found in `section`. A sub-label goes to the
/// current label. Any other label becomes the current one and a symbol of
/// the file. What is no label changes nothing.
pub open spec fn scan_item(
    s: Scan,
    globals: Set<Seq<char>>,
    section: AssemblySection,
    item: ItemView,
) -> Scan {
    match item {
        ItemView::Label(name) => if is_sub_label(name) {
            Scan { subs: s.subs.push((s.current, name)), ..s }
        } else {
            Scan {
                current: name,
                table: put(s.table, name, (label_visibility(globals, name), Some(section))),
                ..s
            }
        },
        _ => s,
    }
}

/// The walk `s` after the first `n` of `items`.
pub open spec fn scan_items(
    s: Scan,
    globals: Set<Seq<char>>,
    section: AssemblySection,
    items: Seq<ItemView>,
    n: nat,
) -> Scan
    decreases n,
{
    if n == 0 || n > items.len() {
        s
    } else {
        scan_item(
            scan_items(s, globals, section, items, (n - 1) as nat),
            globals,
            section,
            items[n - 1],
        )
    }
}

/// The table that holds the first `n` of `externs`, each as an external
/// symbol.
pub open spec fn externs_table(externs: Seq<Seq<char>>, n: nat) -> Seq<SymbolEntry>
    decreases n,
{
    if n == 0 || n > externs.len() {
        Seq::empty()
    } else {
        put(externs_table(externs, (n - 1) as nat), externs[n - 1], (Visibility::External, None))
    }
}

/// The walk over a whole file: its external names first, then the items of
/// its text, data, bss and read-only data sections, in this order.
pub open spec fn scan_file(f: AssemblyFileView) -> Scan {
    let start = Scan {
        table: externs_table(f.externs, f.externs.len()),
        current: Seq::empty(),
        subs: Seq::empty(),
    };
    let text = scan_items(
        start,
        f.globals,
        AssemblySection::Text,
        f.sections.text,
        f.sections.text.len(),
    );
    let data = scan_items(
        text,
        f.globals,
        AssemblySection::Data,
        f.sections.data,
        f.sections.data.len(),
    );
    let bss = scan_items(data, f.globals, AssemblySection::BSS, f.sections.bss, f.sections.bss.len());
    scan_items(bss, f.globals, AssemblySection::ROData, f.sections.rodata, f.sections.rodata.len())
}

/// The files of a project: each with its path, in the order in which they
/// are processed.
pub type FileViews = Seq<(Seq<char>, AssemblyFileView)>;

/// The content of a list of files.
pub open spec fn file_views(files: Seq<(String, AssemblyFile)>) -> FileViews {
    Seq::new(files.len(), |i: int| (files[i].0@, files[i].1@))
}

/// For each name that one of the first `n` files declares global, the path
/// of the last of them that does.
pub open spec fn global_sources_of(files: FileViews, n: nat) -> Map<Seq<char>, Seq<char>>
    decreases n,
{
    if n == 0 || n > files.len() {
        Map::empty()
    } else {
        let before = global_sources_of(files, (n - 1) as nat);
        let path = files[n - 1].0;
        let globals = files[n - 1].1.globals;
        Map::new(
            |name: Seq<char>| before.contains_key(name) || globals.contains(name),
            |name: Seq<char>|
                if globals.contains(name) {
                    path
                } else {
                    before[name]
                },
        )
    }
}

/// Whether one of the first `n` files declares `name` external.
pub open spec fn is_extern_among(files: FileViews, n: nat, name: Seq<char>) -> bool
    decreases n,
{
    0 < n <= files.len() && (is_extern_among(files, (n - 1) as nat, name) || files[n
        - 1].1.externs.contains(name))
}

/// For each name that a file declares external and a file declares global,
/// the path of the file that defines it.
pub open spec fn internal_externs_of(files: FileViews) -> Map<Seq<char>, Seq<char>> {
    let sources = global_sources_of(files, files.len());
    Map::new(
        |name: Seq<char>| sources.contains_key(name) && is_extern_among(files, files.len(), name),
        |name: Seq<char>| sources[name],
    )
}

/// The symbols of each file.
pub open spec fn symbols_of(files: FileViews) -> Seq<Seq<SymbolEntry>> {
    Seq::new(files.len(), |i: int| scan_file(files[i].1).table)
}

/// The sub-labels of the first `n` files, each with the label it belongs to,
/// in the order in which they are found.
pub open spec fn sub_labels_of(files: FileViews, n: nat) -> Seq<(Seq<char>, Seq<char>)>
    decreases n,
{
    if n == 0 || n > files.len() {
        Seq::empty()
    } else {
        sub_labels_of(files, (n - 1) as nat) + scan_file(files[n - 1].1).subs
    }
}

/// The sub-labels among the first `n` of `subs` that belong to `owner`, in
/// order.
pub open spec fn owned_by(subs: Seq<(Seq<char>, Seq<char>)>, owner: Seq<char>, n: nat) -> Seq<
    Seq<char>,
>
    decreases n,
{
    if n == 0 || n > subs.len() {
        Seq::empty()
    } else if subs[n - 1].0 == owner {
        owned_by(subs, owner, (n - 1) as nat).push(subs[n - 1].1)
    } else {
        owned_by(subs, owner, (n - 1) as nat)
    }
}

/// `sources` after each of the first `n` of `names` was mapped to `path`.
pub open spec fn add_globals(
    sources: Map<Seq<char>, Seq<char>>,
    names: Seq<Seq<char>>,
    path: Seq<char>,
    n: nat,
) -> Map<Seq<char>, Seq<char>>
    decreases n,
{
    if n == 0 || n > names.len() {
        sources
    } else {
        add_globals(sources, names, path, (n - 1) as nat).insert(names[n - 1], path)
    }
}

proof fn lemma_take_contains<A>(s: Seq<A>, n: int, x: A)
    requires
        0 <= n < s.len(),
    ensures
        s.take(n + 1).contains(x) == (s.take(n).contains(x) || s[n] == x),
{
    if s.take(n).contains(x) {
        let k = choose|k: int| 0 <= k < s.take(n).len() && #[trigger] s.take(n)[k] == x;
        assert(s.take(n + 1)[k] == x);
    }
    if s[n] == x {
        assert(s.take(n + 1)[n] == x);
    }
    if s.take(n + 1).contains(x) {
        let k = choose|k: int| 0 <= k < s.take(n + 1).len() && #[trigger] s.take(n + 1)[k] == x;
        if k < n {
            assert(s.take(n)[k] == x);
        }
    }
}

proof fn lemma_add_globals(
    sources: Map<Seq<char>, Seq<char>>,
    names: Seq<Seq<char>>,
    path: Seq<char>,
    n: nat,
)
    requires
        n <= names.len(),
    ensures
        add_globals(sources, names, path, n) == Map::new(
            |name: Seq<char>| sources.contains_key(name) || names.take(n as int).contains(name),
            |name: Seq<char>|
                if names.take(n as int).contains(name) {
                    path
                } else {
                    sources[name]
                },
        ),
    decreases n,
{
    let target = Map::new(
        |name: Seq<char>| sources.contains_key(name) || names.take(n as int).contains(name),
        |name: Seq<char>|
            if names.take(n as int).contains(name) {
                path
            } else {
                sources[name]
            },
    );
    if n == 0 {
        assert(names.take(0).len() == 0);
        assert(add_globals(sources, names, path, n) =~= target);
    } else {
        lemma_add_globals(sources, names, path, (n - 1) as nat);
        assert forall|name: Seq<char>|
            names.take(n as int).contains(name) == (names.take(n - 1).contains(name) || names[n
                - 1] == name) by {
            lemma_take_contains(names, n - 1, name);
        }
        assert(add_globals(sources, names, path, n) =~= target);
    }
}

/// Whether `label` is the name of a sub-label.
fn starts_with_dot(label: &String) -> (b: bool)
    ensures
        b == is_sub_label(label@),
{
    let text = label.as_str();
    !text.is_empty() && text.get_char(0) == '.'
}

fn scan_section(
    items: &Vec<AssemblyItem>,
    section: AssemblySection,
    globals: &Vec<String>,
    table: &mut SymbolTable,
    current: &mut String,
    subs: &mut Vec<(String, String)>,
)
    ensures
        (Scan {
            table: table_entries(*final(table)),
            current: final(current)@,
            subs: pair_texts(final(subs)@),
        }) == scan_items(
            Scan {
                table: table_entries(*old(table)),
                current: old(current)@,
                subs: pair_texts(old(subs)@),
            },
            texts(globals@).to_set(),
            section,
            item_views(items@),
            items@.len(),
        ),
{
    let ghost start = Scan {
        table: table_entries(*table),
        current: current@,
        subs: pair_texts(subs@),
    };
    let ghost names = texts(globals@).to_set();
    let mut i: usize = 0;
    while i < items.len()
        invariant
            i <= items.len(),
            names == texts(globals@).to_set(),
            (Scan {
                table: table_entries(*table),
                current: current@,
                subs: pair_texts(subs@),
            }) == scan_items(start, names, section, item_views(items@), i as nat),
        decreases items.len() - i,
    {
        let ghost before = Scan {
            table: table_entries(*table),
            current: current@,
            subs: pair_texts(subs@),
        };
        assert(item_views(items@)[i as int] == items@[i as int].view());
        match &items[i] {
            AssemblyItem::Label(label) => {
                if starts_with_dot(label) {
                    subs.push((current.clone(), label.clone()));
                    assert(pair_texts(subs@) =~= before.subs.push((current@, label@)));
                } else {
                    *current = label.clone();
                    let visibility = if contains_name(globals, label) {
                        Visibility::Global
                    } else {
                        Visibility::Private
                    };
                    table_insert(table, label.clone(), visibility, Some(section));
                }
            },
            _ => {},
        }
        i += 1;
    }
}

fn resolve_file(file: &AssemblyFile, subs: &mut Vec<(String, String)>) -> (table: SymbolTable)
    ensures
        table_entries(table) == scan_file(file@).table,
        pair_texts(final(subs)@) == pair_texts(old(subs)@) + scan_file(file@).subs,
{
    let mut table = table_new();
    let mut j: usize = 0;
    while j < file.externs.len()
        invariant
            j <= file.externs.len(),
            table_entries(table) == externs_table(texts(file.externs@), j as nat),
        decreases file.externs.len() - j,
    {
        table_insert(&mut table, file.externs[j].clone(), Visibility::External, None);
        j += 1;
    }
    let mut current = String::new();
    let mut found: Vec<(String, String)> = Vec::new();
    assert(pair_texts(found@) =~= Seq::empty());
    scan_section(
        &file.sections.text,
        AssemblySection::Text,
        &file.globals,
        &mut table,
        &mut current,
        &mut found,
    );
    scan_section(
        &file.sections.data,
        AssemblySection::Data,
        &file.globals,
        &mut table,
        &mut current,
        &mut found,
    );
    scan_section(
        &file.sections.bss,
        AssemblySection::BSS,
        &file.globals,
        &mut table,
        &mut current,
        &mut found,
    );
    scan_section(
        &file.sections.rodata,
        AssemblySection::ROData,
        &file.globals,
        &mut table,
        &mut current,
        &mut found,
    );
    let ghost gathered = pair_texts(found@);
    subs.append(&mut found);
    assert(pair_texts(subs@) =~= pair_texts(old(subs)@) + gathered);
    table
}

/// For each name that has a source and that is external in one of the first
/// `n` files or stands among `more`, its source.
pub open spec fn internal_externs_among(
    sources: Map<Seq<char>, Seq<char>>,
    files: FileViews,
    n: nat,
    more: Seq<Seq<char>>,
) -> Map<Seq<char>, Seq<char>> {
    Map::new(
        |name: Seq<char>|
            sources.contains_key(name) && (is_extern_among(files, n, name) || more.contains(name)),
        |name: Seq<char>| sources[name],
    )
}

/// The files of a project with what links them.
pub struct AssemblyProject {
    files: Vec<(String, AssemblyFile)>,
    symbols: Vec<SymbolTable>,
    /// Where the project's global names are defined.
    global_sources: NameMap,
    /// Where those external names are defined that the project defines.
    internal_externs: NameMap,
    /// The sub-labels of the project, each with the label it belongs to.
    symbol_constituents: Vec<(String, String)>,
}

impl AssemblyProject {
    #[verifier::type_invariant]
    spec fn one_table_per_file(&self) -> bool {
        self.symbols@.len() == self.files@.len()
    }

    /// The files, in the order in which they were given.
    pub closed spec fn files(&self) -> FileViews {
        file_views(self.files@)
    }

    /// The symbols of each file, in the order of the files.
    pub closed spec fn symbols(&self) -> Seq<Seq<SymbolEntry>> {
        Seq::new(self.symbols@.len(), |i: int| table_entries(self.symbols@[i]))
    }

    /// The path of the file that defines each global name.
    pub closed spec fn global_sources(&self) -> Map<Seq<char>, Seq<char>> {
        self.global_sources@
    }

    /// The path of the file that defines each external name that the
    /// project defines.
    pub closed spec fn internal_externs(&self) -> Map<Seq<char>, Seq<char>> {
        self.internal_externs@
    }

    /// The sub-labels, each with the label it belongs to.
    pub closed spec fn sub_labels(&self) -> Seq<(Seq<char>, Seq<char>)> {
        pair_texts(self.symbol_constituents@)
    }

    /// The sub-labels of `label`, in the order in which they were found.
    pub open spec fn symbol_constituents(&self, label: Seq<char>) -> Seq<Seq<char>> {
        owned_by(self.sub_labels(), label, self.sub_labels().len())
    }

    /// Whether this project holds `files` and what links them.
    pub open spec fn is_resolution_of(&self, files: FileViews) -> bool {
        &&& self.files() == files
        &&& self.symbols() == symbols_of(files)
        &&& self.global_sources() == global_sources_of(files, files.len())
        &&& self.internal_externs() == internal_externs_of(files)
        &&& self.sub_labels() == sub_labels_of(files, files.len())
    }

    /// Links `files`, each given with its path. Where several files declare
    /// one name global, the last of them counts as its source.
    pub fn build_from(files: Vec<(String, AssemblyFile)>) -> (project: Self)
        ensures
            project.is_resolution_of(file_views(files@)),
    {
        let ghost views = file_views(files@);
        let mut global_sources = NameMap::new();
        let mut i: usize = 0;
        while i < files.len()
            invariant
                i <= files.len(),
                views == file_views(files@),
                global_sources@ == global_sources_of(views, i as nat),
            decreases files.len() - i,
        {
            let ghost before = global_sources@;
            let path = &files[i].0;
            let globals = &files[i].1.globals;
            let mut j: usize = 0;
            while j < globals.len()
                invariant
                    j <= globals.len(),
                    global_sources@ == add_globals(before, texts(globals@), path@, j as nat),
                decreases globals.len() - j,
            {
                global_sources.insert(globals[j].clone(), path.clone());
                j += 1;
            }
            proof {
                let names = texts(globals@);
                lemma_add_globals(before, names, path@, names.len());
                assert(names.take(names.len() as int) =~= names);
                assert(views[i as int] == (files@[i as int].0@, files@[i as int].1@));
                assert(global_sources@ =~= global_sources_of(views, (i + 1) as nat));
            }
            i += 1;
        }
        let mut internal_externs = NameMap::new();
        i = 0;
        assert(internal_externs@ =~= internal_externs_among(
            global_sources@,
            views,
            0,
            Seq::empty(),
        ));
        while i < files.len()
            invariant
                i <= files.len(),
                views == file_views(files@),
                internal_externs@ == internal_externs_among(
                    global_sources@,
                    views,
                    i as nat,
                    Seq::empty(),
                ),
            decreases files.len() - i,
        {
            let externs = &files[i].1.externs;
            let mut j: usize = 0;
            assert(texts(externs@).take(0) =~= Seq::empty());
            while j < externs.len()
                invariant
                    j <= externs.len(),
                    internal_externs@ == internal_externs_among(
                        global_sources@,
                        views,
                        i as nat,
                        texts(externs@).take(j as int),
                    ),
                decreases externs.len() - j,
            {
                match global_sources.get(&externs[j]) {
                    Some(source) => {
                        internal_externs.insert(externs[j].clone(), source.clone());
                    },
                    None => {},
                }
                proof {
                    let target = internal_externs_among(
                        global_sources@,
                        views,
                        i as nat,
                        texts(externs@).take(j + 1),
                    );
                    let added = externs@[j as int]@;
                    assert(texts(externs@)[j as int] == added);
                    assert forall|name: Seq<char>|
                        target.contains_key(name) == internal_externs@.contains_key(name) by {
                        lemma_take_contains(texts(externs@), j as int, name);
                    }
                    assert forall|name: Seq<char>| target.contains_key(name) implies target[name]
                        == internal_externs@[name] by {
                        lemma_take_contains(texts(externs@), j as int, name);
                    }
                    assert(internal_externs@ =~= target);
                }
                j += 1;
            }
            proof {
                assert(texts(externs@).take(j as int) =~= texts(externs@));
                assert(views[i as int] == (files@[i as int].0@, files@[i as int].1@));
                assert(Seq::<Seq<char>>::empty().len() == 0);
                assert(internal_externs@ =~= internal_externs_among(
                    global_sources@,
                    views,
                    (i + 1) as nat,
                    Seq::empty(),
                ));
            }
            i += 1;
        }
        let mut symbols: Vec<SymbolTable> = Vec::new();
        let mut symbol_constituents: Vec<(String, String)> = Vec::new();
        i = 0;
        assert(pair_texts(symbol_constituents@) =~= sub_labels_of(views, 0));
        while i < files.len()
            invariant
                i <= files.len(),
                views == file_views(files@),
                symbols@.len() == i,
                forall|k: int|
                    0 <= k < i ==> table_entries(#[trigger] symbols@[k]) == scan_file(
                        views[k].1,
                    ).table,
                pair_texts(symbol_constituents@) == sub_labels_of(views, i as nat),
            decreases files.len() - i,
        {
            assert(views[i as int] == (files@[i as int].0@, files@[i as int].1@));
            let table = resolve_file(&files[i].1, &mut symbol_constituents);
            symbols.push(table);
            i += 1;
        }
        let project = AssemblyProject {
            files,
            symbols,
            global_sources,
            internal_externs,
            symbol_constituents,
        };
        proof {
            assert(Seq::<Seq<char>>::empty().len() == 0);
            assert(project.internal_externs() =~= internal_externs_of(views));
            assert(project.symbols() =~= symbols_of(views));
        }
        project
    }

    /// How many files the project has.
    pub fn file_count(&self) -> (n: usize)
        ensures
            n == self.files().len(),
    {
        self.files.len()
    }

    /// The path of the file at `index`, if there is one.
    pub fn file_path(&self, index: usize) -> (path: Option<&String>)
        ensures
            match path {
                Some(p) => index < self.files().len() && p@ == self.files()[index as int].0,
                None => index >= self.files().len(),
            },
    {
        if index < self.files.len() {
            Some(&self.files[index].0)
        } else {
            None
        }
    }

    /// The path of the file that defines the global `name`, if one does.
    pub fn global_source(&self, name: &String) -> (path: Option<&String>)
        ensures
            match path {
                Some(p) => self.global_sources().contains_key(name@) && self.global_sources()[name@]
                    == p@,
                None => !self.global_sources().contains_key(name@),
            },
    {
        self.global_sources.get(name)
    }

    /// The path of the file that defines the external `name`, if a file of
    /// the project does.
    pub fn internal_extern(&self, name: &String) -> (path: Option<&String>)
        ensures
            match path {
                Some(p) => self.internal_externs().contains_key(name@)
                    && self.internal_externs()[name@] == p@,
                None => !self.internal_externs().contains_key(name@),
            },
    {
        self.internal_externs.get(name)
    }

    /// The symbols of the file at `index`, in table order, if there is such
    /// a file.
    pub fn file_symbols(&self, index: usize) -> (symbols: Option<
        Vec<(String, Visibility, Option<AssemblySection>)>,
    >)
        ensures
            match symbols {
                Some(items) => index < self.symbols().len() && symbol_views(items@)
                    == self.symbols()[index as int],
                None => index >= self.symbols().len(),
            },
    {
        if index < self.symbols.len() {
            let items = table_items(&self.symbols[index]);
            assert(symbol_views(items@) =~= self.symbols()[index as int]);
            Some(items)
        } else {
            None
        }
    }

    /// The sub-labels of `label`, in the order in which they were found.
    pub fn constituents(&self, label: &String) -> (subs: Vec<String>)
        ensures
            texts(subs@) == self.symbol_constituents(label@),
    {
        let mut subs: Vec<String> = Vec::new();
        let mut i: usize = 0;
        assert(texts(subs@) =~= owned_by(self.sub_labels(), label@, 0));
        while i < self.symbol_constituents.len()
            invariant
                i <= self.symbol_constituents.len(),
                texts(subs@) == owned_by(self.sub_labels(), label@, i as nat),
            decreases self.symbol_constituents.len() - i,
        {
            if self.symbol_constituents[i].0 == *label {
                subs.push(self.symbol_constituents[i].1.clone());
            }
            i += 1;
            assert(texts(subs@) =~= owned_by(self.sub_labels(), label@, i as nat));
        }
        subs
    }
}

/// The content of a list of symbols.
pub open spec fn symbol_views(items: Seq<(String, Visibility, Option<AssemblySection>)>) -> Seq<
    SymbolEntry,
> {
    Seq::new(items.len(), |i: int| (items[i].0@, (items[i].1, items[i].2)))
}

/// The line that shows the sub-label `sub` below its label.
pub open spec fn constituent_line(sub: Seq<char>) -> DocsView {
    DocsView::Concat(seq![DocsView::Text("- "@), DocsView::InlineCode("`"@ + sub + "`"@)])
}

/// The cell that shows the symbol `name` with its sub-labels `subs`.
pub open spec fn symbol_cell(name: Seq<char>, subs: Seq<Seq<char>>) -> DocsView {
    DocsView::CellLines(
        Seq::new(
            subs.len() + 1,
            |i: int|
                if i == 0 {
                    DocsView::InlineCode(name)
                } else {
                    constituent_line(subs[i - 1])
                },
        ),
    )
}

/// The words for the section of a symbol; none for a symbol without one.
pub open spec fn section_text(section: Option<AssemblySection>) -> Seq<char> {
    match section {
        Some(s) => s.text(),
        None => Seq::empty(),
    }
}

/// The cell that says where an external symbol is defined: a reference to
/// the file where the project defines it, else nothing.
pub open spec fn defined_in(
    name: Seq<char>,
    visibility: Visibility,
    internal_externs: Map<Seq<char>, Seq<char>>,
) -> DocsView {
    if visibility == Visibility::External && internal_externs.contains_key(name) {
        DocsView::ResolveFile(internal_externs[name])
    } else {
        DocsView::Text(Seq::empty())
    }
}

/// The row of the symbol table for `entry`.
pub open spec fn symbol_row(
    entry: SymbolEntry,
    subs: Seq<Seq<char>>,
    internal_externs: Map<Seq<char>, Seq<char>>,
) -> Seq<DocsView> {
    seq![
        DocsView::Text(entry.1.0.text()),
        symbol_cell(entry.0, subs),
        DocsView::Text(section_text(entry.1.1)),
        defined_in(entry.0, entry.1.0, internal_externs),
    ]
}

/// The head of the symbol table.
pub open spec fn header_row() -> Seq<DocsView> {
    seq![
        DocsView::Text("Visibility"@),
        DocsView::Text("Label"@),
        DocsView::Text("Section"@),
        DocsView::Text("Defined in"@),
    ]
}

/// The rows of the symbol table for the symbols `table`.
pub open spec fn symbol_rows(
    table: Seq<SymbolEntry>,
    sub_labels: Seq<(Seq<char>, Seq<char>)>,
    internal_externs: Map<Seq<char>, Seq<char>>,
) -> Seq<Seq<DocsView>> {
    Seq::new(
        table.len(),
        |i: int|
            symbol_row(
                table[i],
                owned_by(sub_labels, table[i].0, sub_labels.len()),
                internal_externs,
            ),
    )
}

/// The list of the defines `names`.
pub open spec fn define_list(names: Seq<Seq<char>>) -> Seq<DocsView> {
    Seq::new(names.len(), |i: int| DocsView::Define { name: names[i] })
}

/// The list of the macros `macros`.
pub open spec fn macro_list(macros: Seq<MacroView>) -> Seq<DocsView> {
    Seq::new(
        macros.len(),
        |i: int| DocsView::Macro { name: macros[i].name, arg_count: macros[i].arg_count },
    )
}

/// The document of the file `f` at `path`, whose symbols are `table`.
pub open spec fn file_docs(
    path: Seq<char>,
    f: AssemblyFileView,
    table: Seq<SymbolEntry>,
    sub_labels: Seq<(Seq<char>, Seq<char>)>,
    internal_externs: Map<Seq<char>, Seq<char>>,
) -> DocsView {
    DocsView::File {
        path,
        symbols: Box::new(
            DocsView::Table {
                header: header_row(),
                rows: symbol_rows(table, sub_labels, internal_externs),
            },
        ),
        defines: Box::new(DocsView::List(define_list(f.defines))),
        macros: Box::new(DocsView::List(macro_list(f.macros))),
    }
}

/// The content of a list of documents, each with the path of its file.
pub open spec fn doc_views(docs: Seq<(String, Docs)>) -> Seq<(Seq<char>, DocsView)> {
    Seq::new(docs.len(), |i: int| (docs[i].0@, docs[i].1@))
}

fn text_doc(text: String) -> (d: Box<Docs>)
    ensures
        d@ == DocsView::Text(text@),
{
    Box::new(Docs::Text(text))
}

fn header_docs() -> (header: Vec<Box<Docs>>)
    ensures
        views(header@) == header_row(),
{
    let mut header: Vec<Box<Docs>> = Vec::new();
    header.push(text_doc("Visibility".to_owned()));
    header.push(text_doc("Label".to_owned()));
    header.push(text_doc("Section".to_owned()));
    header.push(text_doc("Defined in".to_owned()));
    assert(views(header@) =~= header_row());
    header
}

fn define_docs(names: &Vec<String>) -> (list: Vec<Box<Docs>>)
    ensures
        views(list@) == define_list(texts(names@)),
{
    let mut list: Vec<Box<Docs>> = Vec::new();
    let mut i: usize = 0;
    while i < names.len()
        invariant
            i <= names.len(),
            views(list@) == define_list(texts(names@)).take(i as int),
        decreases names.len() - i,
    {
        let d = Docs::Define { name: names[i].clone() };
        assert(d@ == DocsView::Define { name: names@[i as int]@ });
        proof {
            lemma_views_push(list@, Box::new(d));
        }
        list.push(Box::new(d));
        i += 1;
        assert(views(list@) =~= define_list(texts(names@)).take(i as int));
    }
    assert(views(list@) =~= define_list(texts(names@)));
    list
}

fn macro_docs(macros: &Vec<AssemblyMacro>) -> (list: Vec<Box<Docs>>)
    ensures
        views(list@) == macro_list(macro_views(macros@)),
{
    let mut list: Vec<Box<Docs>> = Vec::new();
    let mut i: usize = 0;
    while i < macros.len()
        invariant
            i <= macros.len(),
            views(list@) == macro_list(macro_views(macros@)).take(i as int),
        decreases macros.len() - i,
    {
        let d = Docs::Macro { name: macros[i].name.clone(), arg_count: macros[i].arg_count };
        assert(d@ == DocsView::Macro {
            name: macros@[i as int].name@,
            arg_count: macros@[i as int].arg_count as nat,
        });
        proof {
            lemma_views_push(list@, Box::new(d));
        }
        list.push(Box::new(d));
        i += 1;
        assert(views(list@) =~= macro_list(macro_views(macros@)).take(i as int));
    }
    assert(views(list@) =~= macro_list(macro_views(macros@)));
    list
}

fn constituent_docs(sub: &String) -> (d: Box<Docs>)
    ensures
        d@ == constituent_line(sub@),
{
    let mut code = "`".to_owned();
    code.append(sub.as_str());
    code.append("`");
    let mut parts: Vec<Box<Docs>> = Vec::new();
    parts.push(text_doc("- ".to_owned()));
    let quoted = Docs::InlineCode(code);
    assert(quoted@ == DocsView::InlineCode("`"@ + sub@ + "`"@));
    parts.push(Box::new(quoted));
    let d = Docs::Concat(parts);
    proof {
        lemma_view_of_items(&d);
        assert(views(parts@) =~= seq![
            DocsView::Text("- "@),
            DocsView::InlineCode("`"@ + sub@ + "`"@),
        ]);
    }
    Box::new(d)
}

fn symbol_cell_docs(name: &String, subs: &Vec<String>) -> (d: Box<Docs>)
    ensures
        d@ == symbol_cell(name@, texts(subs@)),
{
    let ghost cell = symbol_cell(name@, texts(subs@))->CellLines_0;
    let mut lines: Vec<Box<Docs>> = Vec::new();
    let first = Docs::InlineCode(name.clone());
    assert(first@ == DocsView::InlineCode(name@));
    lines.push(Box::new(first));
    let mut i: usize = 0;
    assert(views(lines@) =~= cell.take(1));
    while i < subs.len()
        invariant
            i <= subs.len(),
            cell == symbol_cell(name@, texts(subs@))->CellLines_0,
            views(lines@) == cell.take(i + 1),
        decreases subs.len() - i,
    {
        let line = constituent_docs(&subs[i]);
        proof {
            lemma_views_push(lines@, line);
        }
        lines.push(line);
        i += 1;
        assert(views(lines@) =~= cell.take(i + 1));
    }
    assert(views(lines@) =~= cell);
    let d = Docs::CellLines(lines);
    proof {
        lemma_view_of_items(&d);
    }
    Box::new(d)
}

impl AssemblyProject {
    /// The document of each file, with the path of the file, in the order
    /// of the files.
    pub open spec fn docs(&self) -> Seq<(Seq<char>, DocsView)> {
        Seq::new(
            self.files().len(),
            |i: int|
                (
                    self.files()[i].0,
                    file_docs(
                        self.files()[i].0,
                        self.files()[i].1,
                        self.symbols()[i],
                        self.sub_labels(),
                        self.internal_externs(),
                    ),
                ),
        )
    }

    fn symbol_row_docs(
        &self,
        name: &String,
        visibility: Visibility,
        section: Option<AssemblySection>,
    ) -> (row: Vec<Box<Docs>>)
        ensures
            views(row@) == symbol_row(
                (name@, (visibility, section)),
                self.symbol_constituents(name@),
                self.internal_externs(),
            ),
    {
        let mut row: Vec<Box<Docs>> = Vec::new();
        row.push(text_doc(visibility.to_string()));
        let subs = self.constituents(name);
        row.push(symbol_cell_docs(name, &subs));
        row.push(
            text_doc(
                match section {
                    Some(s) => s.to_string(),
                    None => String::new(),
                },
            ),
        );
        let source = match visibility {
            Visibility::External => self.internal_extern(name),
            _ => None,
        };
        match source {
            Some(file) => {
                let d = Docs::ResolveFile(file.clone());
                assert(d@ == DocsView::ResolveFile(file@));
                row.push(Box::new(d));
            },
            None => {
                row.push(text_doc(String::new()));
            },
        }
        assert(views(row@) =~= symbol_row(
            (name@, (visibility, section)),
            self.symbol_constituents(name@),
            self.internal_externs(),
        ));
        row
    }

    /// The document of each file, with the path of the file, in the order
    /// of the files: its symbols in a table, its defines and its macros.
    pub fn generate_docs(&self) -> (docs: Vec<(String, Docs)>)
        ensures
            doc_views(docs@) == self.docs(),
    {
        proof {
            use_type_invariant(self);
        }
        let mut docs: Vec<(String, Docs)> = Vec::new();
        let mut i: usize = 0;
        while i < self.files.len()
            invariant
                i <= self.files.len(),
                self.symbols@.len() == self.files@.len(),
                doc_views(docs@) == self.docs().take(i as int),
            decreases self.files.len() - i,
        {
            let path = &self.files[i].0;
            let file = &self.files[i].1;
            let symbols = table_items(&self.symbols[i]);
            let ghost table = self.symbols()[i as int];
            let ghost wanted = symbol_rows(table, self.sub_labels(), self.internal_externs());
            let mut rows: Vec<Vec<Box<Docs>>> = Vec::new();
            let mut k: usize = 0;
            assert(row_views(rows@) =~= wanted.take(0));
            while k < symbols.len()
                invariant
                    k <= symbols.len(),
                    symbols@.len() == table.len(),
                    forall|j: int|
                        0 <= j < symbols@.len() ==> (
                            #[trigger] symbols@[j].0@,
                            (symbols@[j].1, symbols@[j].2),
                        ) == table[j],
                    wanted == symbol_rows(table, self.sub_labels(), self.internal_externs()),
                    row_views(rows@) == wanted.take(k as int),
                decreases symbols.len() - k,
            {
                assert((symbols@[k as int].0@, (symbols@[k as int].1, symbols@[k as int].2))
                    == table[k as int]);
                let row = self.symbol_row_docs(&symbols[k].0, symbols[k].1, symbols[k].2);
                proof {
                    lemma_row_views_push(rows@, row);
                }
                rows.push(row);
                k += 1;
                assert(row_views(rows@) =~= wanted.take(k as int));
            }
            assert(row_views(rows@) =~= wanted);
            let header = header_docs();
            let table_docs = Docs::Table { header, rows };
            let define_docs = Docs::List(define_docs(&file.defines));
            let macro_docs = Docs::List(macro_docs(&file.macros));
            proof {
                lemma_view_of_items(&table_docs);
                lemma_view_of_items(&define_docs);
                lemma_view_of_items(&macro_docs);
                assert(self.files()[i as int] == (path@, file@));
            }
            let file_docs = Docs::File {
                path: path.clone(),
                symbols: Box::new(table_docs),
                defines: Box::new(define_docs),
                macros: Box::new(macro_docs),
            };
            assert(file_docs@ == self.docs()[i as int].1);
            let ghost before = docs@;
            docs.push((path.clone(), file_docs));
            i += 1;
            assert(doc_views(docs@) =~= doc_views(before).push((path@, file_docs@)));
            assert(doc_views(docs@) =~= self.docs().take(i as int));
        }
        assert(doc_views(docs@) =~= self.docs());
        docs
    }
}

/// Putting a name into a table leaves the entries of other names in it, and
/// the new entry is in it.
pub proof fn lemma_put(entries: Seq<SymbolEntry>, name: Seq<char>, info: SymbolInfo)
    ensures
        put(entries, name, info).contains((name, info)),
        forall|e: SymbolEntry|
            entries.contains(e) && e.0 != name ==> #[trigger] put(entries, name, info).contains(e),
{
    let kept = entries.filter(other_than(name));
    lemma_push_contains(kept, (name, info));
    assert(kept.push((name, info))[kept.len() as int] == (name, info));
    assert forall|e: SymbolEntry| entries.contains(e) && e.0 != name implies #[trigger] put(
        entries,
        name,
        info,
    ).contains(e) by {
        let k = choose|k: int| 0 <= k < entries.len() && entries[k] == e;
        entries.lemma_filter_contains(other_than(name), k);
        let j = choose|j: int| 0 <= j < kept.len() && kept[j] == e;
        assert(kept.push((name, info))[j] == e);
    }
}

/// Every external name of a file is an external symbol in the table made of
/// its external names.
pub proof fn lemma_externs_table_has(externs: Seq<Seq<char>>, n: nat, name: Seq<char>)
    requires
        n <= externs.len(),
        externs.take(n as int).contains(name),
    ensures
        externs_table(externs, n).contains((name, (Visibility::External, None))),
    decreases n,
{
    if n > 0 {
        let before = externs_table(externs, (n - 1) as nat);
        lemma_put(before, externs[n - 1], (Visibility::External, None));
        if externs[n - 1] != name {
            lemma_take_contains(externs, n - 1, name);
            lemma_externs_table_has(externs, (n - 1) as nat, name);
        }
    } else {
        assert(externs.take(0).len() == 0);
    }
}

/// A walk over items leaves a symbol in the table whose name none of the
/// items defines as a label.
pub proof fn lemma_scan_keeps(
    s: Scan,
    globals: Set<Seq<char>>,
    section: AssemblySection,
    items: Seq<ItemView>,
    n: nat,
    e: SymbolEntry,
)
    requires
        n <= items.len(),
        s.table.contains(e),
        forall|k: int| 0 <= k < n ==> #[trigger] items[k] != ItemView::Label(e.0),
    ensures
        scan_items(s, globals, section, items, n).table.contains(e),
    decreases n,
{
    if n > 0 {
        lemma_scan_keeps(s, globals, section, items, (n - 1) as nat, e);
        let before = scan_items(s, globals, section, items, (n - 1) as nat);
        assert(items[n - 1] != ItemView::Label(e.0));
        match items[n - 1] {
            ItemView::Label(name) => {
                lemma_put(
                    before.table,
                    name,
                    (label_visibility(globals, name), Some(section)),
                );
            },
            _ => {},
        }
    }
}

/// A name has a source among the first `n` files only where one of them
/// declares it global, and the source is the path of one that does.
pub proof fn lemma_global_source_is_a_file(files: FileViews, n: nat, name: Seq<char>)
    requires
        n <= files.len(),
        global_sources_of(files, n).contains_key(name),
    ensures
        exists|i: int|
            0 <= i < n && (#[trigger] files[i]).1.globals.contains(name) && files[i].0
                == global_sources_of(files, n)[name],
    decreases n,
{
    if n > 0 {
        if files[n - 1].1.globals.contains(name) {
            assert(files[n - 1].0 == global_sources_of(files, n)[name]);
        } else {
            lemma_global_source_is_a_file(files, (n - 1) as nat, name);
            let i = choose|i: int|
                0 <= i < n - 1 && (#[trigger] files[i]).1.globals.contains(name) && files[i].0
                    == global_sources_of(files, (n - 1) as nat)[name];
            assert(files[i].0 == global_sources_of(files, n)[name]);
        }
    }
}

/// Every name that a file of the project declares global has a source.
pub proof fn lemma_global_has_a_source(files: FileViews, n: nat, i: int, name: Seq<char>)
    requires
        0 <= i < n <= files.len(),
        files[i].1.globals.contains(name),
    ensures
        global_sources_of(files, n).contains_key(name),
    decreases n,
{
    if i < n - 1 {
        lemma_global_has_a_source(files, (n - 1) as nat, i, name);
    }
}

/// An external name that the project defines is linked to a file of the
/// project that declares it global.
pub proof fn lemma_internal_extern_is_a_file(files: FileViews, name: Seq<char>)
    requires
        internal_externs_of(files).contains_key(name),
    ensures
        exists|i: int|
            0 <= i < files.len() && (#[trigger] files[i]).1.globals.contains(name) && files[i].0
                == internal_externs_of(files)[name],
{
    lemma_global_source_is_a_file(files, files.len(), name);
}

/// Whether one of the first `n` files declares `name` external, in terms of
/// the files.
pub proof fn lemma_is_extern_among(files: FileViews, n: nat, i: int, name: Seq<char>)
    requires
        0 <= i < n <= files.len(),
        files[i].1.externs.contains(name),
    ensures
        is_extern_among(files, n, name),
    decreases n,
{
    if i < n - 1 {
        lemma_is_extern_among(files, (n - 1) as nat, i, name);
    }
}

/// A name that one file declares external and another declares global is
/// linked: it is an external name that the project defines.
pub proof fn lemma_extern_of_a_global_is_internal(
    files: FileViews,
    user: int,
    definer: int,
    name: Seq<char>,
)
    requires
        0 <= user < files.len(),
        0 <= definer < files.len(),
        files[user].1.externs.contains(name),
        files[definer].1.globals.contains(name),
    ensures
        internal_externs_of(files).contains_key(name),
        internal_externs_of(files)[name] == global_sources_of(files, files.len())[name],
{
    lemma_is_extern_among(files, files.len(), user, name);
    lemma_global_has_a_source(files, files.len(), definer, name);
}

/// Whether `table` holds `name` as a global symbol.
pub open spec fn has_global(table: Seq<SymbolEntry>, name: Seq<char>) -> bool {
    exists|k: int|
        0 <= k < table.len() && (#[trigger] table[k]).0 == name && table[k].1.0
            == Visibility::Global
}

/// A walk over items leaves a name in the table as a global symbol that is
/// in it as one, where the file declares the name global.
pub proof fn lemma_scan_keeps_global(
    s: Scan,
    globals: Set<Seq<char>>,
    section: AssemblySection,
    items: Seq<ItemView>,
    n: nat,
    name: Seq<char>,
)
    requires
        n <= items.len(),
        globals.contains(name),
        has_global(s.table, name),
    ensures
        has_global(scan_items(s, globals, section, items, n).table, name),
    decreases n,
{
    if n > 0 {
        lemma_scan_keeps_global(s, globals, section, items, (n - 1) as nat, name);
        let before = scan_items(s, globals, section, items, (n - 1) as nat);
        let after = scan_items(s, globals, section, items, n);
        match items[n - 1] {
            ItemView::Label(label) => {
                if !is_sub_label(label) {
                    let info = (label_visibility(globals, label), Some(section));
                    lemma_put(before.table, label, info);
                    if label == name {
                        assert(after.table == put(before.table, label, info));
                        let k = choose|k: int|
                            0 <= k < after.table.len() && after.table[k] == (label, info);
                        assert(after.table[k].0 == name);
                    } else {
                        let j = choose|j: int|
                            0 <= j < before.table.len() && (#[trigger] before.table[j]).0 == name
                                && before.table[j].1.0 == Visibility::Global;
                        assert(before.table.contains(before.table[j]));
                        assert(put(before.table, label, info).contains(before.table[j]));
                        assert(after.table == put(before.table, label, info));
                        let k = choose|k: int|
                            0 <= k < after.table.len() && after.table[k] == before.table[j];
                        assert(after.table[k].0 == name);
                    }
                }
            },
            _ => {},
        }
    }
}

/// A walk over items that define a label whose name the file declares
/// global has the name in the table as a global symbol.
pub proof fn lemma_scan_finds_global(
    s: Scan,
    globals: Set<Seq<char>>,
    section: AssemblySection,
    items: Seq<ItemView>,
    n: nat,
    name: Seq<char>,
    k: int,
)
    requires
        0 <= k < n <= items.len(),
        items[k] == ItemView::Label(name),
        !is_sub_label(name),
        globals.contains(name),
    ensures
        has_global(scan_items(s, globals, section, items, n).table, name),
    decreases n,
{
    if k == n - 1 {
        let before = scan_items(s, globals, section, items, (n - 1) as nat);
        let after = scan_items(s, globals, section, items, n);
        let info = (label_visibility(globals, name), Some(section));
        lemma_put(before.table, name, info);
        assert(after.table == put(before.table, name, info));
        let j = choose|j: int| 0 <= j < after.table.len() && after.table[j] == (name, info);
        assert(after.table[j].0 == name);
    } else {
        lemma_scan_finds_global(s, globals, section, items, (n - 1) as nat, name, k);
        let before = scan_items(s, globals, section, items, (n - 1) as nat);
        assert(scan_items(s, globals, section, items, n) == scan_item(
            before,
            globals,
            section,
            items[n - 1],
        ));
        lemma_scan_step_keeps_global(before, globals, section, items[n - 1], name);
    }
}

/// One more item leaves a name in the table as a global symbol that is in it
/// as one, where the file declares the name global.
pub proof fn lemma_scan_step_keeps_global(
    s: Scan,
    globals: Set<Seq<char>>,
    section: AssemblySection,
    item: ItemView,
    name: Seq<char>,
)
    requires
        globals.contains(name),
        has_global(s.table, name),
    ensures
        has_global(scan_item(s, globals, section, item).table, name),
{
    let items = seq![item];
    lemma_scan_keeps_global(s, globals, section, items, 1, name);
    assert(scan_items(s, globals, section, items, 0) == s);
}

/// A label that a file defines, in whatever section, and declares global is
/// a global symbol of the file.
pub proof fn lemma_global_label_is_global(
    f: AssemblyFileView,
    section: AssemblySection,
    k: int,
    name: Seq<char>,
)
    requires
        0 <= k < f.sections.items(section).len(),
        f.sections.items(section)[k] == ItemView::Label(name),
        !is_sub_label(name),
        f.globals.contains(name),
    ensures
        has_global(scan_file(f).table, name),
{
    let start = Scan {
        table: externs_table(f.externs, f.externs.len()),
        current: Seq::empty(),
        subs: Seq::empty(),
    };
    let text = scan_items(
        start,
        f.globals,
        AssemblySection::Text,
        f.sections.text,
        f.sections.text.len(),
    );
    let data = scan_items(
        text,
        f.globals,
        AssemblySection::Data,
        f.sections.data,
        f.sections.data.len(),
    );
    let bss = scan_items(data, f.globals, AssemblySection::BSS, f.sections.bss, f.sections.bss.len());
    match section {
        AssemblySection::Text => {
            lemma_scan_finds_global(
                start,
                f.globals,
                AssemblySection::Text,
                f.sections.text,
                f.sections.text.len(),
                name,
                k,
            );
            lemma_scan_keeps_global(
                text,
                f.globals,
                AssemblySection::Data,
                f.sections.data,
                f.sections.data.len(),
                name,
            );
            lemma_scan_keeps_global(
                data,
                f.globals,
                AssemblySection::BSS,
                f.sections.bss,
                f.sections.bss.len(),
                name,
            );
            lemma_scan_keeps_global(
                bss,
                f.globals,
                AssemblySection::ROData,
                f.sections.rodata,
                f.sections.rodata.len(),
                name,
            );
        },
        AssemblySection::Data => {
            lemma_scan_finds_global(
                text,
                f.globals,
                AssemblySection::Data,
                f.sections.data,
                f.sections.data.len(),
                name,
                k,
            );
            lemma_scan_keeps_global(
                data,
                f.globals,
                AssemblySection::BSS,
                f.sections.bss,
                f.sections.bss.len(),
                name,
            );
            lemma_scan_keeps_global(
                bss,
                f.globals,
                AssemblySection::ROData,
                f.sections.rodata,
                f.sections.rodata.len(),
                name,
            );
        },
        AssemblySection::BSS => {
            lemma_scan_finds_global(
                data,
                f.globals,
                AssemblySection::BSS,
                f.sections.bss,
                f.sections.bss.len(),
                name,
                k,
            );
            lemma_scan_keeps_global(
                bss,
                f.globals,
                AssemblySection::ROData,
                f.sections.rodata,
                f.sections.rodata.len(),
                name,
            );
        },
        AssemblySection::ROData => {
            lemma_scan_finds_global(
                bss,
                f.globals,
                AssemblySection::ROData,
                f.sections.rodata,
                f.sections.rodata.len(),
                name,
                k,
            );
        },
    }
}

/// A name that a file declares external stays an external symbol of the
/// file where the file defines no label of that name.
pub proof fn lemma_extern_stays_external(f: AssemblyFileView, name: Seq<char>)
    requires
        f.externs.contains(name),
        forall|section: AssemblySection, k: int|
            0 <= k < f.sections.items(section).len() ==> #[trigger] f.sections.items(section)[k]
                != ItemView::Label(name),
    ensures
        scan_file(f).table.contains((name, (Visibility::External, None))),
{
    let e = (name, (Visibility::External, None::<AssemblySection>));
    assert(f.externs.take(f.externs.len() as int) =~= f.externs);
    lemma_externs_table_has(f.externs, f.externs.len(), name);
    let start = Scan {
        table: externs_table(f.externs, f.externs.len()),
        current: Seq::empty(),
        subs: Seq::empty(),
    };
    assert forall|k: int| 0 <= k < f.sections.text.len() implies #[trigger] f.sections.text[k]
        != ItemView::Label(name) by {
        assert(f.sections.items(AssemblySection::Text)[k] != ItemView::Label(name));
    }
    assert forall|k: int| 0 <= k < f.sections.data.len() implies #[trigger] f.sections.data[k]
        != ItemView::Label(name) by {
        assert(f.sections.items(AssemblySection::Data)[k] != ItemView::Label(name));
    }
    assert forall|k: int| 0 <= k < f.sections.bss.len() implies #[trigger] f.sections.bss[k]
        != ItemView::Label(name) by {
        assert(f.sections.items(AssemblySection::BSS)[k] != ItemView::Label(name));
    }
    assert forall|k: int| 0 <= k < f.sections.rodata.len() implies #[trigger] f.sections.rodata[k]
        != ItemView::Label(name) by {
        assert(f.sections.items(AssemblySection::ROData)[k] != ItemView::Label(name));
    }
    lemma_scan_keeps(
        start,
        f.globals,
        AssemblySection::Text,
        f.sections.text,
        f.sections.text.len(),
        e,
    );
    let text = scan_items(
        start,
        f.globals,
        AssemblySection::Text,
        f.sections.text,
        f.sections.text.len(),
    );
    lemma_scan_keeps(
        text,
        f.globals,
        AssemblySection::Data,
        f.sections.data,
        f.sections.data.len(),
        e,
    );
    let data = scan_items(
        text,
        f.globals,
        AssemblySection::Data,
        f.sections.data,
        f.sections.data.len(),
    );
    lemma_scan_keeps(data, f.globals, AssemblySection::BSS, f.sections.bss, f.sections.bss.len(), e);
    let bss = scan_items(data, f.globals, AssemblySection::BSS, f.sections.bss, f.sections.bss.len());
    lemma_scan_keeps(
        bss,
        f.globals,
        AssemblySection::ROData,
        f.sections.rodata,
        f.sections.rodata.len(),
        e,
    );
}

/// An external name that no file declares global has no source in the
/// project. In a file that declares it and defines no label of that name, it
/// stays an external symbol.
pub proof fn lemma_unresolved_extern(files: FileViews, i: int, name: Seq<char>)
    requires
        0 <= i < files.len(),
        files[i].1.externs.contains(name),
        forall|k: int| 0 <= k < files.len() ==> !(#[trigger] files[k]).1.globals.contains(name),
        forall|section: AssemblySection, k: int|
            0 <= k < files[i].1.sections.items(section).len()
                ==> #[trigger] files[i].1.sections.items(section)[k] != ItemView::Label(name),
    ensures
        !internal_externs_of(files).contains_key(name),
        symbols_of(files)[i].contains((name, (Visibility::External, None))),
{
    if global_sources_of(files, files.len()).contains_key(name) {
        lemma_global_source_is_a_file(files, files.len(), name);
    }
    lemma_extern_stays_external(files[i].1, name);
}

/// The source of a global name is the last file that declares it global.
pub proof fn lemma_last_definer_is_the_source(files: FileViews, n: nat, i: int, name: Seq<char>)
    requires
        0 <= i < n <= files.len(),
        files[i].1.globals.contains(name),
        forall|k: int| i < k < n ==> !(#[trigger] files[k]).1.globals.contains(name),
    ensures
        global_sources_of(files, n).contains_key(name),
        global_sources_of(files, n)[name] == files[i].0,
    decreases n,
{
    if i < n - 1 {
        assert(!files[n - 1].1.globals.contains(name));
        lemma_last_definer_is_the_source(files, (n - 1) as nat, i, name);
    }
}

/// Where a file `definer` declares a name global and defines it as a label,
/// and is the last file to declare it global, and a file `user` declares it
/// external and defines no label of that name: the name is a global symbol
/// of `definer` and an external symbol of `user`, and as an external name it
/// is linked to the path of `definer`.
pub proof fn lemma_global_and_extern_are_linked(
    files: FileViews,
    definer: int,
    user: int,
    section: AssemblySection,
    k: int,
    name: Seq<char>,
)
    requires
        0 <= definer < files.len(),
        0 <= user < files.len(),
        files[definer].1.globals.contains(name),
        forall|j: int| definer < j < files.len() ==> !(#[trigger] files[j]).1.globals.contains(name),
        0 <= k < files[definer].1.sections.items(section).len(),
        files[definer].1.sections.items(section)[k] == ItemView::Label(name),
        !is_sub_label(name),
        files[user].1.externs.contains(name),
        forall|section: AssemblySection, j: int|
            0 <= j < files[user].1.sections.items(section).len()
                ==> #[trigger] files[user].1.sections.items(section)[j] != ItemView::Label(name),
    ensures
        has_global(symbols_of(files)[definer], name),
        symbols_of(files)[user].contains((name, (Visibility::External, None))),
        internal_externs_of(files).contains_key(name),
        internal_externs_of(files)[name] == files[definer].0,
{
    lemma_global_label_is_global(files[definer].1, section, k, name);
    lemma_extern_stays_external(files[user].1, name);
    lemma_extern_of_a_global_is_internal(files, user, definer, name);
    lemma_last_definer_is_the_source(files, files.len(), definer, name);
}

/// What is in a table after a name was put in was in it before, or is the
/// new entry.
pub proof fn lemma_put_adds_one(
    entries: Seq<SymbolEntry>,
    name: Seq<char>,
    info: SymbolInfo,
    e: SymbolEntry,
)
    requires
        put(entries, name, info).contains(e),
    ensures
        e == (name, info) || entries.contains(e),
{
    let kept = entries.filter(other_than(name));
    lemma_push_contains(kept, (name, info));
    if e != (name, info) {
        assert(kept.contains(e));
        entries.lemma_filter_contains_rev(other_than(name), e);
    }
}

/// Every symbol in the table made of the external names of a file is one
/// of them.
pub proof fn lemma_externs_table_holds_externs(externs: Seq<Seq<char>>, n: nat, e: SymbolEntry)
    requires
        n <= externs.len(),
        externs_table(externs, n).contains(e),
    ensures
        externs.contains(e.0),
    decreases n,
{
    if n > 0 {
        lemma_put_adds_one(
            externs_table(externs, (n - 1) as nat),
            externs[n - 1],
            (Visibility::External, None),
            e,
        );
        if e.0 != externs[n - 1] {
            lemma_externs_table_holds_externs(externs, (n - 1) as nat, e);
        }
    } else {
        assert(externs_table(externs, n).len() == 0);
    }
}

/// A walk over items adds no sub-label to the table.
pub proof fn lemma_scan_adds_no_sub_label(
    s: Scan,
    globals: Set<Seq<char>>,
    section: AssemblySection,
    items: Seq<ItemView>,
    n: nat,
    e: SymbolEntry,
)
    requires
        n <= items.len(),
        scan_items(s, globals, section, items, n).table.contains(e),
    ensures
        s.table.contains(e) || !is_sub_label(e.0),
    decreases n,
{
    if n > 0 {
        let before = scan_items(s, globals, section, items, (n - 1) as nat);
        match items[n - 1] {
            ItemView::Label(label) => {
                if !is_sub_label(label) {
                    lemma_put_adds_one(
                        before.table,
                        label,
                        (label_visibility(globals, label), Some(section)),
                        e,
                    );
                }
            },
            _ => {},
        }
        if before.table.contains(e) {
            lemma_scan_adds_no_sub_label(s, globals, section, items, (n - 1) as nat, e);
        }
    }
}

/// A sub-label is no symbol of a file, unless the file declares its name
/// external.
pub proof fn lemma_sub_labels_are_no_symbols(f: AssemblyFileView, e: SymbolEntry)
    requires
        scan_file(f).table.contains(e),
    ensures
        f.externs.contains(e.0) || !is_sub_label(e.0),
{
    let start = Scan {
        table: externs_table(f.externs, f.externs.len()),
        current: Seq::empty(),
        subs: Seq::empty(),
    };
    let text = scan_items(
        start,
        f.globals,
        AssemblySection::Text,
        f.sections.text,
        f.sections.text.len(),
    );
    let data = scan_items(
        text,
        f.globals,
        AssemblySection::Data,
        f.sections.data,
        f.sections.data.len(),
    );
    let bss = scan_items(data, f.globals, AssemblySection::BSS, f.sections.bss, f.sections.bss.len());
    lemma_scan_adds_no_sub_label(
        bss,
        f.globals,
        AssemblySection::ROData,
        f.sections.rodata,
        f.sections.rodata.len(),
        e,
    );
    if bss.table.contains(e) {
        lemma_scan_adds_no_sub_label(
            data,
            f.globals,
            AssemblySection::BSS,
            f.sections.bss,
            f.sections.bss.len(),
            e,
        );
        if data.table.contains(e) {
            lemma_scan_adds_no_sub_label(
                text,
                f.globals,
                AssemblySection::Data,
                f.sections.data,
                f.sections.data.len(),
                e,
            );
            if text.table.contains(e) {
                lemma_scan_adds_no_sub_label(
                    start,
                    f.globals,
                    AssemblySection::Text,
                    f.sections.text,
                    f.sections.text.len(),
                    e,
                );
                if start.table.contains(e) {
                    lemma_externs_table_holds_externs(f.externs, f.externs.len(), e);
                }
            }
        }
    }
}

/// The sub-labels that follow a label belong to it, in the order in which
/// they stand: where the item at `k` is a label `owner` and the `m` items
/// after it are sub-labels, the walk over all of them has gathered these
/// sub-labels for `owner` after what it had gathered before.
pub proof fn lemma_sub_labels_follow_their_label(
    s: Scan,
    globals: Set<Seq<char>>,
    section: AssemblySection,
    items: Seq<ItemView>,
    k: int,
    m: nat,
    owner: Seq<char>,
    subs: Seq<Seq<char>>,
)
    requires
        0 <= k,
        k + 1 + m <= items.len(),
        items[k] == ItemView::Label(owner),
        !is_sub_label(owner),
        subs.len() == m,
        forall|i: int|
            0 <= i < m ==> #[trigger] items[k + 1 + i] == ItemView::Label(subs[i]) && is_sub_label(
                subs[i],
            ),
    ensures
        scan_items(s, globals, section, items, (k + 1 + m) as nat).current == owner,
        scan_items(s, globals, section, items, (k + 1 + m) as nat).subs == scan_items(
            s,
            globals,
            section,
            items,
            k as nat,
        ).subs + Seq::new(m, |i: int| (owner, subs[i])),
    decreases m,
{
    let before = scan_items(s, globals, section, items, k as nat).subs;
    if m == 0 {
        assert(scan_items(s, globals, section, items, (k + 1) as nat) == scan_item(
            scan_items(s, globals, section, items, k as nat),
            globals,
            section,
            items[k],
        ));
        assert(before + Seq::new(0, |i: int| (owner, subs[i])) =~= before);
    } else {
        let fewer = subs.take(m - 1);
        assert forall|i: int| 0 <= i < m - 1 implies #[trigger] items[k + 1 + i]
            == ItemView::Label(fewer[i]) && is_sub_label(fewer[i]) by {
            assert(items[k + 1 + i] == ItemView::Label(subs[i]));
        }
        lemma_sub_labels_follow_their_label(
            s,
            globals,
            section,
            items,
            k,
            (m - 1) as nat,
            owner,
            fewer,
        );
        assert(items[k + 1 + (m - 1)] == ItemView::Label(subs[m - 1]));
        assert(scan_items(s, globals, section, items, (k + 1 + m) as nat) == scan_item(
            scan_items(s, globals, section, items, (k + m) as nat),
            globals,
            section,
            items[k + m],
        ));
        assert((before + Seq::new((m - 1) as nat, |i: int| (owner, fewer[i]))).push(
            (owner, subs[m - 1]),
        ) =~= before + Seq::new(m, |i: int| (owner, subs[i])));
    }
}

/// An external name among the first `n` files is an external name of one
/// of them.
pub proof fn lemma_extern_among_is_in_a_file(files: FileViews, n: nat, name: Seq<char>)
    requires
        is_extern_among(files, n, name),
    ensures
        exists|i: int| 0 <= i < n && i < files.len() && (#[trigger] files[i]).1.externs.contains(name),
    decreases n,
{
    if !files[n - 1].1.externs.contains(name) {
        lemma_extern_among_is_in_a_file(files, (n - 1) as nat, name);
        let i = choose|i: int|
            0 <= i < n - 1 && i < files.len() && (#[trigger] files[i]).1.externs.contains(name);
        assert(files[i].1.externs.contains(name));
    }
}

/// Whether `file` with its path is one of `files`.
pub open spec fn occurs_in(files: FileViews, file: (Seq<char>, AssemblyFileView)) -> bool {
    exists|j: int| 0 <= j < files.len() && #[trigger] files[j] == file
}

/// Whether no name is declared global by two files of different paths.
pub open spec fn globals_are_unique(files: FileViews) -> bool {
    forall|i: int, k: int, name: Seq<char>|
        0 <= i < files.len() && 0 <= k < files.len() && #[trigger] files[i].1.globals.contains(
            name,
        ) && #[trigger] files[k].1.globals.contains(name) ==> files[i].0 == files[k].0
}

/// The sources of the names of `a` are sources of the same names in `b`,
/// where every file of `a` is one of `b` and the other way round, and no
/// name is declared global twice.
proof fn lemma_sources_carry_over(a: FileViews, b: FileViews, name: Seq<char>)
    requires
        forall|i: int| 0 <= i < a.len() ==> occurs_in(b, #[trigger] a[i]),
        forall|j: int| 0 <= j < b.len() ==> occurs_in(a, #[trigger] b[j]),
        globals_are_unique(a),
        global_sources_of(a, a.len()).contains_key(name),
    ensures
        global_sources_of(b, b.len()).contains_key(name),
        global_sources_of(b, b.len())[name] == global_sources_of(a, a.len())[name],
{
    lemma_global_source_is_a_file(a, a.len(), name);
    let i = choose|i: int|
        0 <= i < a.len() && (#[trigger] a[i]).1.globals.contains(name) && a[i].0
            == global_sources_of(a, a.len())[name];
    assert(occurs_in(b, a[i]));
    let j = choose|j: int| 0 <= j < b.len() && #[trigger] b[j] == a[i];
    lemma_global_has_a_source(b, b.len(), j, name);
    lemma_global_source_is_a_file(b, b.len(), name);
    let j2 = choose|j2: int|
        0 <= j2 < b.len() && (#[trigger] b[j2]).1.globals.contains(name) && b[j2].0
            == global_sources_of(b, b.len())[name];
    assert(occurs_in(a, b[j2]));
    let i2 = choose|i2: int| 0 <= i2 < a.len() && #[trigger] a[i2] == b[j2];
    assert(a[i2].1.globals.contains(name));
    assert(a[i].0 == a[i2].0);
}

/// The external names of `a` are external names of `b`, where every file
/// of `a` is one of `b`.
proof fn lemma_externs_carry_over(a: FileViews, b: FileViews, name: Seq<char>)
    requires
        forall|i: int| 0 <= i < a.len() ==> occurs_in(b, #[trigger] a[i]),
        is_extern_among(a, a.len(), name),
    ensures
        is_extern_among(b, b.len(), name),
{
    lemma_extern_among_is_in_a_file(a, a.len(), name);
    let i = choose|i: int| 0 <= i < a.len() && (#[trigger] a[i]).1.externs.contains(name);
    assert(occurs_in(b, a[i]));
    let j = choose|j: int| 0 <= j < b.len() && #[trigger] b[j] == a[i];
    lemma_is_extern_among(b, b.len(), j, name);
}

/// The order of the files does not matter to the links between them: two
/// lists of the same files, in which no name is declared global by two
/// files of different paths, give the same sources of global names and the
/// same links of external names. The symbols of a file depend on that file
/// alone.
pub proof fn lemma_order_of_files_does_not_matter(a: FileViews, b: FileViews)
    requires
        forall|i: int| 0 <= i < a.len() ==> occurs_in(b, #[trigger] a[i]),
        forall|j: int| 0 <= j < b.len() ==> occurs_in(a, #[trigger] b[j]),
        globals_are_unique(a),
    ensures
        global_sources_of(a, a.len()) == global_sources_of(b, b.len()),
        internal_externs_of(a) == internal_externs_of(b),
        forall|i: int, j: int|
            0 <= i < a.len() && 0 <= j < b.len() && a[i] == b[j] ==> symbols_of(a)[i] == symbols_of(
                b,
            )[j],
{
    assert(globals_are_unique(b)) by {
        assert forall|i: int, k: int, name: Seq<char>|
            0 <= i < b.len() && 0 <= k < b.len() && #[trigger] b[i].1.globals.contains(name)
                && #[trigger] b[k].1.globals.contains(name) implies b[i].0 == b[k].0 by {
            assert(occurs_in(a, b[i]));
            assert(occurs_in(a, b[k]));
            let i2 = choose|i2: int| 0 <= i2 < a.len() && #[trigger] a[i2] == b[i];
            let k2 = choose|k2: int| 0 <= k2 < a.len() && #[trigger] a[k2] == b[k];
            assert(a[i2].1.globals.contains(name) && a[k2].1.globals.contains(name));
        }
    }
    let sa = global_sources_of(a, a.len());
    let sb = global_sources_of(b, b.len());
    assert forall|name: Seq<char>| sa.contains_key(name) == sb.contains_key(name) by {
        if sa.contains_key(name) {
            lemma_sources_carry_over(a, b, name);
        }
        if sb.contains_key(name) {
            lemma_sources_carry_over(b, a, name);
        }
    }
    assert forall|name: Seq<char>| sa.contains_key(name) implies sa[name] == sb[name] by {
        lemma_sources_carry_over(a, b, name);
    }
    assert(sa =~= sb);
    let ea = internal_externs_of(a);
    let eb = internal_externs_of(b);
    assert forall|name: Seq<char>| ea.contains_key(name) == eb.contains_key(name) by {
        if is_extern_among(a, a.len(), name) {
            lemma_externs_carry_over(a, b, name);
        }
        if is_extern_among(b, b.len(), name) {
            lemma_externs_carry_over(b, a, name);
        }
    }
    assert(ea =~= eb);
}

/// All the sub-labels of `subs` that belong to `owner`, in order.
pub open spec fn all_owned_by(subs: Seq<(Seq<char>, Seq<char>)>, owner: Seq<char>) -> Seq<
    Seq<char>,
> {
    owned_by(subs, owner, subs.len())
}

/// The sub-labels of a label in two lists, one after the other, are those
/// in the first and then those in the second.
pub proof fn lemma_owned_by_both(
    first: Seq<(Seq<char>, Seq<char>)>,
    second: Seq<(Seq<char>, Seq<char>)>,
    owner: Seq<char>,
    n: nat,
)
    requires
        n <= second.len(),
    ensures
        owned_by(first + second, owner, first.len() + n) == all_owned_by(first, owner) + owned_by(
            second,
            owner,
            n,
        ),
    decreases first.len() + n,
{
    let both = first + second;
    if n == 0 {
        if first.len() > 0 {
            lemma_owned_by_prefix(first, both, owner, first.len());
        }
        assert(all_owned_by(first, owner) + owned_by(second, owner, 0) =~= all_owned_by(
            first,
            owner,
        ));
    } else {
        lemma_owned_by_both(first, second, owner, (n - 1) as nat);
        assert(both[first.len() + n - 1] == second[n - 1]);
        assert(owned_by(both, owner, first.len() + n) =~= all_owned_by(first, owner) + owned_by(
            second,
            owner,
            n,
        ));
    }
}

/// The sub-labels of a label among the first `n` of a list are the same in
/// a longer list that starts with it.
pub proof fn lemma_owned_by_prefix(
    short: Seq<(Seq<char>, Seq<char>)>,
    long: Seq<(Seq<char>, Seq<char>)>,
    owner: Seq<char>,
    n: nat,
)
    requires
        n <= short.len() <= long.len(),
        forall|i: int| 0 <= i < short.len() ==> short[i] == long[i],
    ensures
        owned_by(long, owner, n) == owned_by(short, owner, n),
    decreases n,
{
    if n > 0 {
        lemma_owned_by_prefix(short, long, owner, (n - 1) as nat);
    }
}

/// A label whose sub-labels all stand in one file has them as that file
/// gives them, wherever the file stands among the others.
pub proof fn lemma_sub_labels_of_one_file(files: FileViews, n: nat, i: int, owner: Seq<char>)
    requires
        0 <= i < files.len(),
        n <= files.len(),
        forall|k: int|
            0 <= k < files.len() && k != i ==> all_owned_by(
                scan_file((#[trigger] files[k]).1).subs,
                owner,
            ).len() == 0,
    ensures
        all_owned_by(sub_labels_of(files, n), owner) == (if i < n {
            all_owned_by(scan_file(files[i].1).subs, owner)
        } else {
            Seq::empty()
        }),
    decreases n,
{
    if n > 0 {
        lemma_sub_labels_of_one_file(files, (n - 1) as nat, i, owner);
        let before = sub_labels_of(files, (n - 1) as nat);
        let added = scan_file(files[n - 1].1).subs;
        lemma_owned_by_both(before, added, owner, added.len());
        if n - 1 != i {
            assert(all_owned_by(scan_file(files[n - 1].1).subs, owner).len() == 0);
            assert(all_owned_by(before, owner) + all_owned_by(added, owner) =~= all_owned_by(
                before,
                owner,
            ));
        } else {
            assert(all_owned_by(before, owner) + all_owned_by(added, owner) =~= all_owned_by(
                added,
                owner,
            ));
        }
    }
}

/// Two projects that resolve the same files hold the same tables.
pub proof fn lemma_resolution_is_unique(a: AssemblyProject, b: AssemblyProject, files: FileViews)
    requires
        a.is_resolution_of(files),
        b.is_resolution_of(files),
    ensures
        a.global_sources() == b.global_sources(),
        a.internal_externs() == b.internal_externs(),
        a.symbols() == b.symbols(),
        a.sub_labels() == b.sub_labels(),
        forall|label: Seq<char>| a.symbol_constituents(label) == b.symbol_constituents(label),
        a.docs() == b.docs(),
{
}

/// The document of a file refers only to files of the project: where
/// every file of the project has a file name and a target among `links`,
/// the document can be shown.
pub proof fn lemma_docs_are_showable(p: AssemblyProject, files: FileViews, links: Links, i: int)
    requires
        p.is_resolution_of(files),
        0 <= i < files.len(),
        forall|k: int|
            0 <= k < files.len() ==> has_file_name((#[trigger] files[k]).0) && link_of(
                links,
                files[k].0,
            ) is Some,
    ensures
        showable(p.docs()[i].1, links),
{
    let table = p.symbols()[i];
    let rows = symbol_rows(table, p.sub_labels(), p.internal_externs());
    assert forall|r: int| 0 <= r < rows.len() implies all_showable(#[trigger] rows[r], links) by {
        let name = table[r].0;
        let subs = owned_by(p.sub_labels(), name, p.sub_labels().len());
        let row = symbol_row(table[r], subs, p.internal_externs());
        assert(rows[r] == row);
        let cell = symbol_cell(name, subs);
        let lines = cell->CellLines_0;
        assert forall|j: int| 0 <= j < lines.len() implies showable(#[trigger] lines[j], links) by {
            if j > 0 {
                let line = constituent_line(subs[j - 1]);
                let parts = line->Concat_0;
                assert(showable(parts[0], links));
                assert(showable(parts[1], links));
                assert(all_showable(parts, links));
                assert(showable(line, links));
            }
        }
        assert(all_showable(lines, links));
        assert(showable(cell, links));
        let place = defined_in(name, table[r].1.0, p.internal_externs());
        if table[r].1.0 == Visibility::External && p.internal_externs().contains_key(name) {
            lemma_internal_extern_is_a_file(files, name);
        }
        assert(showable(place, links));
        assert(showable(row[0], links));
        assert(showable(row[1], links));
        assert(showable(row[2], links));
        assert(showable(row[3], links));
    }
    assert(rows_showable(rows, links));
    let header = header_row();
    assert(showable(header[0], links) && showable(header[1], links) && showable(header[2], links)
        && showable(header[3], links));
    assert(all_showable(header, links));
    let symbols = DocsView::Table { header, rows };
    assert(showable(symbols, links));
    let defines = define_list(files[i].1.defines);
    assert forall|j: int| 0 <= j < defines.len() implies showable(#[trigger] defines[j], links) by {}
    assert(all_showable(defines, links));
    assert(showable(DocsView::List(defines), links));
    let macros = macro_list(files[i].1.macros);
    assert forall|j: int| 0 <= j < macros.len() implies showable(#[trigger] macros[j], links) by {}
    assert(all_showable(macros, links));
    assert(showable(DocsView::List(macros), links));
}

} // verus!
