//! The model of one parsed assembly file.
use crate::syntax::Syntax;
use crate::syntax::lexer::fits;
use crate::text::texts;
use vstd::prelude::*;

verus! {

/// Where a label or macro call is placed.
#[derive(PartialEq, Eq, Hash, Clone, Copy, Debug, Structural)]
pub enum AssemblySection {
    Text,
    Data,
    BSS,
    ROData,
}

impl AssemblySection {
    /// The words shown for this section.
    pub open spec fn text(self) -> Seq<char> {
        match self {
            AssemblySection::Text => "text"@,
            AssemblySection::Data => "data"@,
            AssemblySection::BSS => "bss"@,
            AssemblySection::ROData => "read-only data"@,
        }
    }

    pub fn to_string(&self) -> (s: String)
        ensures
            s@ == self.text(),
    {
        match self {
            AssemblySection::Text => "text".to_owned(),
            AssemblySection::Data => "data".to_owned(),
            AssemblySection::BSS => "bss".to_owned(),
            AssemblySection::ROData => "read-only data".to_owned(),
        }
    }
}

/// What a section holds.
#[derive(Debug)]
pub enum AssemblyItem {
    Label(String),
    Mnemonic(),
    MacroCall(String, Vec<Box<AssemblyItem>>),
}

/// The mathematical content of an [`AssemblyItem`].
pub enum ItemView {
    Label(Seq<char>),
    Mnemonic,
    MacroCall(Seq<char>, Seq<ItemView>),
}

impl AssemblyItem {
    pub open spec fn view(&self) -> ItemView
        decreases self,
    {
        match self {
            AssemblyItem::Label(name) => ItemView::Label(name@),
            AssemblyItem::Mnemonic() => ItemView::Mnemonic,
            AssemblyItem::MacroCall(name, args) => ItemView::MacroCall(
                name@,
                Seq::new(
                    args@.len(),
                    |i: int|
                        if 0 <= i < args@.len() {
                            args@[i].view()
                        } else {
                            ItemView::Mnemonic
                        },
                ),
            ),
        }
    }
}

/// The content of each item of `items`.
pub open spec fn item_views(items: Seq<AssemblyItem>) -> Seq<ItemView> {
    Seq::new(items.len(), |i: int| items[i].view())
}

/// A macro definition: its name, how many arguments it takes, and its body.
#[derive(Debug)]
pub struct AssemblyMacro {
    pub name: String,
    pub arg_count: usize,
    pub body: Vec<AssemblyItem>,
}

/// The mathematical content of an [`AssemblyMacro`].
pub struct MacroView {
    pub name: Seq<char>,
    pub arg_count: nat,
    pub body: Seq<ItemView>,
}

impl View for AssemblyMacro {
    type V = MacroView;

    open spec fn view(&self) -> MacroView {
        MacroView {
            name: self.name@,
            arg_count: self.arg_count as nat,
            body: item_views(self.body@),
        }
    }
}

/// The content of each macro of `macros`.
pub open spec fn macro_views(macros: Seq<AssemblyMacro>) -> Seq<MacroView> {
    Seq::new(macros.len(), |i: int| macros[i]@)
}

/// The items of a file, by the section they were found in. Within a
/// section they stand in file order.
#[derive(Debug)]
pub struct SectionItems {
    pub text: Vec<AssemblyItem>,
    pub data: Vec<AssemblyItem>,
    pub bss: Vec<AssemblyItem>,
    pub rodata: Vec<AssemblyItem>,
}

/// The mathematical content of [`SectionItems`].
pub struct SectionsView {
    pub text: Seq<ItemView>,
    pub data: Seq<ItemView>,
    pub bss: Seq<ItemView>,
    pub rodata: Seq<ItemView>,
}

impl SectionsView {
    /// The items of `section`.
    pub open spec fn items(self, section: AssemblySection) -> Seq<ItemView> {
        match section {
            AssemblySection::Text => self.text,
            AssemblySection::Data => self.data,
            AssemblySection::BSS => self.bss,
            AssemblySection::ROData => self.rodata,
        }
    }

    /// These sections with `item` added at the end of `section`.
    pub open spec fn push(self, section: AssemblySection, item: ItemView) -> SectionsView {
        match section {
            AssemblySection::Text => SectionsView { text: self.text.push(item), ..self },
            AssemblySection::Data => SectionsView { data: self.data.push(item), ..self },
            AssemblySection::BSS => SectionsView { bss: self.bss.push(item), ..self },
            AssemblySection::ROData => SectionsView { rodata: self.rodata.push(item), ..self },
        }
    }

    /// No item in any section.
    pub open spec fn empty() -> SectionsView {
        SectionsView {
            text: Seq::empty(),
            data: Seq::empty(),
            bss: Seq::empty(),
            rodata: Seq::empty(),
        }
    }
}

impl View for SectionItems {
    type V = SectionsView;

    open spec fn view(&self) -> SectionsView {
        SectionsView {
            text: item_views(self.text@),
            data: item_views(self.data@),
            bss: item_views(self.bss@),
            rodata: item_views(self.rodata@),
        }
    }
}

impl SectionItems {
    /// Sections without items.
    pub fn new() -> (s: SectionItems)
        ensures
            s@ == SectionsView::empty(),
    {
        let s = SectionItems {
            text: Vec::new(),
            data: Vec::new(),
            bss: Vec::new(),
            rodata: Vec::new(),
        };
        assert(s@.text =~= Seq::empty());
        assert(s@.data =~= Seq::empty());
        assert(s@.bss =~= Seq::empty());
        assert(s@.rodata =~= Seq::empty());
        s
    }

    /// The items of `section`, in file order.
    pub fn get(&self, section: AssemblySection) -> (items: &Vec<AssemblyItem>)
        ensures
            item_views(items@) == self@.items(section),
    {
        match section {
            AssemblySection::Text => &self.text,
            AssemblySection::Data => &self.data,
            AssemblySection::BSS => &self.bss,
            AssemblySection::ROData => &self.rodata,
        }
    }

    /// Adds `item` at the end of `section`.
    pub fn push(&mut self, section: AssemblySection, item: AssemblyItem)
        ensures
            final(self)@ == old(self)@.push(section, item@),
    {
        match section {
            AssemblySection::Text => {
                self.text.push(item);
                assert(self@.text =~= old(self)@.text.push(item@));
            },
            AssemblySection::Data => {
                self.data.push(item);
                assert(self@.data =~= old(self)@.data.push(item@));
            },
            AssemblySection::BSS => {
                self.bss.push(item);
                assert(self@.bss =~= old(self)@.bss.push(item@));
            },
            AssemblySection::ROData => {
                self.rodata.push(item);
                assert(self@.rodata =~= old(self)@.rodata.push(item@));
            },
        }
    }

    /// Whether no section holds an item.
    pub fn is_empty(&self) -> (b: bool)
        ensures
            b == (self@ == SectionsView::empty()),
    {
        let b = self.text.len() == 0 && self.data.len() == 0 && self.bss.len() == 0
            && self.rodata.len() == 0;
        proof {
            if b {
                assert(self@.text =~= Seq::empty());
                assert(self@.data =~= Seq::empty());
                assert(self@.bss =~= Seq::empty());
                assert(self@.rodata =~= Seq::empty());
            } else {
                assert(self@.text.len() == self.text@.len());
                assert(self@.data.len() == self.data@.len());
                assert(self@.bss.len() == self.bss@.len());
                assert(self@.rodata.len() == self.rodata@.len());
            }
        }
        b
    }
}

/// An assembly file, as far as its documentation needs it.
#[derive(Debug)]
pub struct AssemblyFile {
    /// The target word size.
    pub bits: usize,
    /// The paths of the files it includes, in file order.
    pub includes: Vec<String>,
    /// The names it declares global; each stands once.
    pub globals: Vec<String>,
    /// The names it declares external, in file order.
    pub externs: Vec<String>,
    /// Its macro definitions, in file order.
    pub macros: Vec<AssemblyMacro>,
    /// The names it defines for the preprocessor, in file order.
    pub defines: Vec<String>,
    /// Its labels and macro calls, by section.
    pub sections: SectionItems,
}

/// The mathematical content of an [`AssemblyFile`].
pub struct AssemblyFileView {
    pub bits: nat,
    pub includes: Seq<Seq<char>>,
    pub globals: Set<Seq<char>>,
    pub externs: Seq<Seq<char>>,
    pub macros: Seq<MacroView>,
    pub defines: Seq<Seq<char>>,
    pub sections: SectionsView,
}

impl AssemblyFileView {
    /// A file without declarations, for a 64-bit target.
    pub open spec fn empty() -> AssemblyFileView {
        AssemblyFileView {
            bits: 64,
            includes: Seq::empty(),
            globals: Set::empty(),
            externs: Seq::empty(),
            macros: Seq::empty(),
            defines: Seq::empty(),
            sections: SectionsView::empty(),
        }
    }
}

impl View for AssemblyFile {
    type V = AssemblyFileView;

    open spec fn view(&self) -> AssemblyFileView {
        AssemblyFileView {
            bits: self.bits as nat,
            includes: texts(self.includes@),
            globals: texts(self.globals@).to_set(),
            externs: texts(self.externs@),
            macros: macro_views(self.macros@),
            defines: texts(self.defines@),
            sections: self.sections@,
        }
    }
}

impl AssemblyFile {
    /// Whether no global name stands twice.
    pub open spec fn wf(&self) -> bool {
        texts(self.globals@).no_duplicates()
    }

    /// Parses the text `source` of the file `file` with the front end `S`:
    /// the model of the file, or the first failure.
    pub fn parse<S: Syntax>(file: &str, source: &str) -> (r: Result<Self, S::Error>)
        requires
            fits(source@),
        ensures
            match r {
                Ok(model) => S::outcome(file@, source@) == Ok::<
                    AssemblyFileView,
                    <S::Error as View>::V,
                >(model@) && model.wf(),
                Err(e) => S::outcome(file@, source@) == Err::<
                    AssemblyFileView,
                    <S::Error as View>::V,
                >(e@),
            },
    {
        match S::new_parser(file, source) {
            Ok(parser) => parser.parse(),
            Err(e) => Err(e),
        }
    }
}

impl Default for AssemblyFile {
    fn default() -> (file: Self)
        ensures
            file@ == AssemblyFileView::empty(),
            file.wf(),
    {
        let file = AssemblyFile {
            bits: 64,
            includes: Vec::new(),
            globals: Vec::new(),
            externs: Vec::new(),
            macros: Vec::new(),
            defines: Vec::new(),
            sections: SectionItems::new(),
        };
        assert(file@.includes =~= Seq::empty());
        assert(file@.globals =~= Set::empty());
        assert(file@.externs =~= Seq::empty());
        assert(file@.macros =~= Seq::empty());
        assert(file@.defines =~= Seq::empty());
        file
    }
}

} // verus!
