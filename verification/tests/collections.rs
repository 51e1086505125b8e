use asmdoc::assembly_file::{AssemblyItem, AssemblySection, SectionItems};
use asmdoc::names::NameMap;
use asmdoc::text::contains_name;

fn name(s: &str) -> String {
    s.to_string()
}

#[test]
fn name_map_keeps_what_was_put_in_last() {
    let mut map = NameMap::new();
    assert_eq!(map.get(&name("a")), None);
    map.insert(name("a"), name("1"));
    map.insert(name("b"), name("2"));
    assert_eq!(map.get(&name("a")), Some(&name("1")));
    assert_eq!(map.get(&name("b")), Some(&name("2")));
    map.insert(name("a"), name("3"));
    assert_eq!(map.get(&name("a")), Some(&name("3")));
    assert_eq!(map.get(&name("b")), Some(&name("2")));
    assert_eq!(map.get(&name("")), None);
    map.insert(name(""), name("empty"));
    assert_eq!(map.get(&name("")), Some(&name("empty")));
}

#[test]
fn section_items_are_kept_by_section_in_order() {
    let mut sections = SectionItems::new();
    assert!(sections.is_empty());
    sections.push(AssemblySection::Data, AssemblyItem::Label(name("d1")));
    sections.push(AssemblySection::Text, AssemblyItem::Label(name("t1")));
    sections.push(AssemblySection::Data, AssemblyItem::Mnemonic());
    sections.push(AssemblySection::ROData, AssemblyItem::MacroCall(name("$m"), Vec::new()));
    assert!(!sections.is_empty());
    assert_eq!(sections.get(AssemblySection::Data).len(), 2);
    assert!(matches!(&sections.get(AssemblySection::Data)[0], AssemblyItem::Label(n) if n == "d1"));
    assert!(matches!(&sections.get(AssemblySection::Data)[1], AssemblyItem::Mnemonic()));
    assert_eq!(sections.get(AssemblySection::Text).len(), 1);
    assert!(sections.get(AssemblySection::BSS).is_empty());
    assert_eq!(sections.get(AssemblySection::ROData).len(), 1);
}

#[test]
fn names_are_found_by_their_text() {
    let names = vec![name("main"), name("helper")];
    assert!(contains_name(&names, &name("helper")));
    assert!(!contains_name(&names, &name("help")));
    assert!(!contains_name(&Vec::new(), &name("")));
}
