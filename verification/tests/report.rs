use header_outline::event::{heading, Event, EventKind};

fn line(kind: EventKind, name: &str) -> String {
    Event { kind, name: name.to_string() }.describe()
}

#[test]
fn each_kind_of_event_has_its_line() {
    assert_eq!(line(EventKind::Include, "\"foo.h\""), "Included: \"foo.h\"");
    assert_eq!(line(EventKind::DeclaredClass, "Foo"), "Declared class Foo");
    assert_eq!(line(EventKind::DefinedClass, "Foo"), "Defined class: Foo");
    assert_eq!(line(EventKind::ReferencedType, "Bar"), "Referenced Bar");
    assert_eq!(line(EventKind::UsedType, "int"), "Used int");
    assert_eq!(line(EventKind::DefinedType, "handle"), "Defined type handle");
    assert_eq!(line(EventKind::DeclaredMember, "x"), "Declared member x");
    assert_eq!(line(EventKind::DeclaredFunction, "run"), "Declared function run");
}

#[test]
fn labels_end_in_a_space() {
    assert_eq!(EventKind::Include.label(), "Included: ");
    assert_eq!(EventKind::DefinedClass.label(), "Defined class: ");
    assert_eq!(EventKind::UsedType.label(), "Used ");
    assert_eq!(line(EventKind::UsedType, ""), "Used ");
}

#[test]
fn heading_names_the_file() {
    assert_eq!(heading("locale.h"), "Parsing locale.h");
    assert_eq!(heading(""), "Parsing ");
}

#[test]
fn report_on_a_whole_header() {
    let source = "\
#pragma once
#include \"Common.h\"
// Localisation table
class Strings;
typedef unsigned id_t;
struct Entry {
    const char* key;
    id_t value;
};
class Locale {
public:
    static Locale* instance();
    const char* get(const Strings& table, id_t id) const;
    void add(Entry entry);
private:
    Strings* table;
    int count;
};
";
    let outline = header_outline::parser::parseFile(source);
    assert_eq!(outline.end, Ok(header_outline::tokenizer::tokenize(source).len()));
    let lines: Vec<String> = outline.events.iter().map(|event| event.describe()).collect();
    assert_eq!(
        lines,
        vec![
            "Included: \"Common.h\"",
            "Declared class Strings",
            "Used unsigned",
            "Defined type id_t",
            "Defined class: Entry",
            "Referenced char",
            "Declared member key",
            "Used id_t",
            "Declared member value",
            "Defined class: Locale",
            "Referenced Locale",
            "Declared function instance",
            "Referenced char",
            "Referenced Strings",
            "Used id_t",
            "Declared function get",
            "Used void",
            "Used Entry",
            "Declared function add",
            "Referenced Strings",
            "Declared member table",
            "Used int",
            "Declared member count",
        ],
    );
}

#[test]
fn clone_of_an_event_is_equal_to_it() {
    let event = Event { kind: EventKind::DefinedType, name: "handle".to_string() };
    assert_eq!(event.clone(), event);
}
