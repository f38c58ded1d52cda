use toml_edit::{
    visit_table, Array, ArrayOfTables, DateTime, Decor, Document, Formatted, InlineTable, Item, Repr, Table,
    TableKeyValue, Value,
};

fn decor(prefix: &str, suffix: &str) -> Decor {
    Decor { prefix: prefix.to_string(), suffix: suffix.to_string() }
}

fn repr(prefix: &str, raw: &str, suffix: &str) -> Repr {
    Repr { decor: decor(prefix, suffix), raw_value: raw.to_string() }
}

fn integer(prefix: &str, n: i64, suffix: &str) -> Value {
    Value::Integer(Formatted { value: n, repr: repr(prefix, &n.to_string(), suffix) })
}

fn string(prefix: &str, raw: &str, suffix: &str) -> Value {
    let inner = raw.trim_matches('"').to_string();
    Value::String(Formatted { value: inner, repr: repr(prefix, raw, suffix) })
}

fn entry(key: &str, value: Item) -> TableKeyValue {
    TableKeyValue { key: repr("", key, ""), value }
}

fn spaced(key: &str, value: Value) -> TableKeyValue {
    TableKeyValue { key: repr("", key, " "), value: Item::Value(value) }
}

fn table(items: Vec<TableKeyValue>, implicit: bool, position: Option<usize>) -> Table {
    Table { items, decor: decor("", ""), implicit, position }
}

fn array(values: Vec<Value>, trailing_comma: bool, newlines: bool) -> Array {
    Array { values, decor: decor("", ""), trailing: String::new(), trailing_comma, newlines }
}

fn render_value(v: &Value) -> String {
    let mut s = String::new();
    v.fmt(&mut s);
    s
}

fn render_array(a: &Array) -> String {
    let mut s = String::new();
    a.fmt(&mut s);
    s
}

fn one_two_three(suffix: &str) -> Vec<Value> {
    vec![integer("", 1, suffix), integer("", 2, suffix), integer("", 3, suffix)]
}

#[test]
fn array_without_trailing_comma() {
    assert_eq!(render_array(&array(one_two_three(""), false, false)), "[1,2,3]");
}

#[test]
fn array_with_trailing_comma_on_one_line() {
    assert_eq!(render_array(&array(one_two_three(""), true, false)), "[1,2,3,]");
}

#[test]
fn array_with_trailing_comma_one_per_line() {
    let mut values = Vec::new();
    for n in 1..4 {
        values.push(integer("\n  ", n, "\n"));
    }
    let a = array(values, true, true);
    assert_eq!(render_array(&a), "[\n  1\n,\n  2\n,\n  3,\n]");
}

#[test]
fn array_newlines_without_trailing_comma() {
    let a = array(one_two_three("\n"), false, true);
    assert_eq!(render_array(&a), "[1\n,2\n,3\n]");
}

#[test]
fn empty_array_keeps_trailing_decor() {
    let a = Array {
        values: Vec::new(),
        decor: decor(" ", " # c"),
        trailing: "  ".to_string(),
        trailing_comma: true,
        newlines: false,
    };
    assert_eq!(render_array(&a), " [,  ] # c");
}

#[test]
fn nested_arrays_render_recursively() {
    let inner = Value::Array(array(vec![integer("", 1, ""), integer(" ", 2, "")], false, false));
    let outer = array(vec![inner, integer(" ", 3, "")], false, false);
    assert_eq!(render_array(&outer), "[[1, 2], 3]");
}

#[test]
fn scalar_renders_its_preserved_text() {
    let v = Value::Float(Formatted { value: 0x3ff8000000000000, repr: repr(" ", "1.5e0", " # half") });
    assert_eq!(render_value(&v), " 1.5e0 # half");
    let b = Value::Boolean(Formatted { value: true, repr: repr("", "true", "") });
    assert_eq!(render_value(&b), "true");
    let s = string(" ", "'lit'", "");
    assert_eq!(render_value(&s), " 'lit'");
}

#[test]
fn datetime_renders_its_text() {
    let d = DateTime::OffsetDateTime("1979-05-27T07:32:00Z".to_string());
    let mut s = String::new();
    d.fmt(&mut s);
    assert_eq!(s, "1979-05-27T07:32:00Z");
    let v = Value::DateTime(Formatted {
        value: DateTime::LocalDate("1979-05-27".to_string()),
        repr: repr(" ", "1979-05-27", "\n"),
    });
    assert_eq!(render_value(&v), " 1979-05-27\n");
}

#[test]
fn inline_table_skips_non_values() {
    let t = InlineTable {
        items: vec![entry("a", Item::Value(integer("", 1, ""))), entry("b", Item::Empty)],
        decor: decor(" ", ""),
        preamble: " ".to_string(),
    };
    let mut s = String::new();
    t.fmt(&mut s);
    assert_eq!(s, " { a=1}");
}

#[test]
fn inline_table_commas_ignore_skipped_entries() {
    let t = InlineTable {
        items: vec![
            entry("x", Item::Empty),
            entry("a", Item::Value(integer("", 1, ""))),
            entry("y", Item::Table(table(Vec::new(), false, None))),
            entry("b", Item::Value(integer("", 2, ""))),
        ],
        decor: decor("", ""),
        preamble: String::new(),
    };
    assert_eq!(render_value(&Value::InlineTable(t)), "{a=1,b=2}");
}

#[test]
fn implicit_empty_table_has_no_header() {
    let path = vec!["a".to_string(), "b".to_string()];
    let mut s = String::new();
    visit_table(&mut s, &table(Vec::new(), true, None), &path, false);
    assert_eq!(s, "");
    let mut s = String::new();
    visit_table(&mut s, &table(Vec::new(), false, None), &path, false);
    assert_eq!(s, "[a.b]\n");
}

#[test]
fn implicit_table_with_values_has_header() {
    let path = vec!["a".to_string()];
    let mut s = String::new();
    visit_table(&mut s, &table(vec![entry("k", Item::Value(integer("", 1, "")))], true, None), &path, false);
    assert_eq!(s, "[a]\nk=1\n");
}

#[test]
fn array_of_tables_header_uses_double_brackets() {
    let path = vec!["x".to_string()];
    let mut s = String::new();
    visit_table(&mut s, &table(Vec::new(), false, None), &path, true);
    assert_eq!(s, "[[x]]\n");
    let mut s = String::new();
    visit_table(&mut s, &table(Vec::new(), true, None), &path, true);
    assert_eq!(s, "[[x]]\n");
}

#[test]
fn root_table_has_no_header() {
    let mut s = String::new();
    visit_table(&mut s, &table(vec![entry("k", Item::Value(integer("", 1, "")))], false, None), &[], false);
    assert_eq!(s, "k=1\n");
}

fn parsed_document() -> Document {
    let mut server = table(vec![spaced("port", integer(" ", 8080, " # default"))], false, Some(2));
    server.decor = decor("\n", "");
    let mut first = table(vec![spaced("name", string(" ", "\"a\"", ""))], false, Some(3));
    first.decor = decor("\n", "");
    let second = table(vec![spaced("name", string(" ", "\"b\"", ""))], false, Some(4));
    let root = table(
        vec![
            TableKeyValue { key: repr("# config\n", "title", " "), value: Item::Value(string(" ", "\"demo\"", "")) },
            entry("server", Item::Table(server)),
            entry("items", Item::ArrayOfTables(ArrayOfTables { values: vec![first, second] })),
        ],
        false,
        Some(0),
    );
    Document { root, trailing: "\n# end\n".to_string() }
}

const PARSED_TEXT: &str =
    "# config\ntitle = \"demo\"\n\n[server]\nport = 8080 # default\n\n[[items]]\nname = \"a\"\n[[items]]\nname = \"b\"\n\n# end\n";

#[test]
fn unmodified_document_round_trips() {
    let doc = parsed_document();
    assert_eq!(doc.to_string(), PARSED_TEXT);
    assert_eq!(doc.to_string_in_original_order(), PARSED_TEXT);
}

#[test]
fn rendering_twice_gives_the_same_text() {
    let doc = parsed_document();
    let first = doc.to_string();
    let second = doc.to_string();
    assert_eq!(first, second);
    assert_eq!(doc.to_string_in_original_order(), doc.to_string_in_original_order());
}

#[test]
fn document_fmt_appends() {
    let doc = parsed_document();
    let mut s = "> ".to_string();
    doc.fmt(&mut s);
    assert_eq!(s, format!("> {}", PARSED_TEXT));
}

fn named(name: &str, position: usize) -> TableKeyValue {
    entry(name, Item::Table(table(vec![entry("v", Item::Value(integer("", position as i64, "")))], false, Some(position))))
}

#[test]
fn original_order_follows_positions() {
    let root = table(vec![named("b", 5), named("a", 2), named("c", 8)], false, None);
    let doc = Document { root, trailing: String::new() };
    assert_eq!(doc.to_string(), "[b]\nv=5\n[a]\nv=2\n[c]\nv=8\n");
    assert_eq!(doc.to_string_in_original_order(), "[a]\nv=2\n[b]\nv=5\n[c]\nv=8\n");
}

#[test]
fn tables_without_position_inherit_the_last_seen() {
    // b (5) has a child d without a position, which stays right after b.
    let d = table(vec![entry("w", Item::Value(integer("", 1, "")))], false, None);
    let b = table(vec![entry("d", Item::Table(d))], true, Some(5));
    let a = table(vec![entry("v", Item::Value(integer("", 2, "")))], false, Some(2));
    let root = table(vec![entry("b", Item::Table(b)), entry("a", Item::Table(a))], false, None);
    let doc = Document { root, trailing: String::new() };
    assert_eq!(doc.to_string(), "[b.d]\nw=1\n[a]\nv=2\n");
    assert_eq!(doc.to_string_in_original_order(), "[a]\nv=2\n[b.d]\nw=1\n");
}

#[test]
fn equal_positions_keep_traversal_order() {
    let root = table(vec![named("z", 1), named("y", 1), named("x", 0)], false, None);
    let doc = Document { root, trailing: "#".to_string() };
    assert_eq!(doc.to_string_in_original_order(), "[x]\nv=0\n[z]\nv=1\n[y]\nv=1\n#");
}

#[test]
fn table_fmt_renders_nested_tables() {
    let inner = table(vec![entry("k", Item::Value(integer("", 1, "")))], false, None);
    let root = table(vec![entry("v", Item::Value(integer("", 0, ""))), entry("t", Item::Table(inner)), entry("e", Item::Empty)], false, None);
    let mut s = String::new();
    root.fmt(&mut s);
    assert_eq!(s, "v=0\n[t]\nk=1\n");
    assert_eq!(root.values_len(), 1);
}
