//! The Luau fragments of each enumeration and the assembly of the whole module.
use vstd::prelude::*;
use crate::model::{
    Enum, EnumItem, EnumModel, EnumSetConfig, ConfigModel, is_identifier, is_name_char, valid_enum,
};
use crate::text::{
    join, views, join_texts, decimal, decimal_text, parse_decimal, is_digit, split, occurs_at,
    lemma_decimal_round_trip, lemma_split_join, lemma_occurs_in_middle, lemma_join_empty_at,
    prefixed_after_first, lemma_join_shift,
};

verus! {

/// A name between double quotes: a Luau string literal.
pub open spec fn quoted(s: Seq<char>) -> Seq<char> {
    "\""@ + s + "\""@
}

/// The member names as string literals, in order.
pub open spec fn quoted_names(e: EnumModel) -> Seq<Seq<char>> {
    e.items.map_values(|i: (Seq<char>, u16)| quoted(i.0))
}

/// `local <var> = <table>`, the table sealed with `table.freeze` when `frozen`.
pub open spec fn table_decl(var: Seq<char>, body: Seq<char>, frozen: bool) -> Seq<char> {
    if frozen {
        "local "@ + var + " = table.freeze({"@ + body + "})"@
    } else {
        "local "@ + var + " = {"@ + body + "}"@
    }
}

/// The inside of a table written one entry per line.
pub open spec fn entry_lines(entries: Seq<Seq<char>>) -> Seq<char> {
    if entries.len() == 0 {
        "\n"@
    } else {
        "\n"@ + join(entries, ",\n"@) + "\n"@
    }
}

pub open spec fn list_var(name: Seq<char>) -> Seq<char> {
    name + "List"@
}

pub open spec fn dict_var(name: Seq<char>) -> Seq<char> {
    name + "Dict"@
}

pub open spec fn value_dict_var(name: Seq<char>) -> Seq<char> {
    name + "ValueDict"@
}

pub open spec fn inverse_value_dict_var(name: Seq<char>) -> Seq<char> {
    name + "InverseValueDict"@
}

/// The union type of the member names.
pub open spec fn type_alias_text(e: EnumModel, exported: bool) -> Seq<char> {
    (if exported { "export type "@ } else { "type "@ }) + e.name + " = "@ + join(
        quoted_names(e),
        " | "@,
    )
}

/// The ordered list of the member names.
pub open spec fn list_text(e: EnumModel, frozen: bool) -> Seq<char> {
    table_decl(list_var(e.name), join(quoted_names(e), ","@), frozen)
}

/// The entry of a member in the name dictionary.
pub open spec fn dict_entry(enum_name: Seq<char>, name: Seq<char>, static_strings: bool) -> Seq<
    char,
> {
    "\t"@ + name + "=\""@ + name + "\" :: "@ + (if static_strings {
        quoted(name)
    } else {
        enum_name
    })
}

pub open spec fn dict_entries(e: EnumModel, static_strings: bool) -> Seq<Seq<char>> {
    e.items.map_values(|i: (Seq<char>, u16)| dict_entry(e.name, i.0, static_strings))
}

/// The dictionary from each member name to itself.
pub open spec fn dict_text(e: EnumModel, frozen: bool, static_strings: bool) -> Seq<char> {
    table_decl(dict_var(e.name), entry_lines(dict_entries(e, static_strings)), frozen)
}

/// The entry of a member in the value dictionary.
pub open spec fn value_entry(name: Seq<char>, value: u16) -> Seq<char> {
    "\t"@ + name + "="@ + decimal(value as nat)
}

pub open spec fn value_entries(e: EnumModel) -> Seq<Seq<char>> {
    e.items.map_values(|i: (Seq<char>, u16)| value_entry(i.0, i.1))
}

/// The dictionary from each member name to its value.
pub open spec fn value_dict_text(e: EnumModel, frozen: bool) -> Seq<char> {
    table_decl(value_dict_var(e.name), entry_lines(value_entries(e)), frozen)
}

/// The entry of a member in the inverse value dictionary.
pub open spec fn inverse_entry(
    enum_name: Seq<char>,
    name: Seq<char>,
    value: u16,
    static_strings: bool,
) -> Seq<char> {
    "\t["@ + decimal(value as nat) + "]=\""@ + name + "\""@ + (if static_strings {
        Seq::empty()
    } else {
        " :: "@ + enum_name
    })
}

pub open spec fn inverse_entries(e: EnumModel, static_strings: bool) -> Seq<Seq<char>> {
    e.items.map_values(|i: (Seq<char>, u16)| inverse_entry(e.name, i.0, i.1, static_strings))
}

/// The dictionary from each member value to its name.
pub open spec fn inverse_value_dict_text(e: EnumModel, frozen: bool, static_strings: bool) -> Seq<
    char,
> {
    table_decl(
        inverse_value_dict_var(e.name),
        entry_lines(inverse_entries(e, static_strings)),
        frozen,
    )
}

fn quote(s: &str) -> (r: String)
    ensures
        r@ == quoted(s@),
{
    let mut r = String::from_str("\"");
    r.append(s);
    r.append("\"");
    r
}

fn quoted_item_names(e: &Enum) -> (r: Vec<String>)
    ensures
        views(r@) == quoted_names(e@),
{
    let mut r: Vec<String> = Vec::new();
    let n = e.items.len();
    let mut k: usize = 0;
    while k < n
        invariant
            n == e.items@.len(),
            0 <= k <= n,
            r@.len() == k,
            forall|j: int| 0 <= j < k ==> (#[trigger] r@[j])@ == quoted(e.items@[j].name@),
        decreases n - k,
    {
        r.push(quote(e.items[k].name.as_str()));
        k = k + 1;
    }
    proof {
        assert(views(r@) =~= quoted_names(e@));
    }
    r
}

fn table_declaration(var: &str, body: &str, frozen: bool) -> (r: String)
    ensures
        r@ == table_decl(var@, body@, frozen),
{
    let mut r = String::from_str("local ");
    r.append(var);
    if frozen {
        r.append(" = table.freeze({");
        r.append(body);
        r.append("})");
    } else {
        r.append(" = {");
        r.append(body);
        r.append("}");
    }
    r
}

fn lines_of_entries(entries: &Vec<String>) -> (r: String)
    ensures
        r@ == entry_lines(views(entries@)),
{
    let mut r = String::from_str("\n");
    if entries.len() > 0 {
        let body = join_texts(entries, ",\n");
        r.append(body.as_str());
        r.append("\n");
    }
    r
}

fn variable_name(name: &str, suffix: &str) -> (r: String)
    ensures
        r@ == name@ + suffix@,
{
    let mut r = String::from_str(name);
    r.append(suffix);
    r
}

pub fn render_type_alias(e: &Enum, exported: bool) -> (r: String)
    ensures
        r@ == type_alias_text(e@, exported),
{
    let mut r = if exported {
        String::from_str("export type ")
    } else {
        String::from_str("type ")
    };
    r.append(e.name.as_str());
    r.append(" = ");
    let names = quoted_item_names(e);
    let union = join_texts(&names, " | ");
    r.append(union.as_str());
    r
}

pub fn render_list(e: &Enum, frozen: bool) -> (r: String)
    ensures
        r@ == list_text(e@, frozen),
{
    let var = variable_name(e.name.as_str(), "List");
    let names = quoted_item_names(e);
    let body = join_texts(&names, ",");
    table_declaration(var.as_str(), body.as_str(), frozen)
}

pub fn render_dict(e: &Enum, frozen: bool, static_strings: bool) -> (r: String)
    ensures
        r@ == dict_text(e@, frozen, static_strings),
{
    let mut entries: Vec<String> = Vec::new();
    let n = e.items.len();
    let mut k: usize = 0;
    while k < n
        invariant
            n == e.items@.len(),
            0 <= k <= n,
            entries@.len() == k,
            forall|j: int|
                0 <= j < k ==> (#[trigger] entries@[j])@ == dict_entry(
                    e.name@,
                    e.items@[j].name@,
                    static_strings,
                ),
        decreases n - k,
    {
        let item_name = e.items[k].name.as_str();
        let mut entry = String::from_str("\t");
        entry.append(item_name);
        entry.append("=\"");
        entry.append(item_name);
        entry.append("\" :: ");
        if static_strings {
            entry.append(quote(item_name).as_str());
        } else {
            entry.append(e.name.as_str());
        }
        entries.push(entry);
        k = k + 1;
    }
    proof {
        assert(views(entries@) =~= dict_entries(e@, static_strings));
    }
    let var = variable_name(e.name.as_str(), "Dict");
    let body = lines_of_entries(&entries);
    table_declaration(var.as_str(), body.as_str(), frozen)
}

pub fn render_value_dict(e: &Enum, frozen: bool) -> (r: String)
    ensures
        r@ == value_dict_text(e@, frozen),
{
    let mut entries: Vec<String> = Vec::new();
    let n = e.items.len();
    let mut k: usize = 0;
    while k < n
        invariant
            n == e.items@.len(),
            0 <= k <= n,
            entries@.len() == k,
            forall|j: int|
                0 <= j < k ==> (#[trigger] entries@[j])@ == value_entry(
                    e.items@[j].name@,
                    e.items@[j].value,
                ),
        decreases n - k,
    {
        let item: &EnumItem = &e.items[k];
        let mut entry = String::from_str("\t");
        entry.append(item.name.as_str());
        entry.append("=");
        entry.append(decimal_text(item.value).as_str());
        entries.push(entry);
        k = k + 1;
    }
    proof {
        assert(views(entries@) =~= value_entries(e@));
    }
    let var = variable_name(e.name.as_str(), "ValueDict");
    let body = lines_of_entries(&entries);
    table_declaration(var.as_str(), body.as_str(), frozen)
}

pub fn render_inverse_value_dict(e: &Enum, frozen: bool, static_strings: bool) -> (r: String)
    ensures
        r@ == inverse_value_dict_text(e@, frozen, static_strings),
{
    let mut entries: Vec<String> = Vec::new();
    let n = e.items.len();
    let mut k: usize = 0;
    while k < n
        invariant
            n == e.items@.len(),
            0 <= k <= n,
            entries@.len() == k,
            forall|j: int|
                0 <= j < k ==> (#[trigger] entries@[j])@ == inverse_entry(
                    e.name@,
                    e.items@[j].name@,
                    e.items@[j].value,
                    static_strings,
                ),
        decreases n - k,
    {
        let item: &EnumItem = &e.items[k];
        let mut entry = String::from_str("\t[");
        entry.append(decimal_text(item.value).as_str());
        entry.append("]=\"");
        entry.append(item.name.as_str());
        entry.append("\"");
        if !static_strings {
            entry.append(" :: ");
            entry.append(e.name.as_str());
        }
        entries.push(entry);
        k = k + 1;
    }
    proof {
        assert(views(entries@) =~= inverse_entries(e@, static_strings));
    }
    let var = variable_name(e.name.as_str(), "InverseValueDict");
    let body = lines_of_entries(&entries);
    table_declaration(var.as_str(), body.as_str(), frozen)
}

/// The exported union type of an enumeration's member names.
#[derive(Debug, Clone, PartialEq, Eq, Hash)]
pub struct EnumTypeDefinition {
    pub value: Enum,
    pub is_exported: bool,
}

impl EnumTypeDefinition {
    pub fn render(&self) -> (r: String)
        ensures
            r@ == type_alias_text(self.value@, self.is_exported),
    {
        render_type_alias(&self.value, self.is_exported)
    }
}

/// The ordered list of an enumeration's member names.
#[derive(Debug, Clone, PartialEq, Eq, Hash)]
pub struct EnumListDefinition {
    pub value: Enum,
    pub is_frozen: bool,
}

impl EnumListDefinition {
    pub fn get_variable_name(&self) -> (r: String)
        ensures
            r@ == list_var(self.value.name@),
    {
        variable_name(self.value.name.as_str(), "List")
    }

    pub fn render(&self) -> (r: String)
        ensures
            r@ == list_text(self.value@, self.is_frozen),
    {
        render_list(&self.value, self.is_frozen)
    }
}

/// The dictionary from each member name of an enumeration to itself.
#[derive(Debug, Clone, PartialEq, Eq, Hash)]
pub struct EnumDictDefinition {
    pub value: Enum,
    pub is_frozen: bool,
    pub assign_as_static_string: bool,
}

impl EnumDictDefinition {
    pub fn get_variable_name(&self) -> (r: String)
        ensures
            r@ == dict_var(self.value.name@),
    {
        variable_name(self.value.name.as_str(), "Dict")
    }

    pub fn render(&self) -> (r: String)
        ensures
            r@ == dict_text(self.value@, self.is_frozen, self.assign_as_static_string),
    {
        render_dict(&self.value, self.is_frozen, self.assign_as_static_string)
    }
}

/// The dictionary from each member name of an enumeration to its value.
#[derive(Debug, Clone, PartialEq, Eq, Hash)]
pub struct EnumValueDictDefinition {
    pub value: Enum,
    pub is_frozen: bool,
}

impl EnumValueDictDefinition {
    pub fn get_variable_name(&self) -> (r: String)
        ensures
            r@ == value_dict_var(self.value.name@),
    {
        variable_name(self.value.name.as_str(), "ValueDict")
    }

    pub fn render(&self) -> (r: String)
        ensures
            r@ == value_dict_text(self.value@, self.is_frozen),
    {
        render_value_dict(&self.value, self.is_frozen)
    }
}

/// The dictionary from each member value of an enumeration to its name.
#[derive(Debug, Clone, PartialEq, Eq, Hash)]
pub struct EnumInverseValueDictDefinition {
    pub value: Enum,
    pub is_frozen: bool,
    pub assign_as_static_string: bool,
}

impl EnumInverseValueDictDefinition {
    pub fn get_variable_name(&self) -> (r: String)
        ensures
            r@ == inverse_value_dict_var(self.value.name@),
    {
        variable_name(self.value.name.as_str(), "InverseValueDict")
    }

    pub fn render(&self) -> (r: String)
        ensures
            r@ == inverse_value_dict_text(self.value@, self.is_frozen, self.assign_as_static_string),
    {
        render_inverse_value_dict(&self.value, self.is_frozen, self.assign_as_static_string)
    }
}

/// The parts one after the other.
pub open spec fn concat(parts: Seq<Seq<char>>) -> Seq<char> {
    join(parts, Seq::empty())
}

/// The two fixed lines that open the module.
pub open spec fn prelude_text() -> Seq<char> {
    "--!strict"@ + "\n-- DO NOT EDIT MANUALLY!! This file was generated by nightcycle/pseudo-enum, edits will likely be overwritten!"@
}

/// The five declarations of one enumeration, each on a line of its own.
pub open spec fn enum_block(e: EnumModel, static_strings: bool) -> Seq<char> {
    "\n"@ + type_alias_text(e, true) + "\n"@ + list_text(e, true) + "\n"@ + dict_text(
        e,
        true,
        static_strings,
    ) + "\n"@ + value_dict_text(e, true) + "\n"@ + inverse_value_dict_text(e, true, static_strings)
}

pub open spec fn enum_blocks(c: ConfigModel) -> Seq<Seq<char>> {
    c.enums.map_values(|e: EnumModel| enum_block(e, c.assign_static_strings))
}

/// The prelude followed by the declarations of every enumeration.
pub open spec fn header_text(c: ConfigModel) -> Seq<char> {
    prelude_text() + concat(enum_blocks(c))
}

/// A field `<key> = <var>,` on a line of its own.
pub open spec fn tree_entry(key: Seq<char>, var: Seq<char>) -> Seq<char> {
    "\n\t"@ + key + " = "@ + var + ","@
}

pub open spec fn list_tree_entries(c: ConfigModel) -> Seq<Seq<char>> {
    c.enums.map_values(|e: EnumModel| tree_entry(e.name, list_var(e.name)))
}

pub open spec fn value_tree_entries(c: ConfigModel) -> Seq<Seq<char>> {
    c.enums.map_values(|e: EnumModel| tree_entry(e.name, value_dict_var(e.name)))
}

pub open spec fn inverse_tree_entries(c: ConfigModel) -> Seq<Seq<char>> {
    c.enums.map_values(|e: EnumModel| tree_entry(e.name, inverse_value_dict_var(e.name)))
}

pub open spec fn export_entries(c: ConfigModel) -> Seq<Seq<char>> {
    c.enums.map_values(|e: EnumModel| tree_entry(e.name, dict_var(e.name)))
}

/// A sealed table named `tree` with the given fields.
pub open spec fn tree_text(tree: Seq<char>, entries: Seq<Seq<char>>) -> Seq<char> {
    "\nlocal "@ + tree + " = {"@ + concat(entries) + "\n}"@ + "\ntable.freeze("@ + tree + ")"@
}

pub open spec fn enum_names(c: ConfigModel) -> Seq<Seq<char>> {
    c.enums.map_values(|e: EnumModel| e.name)
}

/// The union type of every enumeration's name.
pub open spec fn enum_name_type_text(c: ConfigModel) -> Seq<char> {
    "\nexport type EnumName = "@ + join(c.enums.map_values(|e: EnumModel| quoted(e.name)), " | "@)
}

/// An intersection of function types, one per enumeration.
pub open spec fn intersection(conjuncts: Seq<Seq<char>>) -> Seq<char> {
    "("@ + join(conjuncts, " & "@) + ")"@
}

pub open spec fn items_conjunct(n: Seq<char>) -> Seq<char> {
    "((\""@ + n + "\") -> {"@ + n + "})"@
}

pub open spec fn from_value_conjunct(n: Seq<char>) -> Seq<char> {
    "((\""@ + n + "\", number) -> "@ + n + ")"@
}

pub open spec fn to_value_conjunct(n: Seq<char>) -> Seq<char> {
    "((\""@ + n + "\", "@ + n + ") -> number)"@
}

pub open spec fn items_signature(c: ConfigModel) -> Seq<char> {
    intersection(c.enums.map_values(|e: EnumModel| items_conjunct(e.name)))
}

pub open spec fn from_value_signature(c: ConfigModel) -> Seq<char> {
    intersection(c.enums.map_values(|e: EnumModel| from_value_conjunct(e.name)))
}

pub open spec fn to_value_signature(c: ConfigModel) -> Seq<char> {
    intersection(c.enums.map_values(|e: EnumModel| to_value_conjunct(e.name)))
}

/// The accessor for the list of an enumeration's items.
pub open spec fn items_accessor(signature: Seq<char>) -> Seq<char> {
    "\n\tgetEnumItems = function(enumName: EnumName)"@ + "\n\t\tlocal list = listTree[enumName]"@
        + "\n\t\tassert(list, `invalid enumName: \"{enumName}\"`)"@ + "\n\t\treturn list"@
        + "\n\tend :: "@ + signature + ","@
}

/// The accessor for the item that has a value.
pub open spec fn from_value_accessor(signature: Seq<char>) -> Seq<char> {
    "\n\tgetEnumItemFromValue = function(enumName: EnumName, value: number)"@
        + "\n\t\tlocal dict = invValueTree[enumName]"@
        + "\n\t\tassert(dict, `invalid enumName: \"{enumName}\"`)"@ + "\n\t\tlocal name = dict[value]"@
        + "\n\t\tassert(name, `invalid value: \"{enumName}\" -> {value}`)"@ + "\n\t\treturn name"@
        + "\n\tend :: "@ + signature + ","@
}

/// The accessor for the value of an item.
pub open spec fn to_value_accessor(signature: Seq<char>) -> Seq<char> {
    "\n\tgetValueFromEnumItem = function(enumName: EnumName, name: string): number"@
        + "\n\t\tlocal dict = valueTree[enumName]"@
        + "\n\t\tassert(dict, `invalid enumName: \"{enumName}\"`)"@ + "\n\t\tlocal value = dict[name]"@
        + "\n\t\tassert(value, `invalid value: \"{enumName}\" -> \"{name}\"`)"@
        + "\n\t\treturn value"@ + "\n\tend :: "@ + signature + ","@
}

/// The table that the module returns.
pub open spec fn interface_text(c: ConfigModel) -> Seq<char> {
    "\nreturn {"@ + items_accessor(items_signature(c)) + from_value_accessor(
        from_value_signature(c),
    ) + to_value_accessor(to_value_signature(c)) + concat(export_entries(c)) + "\n}"@
}

/// The whole module, before it is formatted.
pub open spec fn document_text(c: ConfigModel) -> Seq<char> {
    header_text(c) + tree_text("listTree"@, list_tree_entries(c)) + tree_text(
        "valueTree"@,
        value_tree_entries(c),
    ) + tree_text("invValueTree"@, inverse_tree_entries(c)) + enum_name_type_text(c)
        + interface_text(c)
}

fn concat_texts(parts: &Vec<String>) -> (r: String)
    ensures
        r@ == concat(views(parts@)),
{
    proof {
        reveal_strlit("");
        assert(""@ =~= Seq::<char>::empty());
    }
    join_texts(parts, "")
}

fn tree_entry_line(key: &str, var: &str) -> (r: String)
    ensures
        r@ == tree_entry(key@, var@),
{
    let mut r = String::from_str("\n\t");
    r.append(key);
    r.append(" = ");
    r.append(var);
    r.append(",");
    r
}

fn tree_section(tree: &str, entries: &Vec<String>) -> (r: String)
    ensures
        r@ == tree_text(tree@, views(entries@)),
{
    let mut r = String::from_str("\nlocal ");
    r.append(tree);
    r.append(" = {");
    r.append(concat_texts(entries).as_str());
    r.append("\n}");
    r.append("\ntable.freeze(");
    r.append(tree);
    r.append(")");
    r
}

fn intersection_text(conjuncts: &Vec<String>) -> (r: String)
    ensures
        r@ == intersection(views(conjuncts@)),
{
    let mut r = String::from_str("(");
    r.append(join_texts(conjuncts, " & ").as_str());
    r.append(")");
    r
}

fn conjunct(n: &str, kind: u8) -> (r: String)
    requires
        kind < 3,
    ensures
        kind == 0 ==> r@ == items_conjunct(n@),
        kind == 1 ==> r@ == from_value_conjunct(n@),
        kind == 2 ==> r@ == to_value_conjunct(n@),
{
    let mut r = String::from_str("((\"");
    r.append(n);
    if kind == 0 {
        r.append("\") -> {");
        r.append(n);
        r.append("})");
    } else if kind == 1 {
        r.append("\", number) -> ");
        r.append(n);
        r.append(")");
    } else {
        r.append("\", ");
        r.append(n);
        r.append(") -> number)");
    }
    r
}

fn enum_block_text(e: &Enum, static_strings: bool) -> (r: String)
    ensures
        r@ == enum_block(e@, static_strings),
{
    let mut r = String::from_str("\n");
    r.append(render_type_alias(e, true).as_str());
    r.append("\n");
    r.append(render_list(e, true).as_str());
    r.append("\n");
    r.append(render_dict(e, true, static_strings).as_str());
    r.append("\n");
    r.append(render_value_dict(e, true).as_str());
    r.append("\n");
    r.append(render_inverse_value_dict(e, true, static_strings).as_str());
    r
}

fn interface_section(
    items_sig: &str,
    from_value_sig: &str,
    to_value_sig: &str,
    exports: &Vec<String>,
) -> (r: String)
    ensures
        r@ == "\nreturn {"@ + items_accessor(items_sig@) + from_value_accessor(from_value_sig@)
            + to_value_accessor(to_value_sig@) + concat(views(exports@)) + "\n}"@,
{
    let mut r = String::from_str("\nreturn {");
    r.append("\n\tgetEnumItems = function(enumName: EnumName)");
    r.append("\n\t\tlocal list = listTree[enumName]");
    r.append("\n\t\tassert(list, `invalid enumName: \"{enumName}\"`)");
    r.append("\n\t\treturn list");
    r.append("\n\tend :: ");
    r.append(items_sig);
    r.append(",");
    r.append("\n\tgetEnumItemFromValue = function(enumName: EnumName, value: number)");
    r.append("\n\t\tlocal dict = invValueTree[enumName]");
    r.append("\n\t\tassert(dict, `invalid enumName: \"{enumName}\"`)");
    r.append("\n\t\tlocal name = dict[value]");
    r.append("\n\t\tassert(name, `invalid value: \"{enumName}\" -> {value}`)");
    r.append("\n\t\treturn name");
    r.append("\n\tend :: ");
    r.append(from_value_sig);
    r.append(",");
    r.append("\n\tgetValueFromEnumItem = function(enumName: EnumName, name: string): number");
    r.append("\n\t\tlocal dict = valueTree[enumName]");
    r.append("\n\t\tassert(dict, `invalid enumName: \"{enumName}\"`)");
    r.append("\n\t\tlocal value = dict[name]");
    r.append("\n\t\tassert(value, `invalid value: \"{enumName}\" -> \"{name}\"`)");
    r.append("\n\t\treturn value");
    r.append("\n\tend :: ");
    r.append(to_value_sig);
    r.append(",");
    r.append(concat_texts(exports).as_str());
    r.append("\n}");
    proof {
        assert(r@ =~= "\nreturn {"@ + items_accessor(items_sig@) + from_value_accessor(
            from_value_sig@,
        ) + to_value_accessor(to_value_sig@) + concat(views(exports@)) + "\n}"@);
    }
    r
}

/// Assembles the whole module, before formatting, with the enumerations in the order given.
pub fn assemble(config: &EnumSetConfig) -> (r: String)
    ensures
        r@ == document_text(config@),
{
    let static_strings = config.assign_static_strings;
    let mut blocks: Vec<String> = Vec::new();
    let mut lists: Vec<String> = Vec::new();
    let mut values: Vec<String> = Vec::new();
    let mut inverses: Vec<String> = Vec::new();
    let mut exports: Vec<String> = Vec::new();
    let mut names: Vec<String> = Vec::new();
    let mut items_sigs: Vec<String> = Vec::new();
    let mut from_sigs: Vec<String> = Vec::new();
    let mut to_sigs: Vec<String> = Vec::new();
    let n = config.enums.len();
    let mut k: usize = 0;
    while k < n
        invariant
            n == config.enums@.len(),
            static_strings == config.assign_static_strings,
            0 <= k <= n,
            blocks@.len() == k,
            lists@.len() == k,
            values@.len() == k,
            inverses@.len() == k,
            exports@.len() == k,
            names@.len() == k,
            items_sigs@.len() == k,
            from_sigs@.len() == k,
            to_sigs@.len() == k,
            forall|j: int|
                0 <= j < k ==> (#[trigger] blocks@[j])@ == enum_block(
                    config.enums@[j]@,
                    static_strings,
                ),
            forall|j: int|
                0 <= j < k ==> (#[trigger] lists@[j])@ == tree_entry(
                    config.enums@[j]@.name,
                    list_var(config.enums@[j]@.name),
                ),
            forall|j: int|
                0 <= j < k ==> (#[trigger] values@[j])@ == tree_entry(
                    config.enums@[j]@.name,
                    value_dict_var(config.enums@[j]@.name),
                ),
            forall|j: int|
                0 <= j < k ==> (#[trigger] inverses@[j])@ == tree_entry(
                    config.enums@[j]@.name,
                    inverse_value_dict_var(config.enums@[j]@.name),
                ),
            forall|j: int|
                0 <= j < k ==> (#[trigger] exports@[j])@ == tree_entry(
                    config.enums@[j]@.name,
                    dict_var(config.enums@[j]@.name),
                ),
            forall|j: int| 0 <= j < k ==> (#[trigger] names@[j])@ == quoted(config.enums@[j]@.name),
            forall|j: int|
                0 <= j < k ==> (#[trigger] items_sigs@[j])@ == items_conjunct(
                    config.enums@[j]@.name,
                ),
            forall|j: int|
                0 <= j < k ==> (#[trigger] from_sigs@[j])@ == from_value_conjunct(
                    config.enums@[j]@.name,
                ),
            forall|j: int|
                0 <= j < k ==> (#[trigger] to_sigs@[j])@ == to_value_conjunct(
                    config.enums@[j]@.name,
                ),
        decreases n - k,
    {
        let e: &Enum = &config.enums[k];
        let name = e.name.as_str();
        blocks.push(enum_block_text(e, static_strings));
        lists.push(tree_entry_line(name, variable_name(name, "List").as_str()));
        values.push(tree_entry_line(name, variable_name(name, "ValueDict").as_str()));
        inverses.push(tree_entry_line(name, variable_name(name, "InverseValueDict").as_str()));
        exports.push(tree_entry_line(name, variable_name(name, "Dict").as_str()));
        names.push(quote(name));
        items_sigs.push(conjunct(name, 0));
        from_sigs.push(conjunct(name, 1));
        to_sigs.push(conjunct(name, 2));
        k = k + 1;
    }
    let ghost c = config@;
    proof {
        assert(views(blocks@) =~= enum_blocks(c));
        assert(views(lists@) =~= list_tree_entries(c));
        assert(views(values@) =~= value_tree_entries(c));
        assert(views(inverses@) =~= inverse_tree_entries(c));
        assert(views(exports@) =~= export_entries(c));
        assert(views(names@) =~= c.enums.map_values(|e: EnumModel| quoted(e.name)));
        assert(views(items_sigs@) =~= c.enums.map_values(|e: EnumModel| items_conjunct(e.name)));
        assert(views(from_sigs@) =~= c.enums.map_values(
            |e: EnumModel| from_value_conjunct(e.name),
        ));
        assert(views(to_sigs@) =~= c.enums.map_values(|e: EnumModel| to_value_conjunct(e.name)));
    }
    let mut doc = String::from_str("--!strict");
    doc.append(
        "\n-- DO NOT EDIT MANUALLY!! This file was generated by nightcycle/pseudo-enum, edits will likely be overwritten!",
    );
    doc.append(concat_texts(&blocks).as_str());
    doc.append(tree_section("listTree", &lists).as_str());
    doc.append(tree_section("valueTree", &values).as_str());
    doc.append(tree_section("invValueTree", &inverses).as_str());
    doc.append("\nexport type EnumName = ");
    doc.append(join_texts(&names, " | ").as_str());
    let items_sig = intersection_text(&items_sigs);
    let from_sig = intersection_text(&from_sigs);
    let to_sig = intersection_text(&to_sigs);
    doc.append(
        interface_section(items_sig.as_str(), from_sig.as_str(), to_sig.as_str(), &exports).as_str(),
    );
    proof {
        assert(doc@ =~= document_text(c));
    }
    doc
}

proof fn lemma_quoted_free_of(n: Seq<char>, c: char)
    requires
        is_identifier(n),
        !is_name_char(c),
        c != '"',
    ensures
        !quoted(n).contains(c),
{
    reveal_strlit("\"");
    let q = quoted(n);
    assert forall|i: int| 0 <= i < q.len() implies q[i] != c by {
        if 1 <= i < q.len() - 1 {
            assert(q[i] == n[i - 1]);
        }
    }
}

/// The ordered list keeps the member order: its entries, split at the commas, are the member
/// names as string literals, in member order.
pub proof fn lemma_list_keeps_order(e: EnumModel, frozen: bool)
    requires
        valid_enum(e),
    ensures
        list_text(e, frozen) == table_decl(list_var(e.name), join(quoted_names(e), seq![',']), frozen),
        quoted_names(e).len() == e.items.len(),
        forall|k: int| 0 <= k < e.items.len() ==> #[trigger] quoted_names(e)[k] == quoted(e.items[k].0),
        e.items.len() > 0 ==> split(join(quoted_names(e), seq![',']), ',') == quoted_names(e),
{
    reveal_strlit(",");
    assert(","@ =~= seq![',']);
    let qs = quoted_names(e);
    assert forall|k: int| 0 <= k < qs.len() implies !(#[trigger] qs[k]).contains(',') by {
        assert(is_identifier(e.items[k].0));
        lemma_quoted_free_of(e.items[k].0, ',');
    }
    if e.items.len() > 0 {
        lemma_split_join(qs, ',');
    }
}

/// The value dictionary and its inverse agree with the members: the entry of each member in the
/// first reads back as its name, `=`, and its value; in the second as `[`, its value, `]=`, and
/// its name between quotes.
pub proof fn lemma_value_tables_agree(e: EnumModel, static_strings: bool, k: int)
    requires
        valid_enum(e),
        0 <= k < e.items.len(),
    ensures
        ({
            let n = e.items[k].0;
            let v = e.items[k].1;
            let s = value_entries(e)[k];
            let t = inverse_entries(e, static_strings)[k];
            let d = decimal(v as nat);
            let ln = n.len() as int;
            let ld = d.len() as int;
            &&& s.subrange(1, ln + 1) == n
            &&& s[ln + 1] == '='
            &&& !n.contains('=')
            &&& parse_decimal(s.subrange(ln + 2, s.len() as int)) == v
            &&& ld + 5 + ln < t.len()
            &&& t.subrange(2, ld + 2) == d
            &&& parse_decimal(t.subrange(2, ld + 2)) == v
            &&& forall|i: int| 0 <= i < ld ==> is_digit(#[trigger] d[i])
            &&& t[ld + 2] == ']'
            &&& t.subrange(ld + 5, ld + 5 + ln) == n
            &&& t[ld + 5 + ln] == '"'
            &&& !n.contains('"')
        }),
{
    reveal_strlit("\t");
    reveal_strlit("=");
    reveal_strlit("\t[");
    reveal_strlit("]=\"");
    reveal_strlit("\"");
    let n = e.items[k].0;
    let v = e.items[k].1;
    let d = decimal(v as nat);
    let ln = n.len() as int;
    let ld = d.len() as int;
    assert(is_identifier(n));
    lemma_decimal_round_trip(v as nat);
    let s = value_entries(e)[k];
    assert(s == "\t"@ + n + "="@ + d);
    assert(s.subrange(1, ln + 1) =~= n);
    assert(s.subrange(ln + 2, s.len() as int) =~= d);
    let t = inverse_entries(e, static_strings)[k];
    let tail: Seq<char> = if static_strings {
        Seq::empty()
    } else {
        " :: "@ + e.name
    };
    assert(t == "\t["@ + d + "]=\""@ + n + "\""@ + tail);
    assert(t.subrange(2, ld + 2) =~= d);
    assert(t.subrange(ld + 5, ld + 5 + ln) =~= n);
    assert(!n.contains('=')) by {
        if n.contains('=') {
            let i = choose|i: int| 0 <= i < ln && n[i] == '=';
            assert(is_name_char(n[i]));
        }
    }
    assert(!n.contains('"')) by {
        if n.contains('"') {
            let i = choose|i: int| 0 <= i < ln && n[i] == '"';
            assert(is_name_char(n[i]));
        }
    }
}

/// Every enumeration contributes exactly one block of five declarations, one entry to each of
/// the three trees and to the returned table, one alternative to the `EnumName` union and one
/// conjunct to each accessor's type; the module is these sections in a fixed order.
pub proof fn lemma_complete(c: ConfigModel)
    ensures
        enum_blocks(c).len() == c.enums.len(),
        list_tree_entries(c).len() == c.enums.len(),
        value_tree_entries(c).len() == c.enums.len(),
        inverse_tree_entries(c).len() == c.enums.len(),
        export_entries(c).len() == c.enums.len(),
        c.enums.map_values(|e: EnumModel| quoted(e.name)).len() == c.enums.len(),
        c.enums.map_values(|e: EnumModel| items_conjunct(e.name)).len() == c.enums.len(),
        c.enums.map_values(|e: EnumModel| from_value_conjunct(e.name)).len() == c.enums.len(),
        c.enums.map_values(|e: EnumModel| to_value_conjunct(e.name)).len() == c.enums.len(),
        forall|k: int|
            0 <= k < c.enums.len() ==> #[trigger] enum_blocks(c)[k] == "\n"@ + type_alias_text(
                c.enums[k],
                true,
            ) + "\n"@ + list_text(c.enums[k], true) + "\n"@ + dict_text(
                c.enums[k],
                true,
                c.assign_static_strings,
            ) + "\n"@ + value_dict_text(c.enums[k], true) + "\n"@ + inverse_value_dict_text(
                c.enums[k],
                true,
                c.assign_static_strings,
            ),
        forall|k: int|
            0 <= k < c.enums.len() ==> #[trigger] list_tree_entries(c)[k] == tree_entry(
                c.enums[k].name,
                list_var(c.enums[k].name),
            ) && value_tree_entries(c)[k] == tree_entry(
                c.enums[k].name,
                value_dict_var(c.enums[k].name),
            ) && inverse_tree_entries(c)[k] == tree_entry(
                c.enums[k].name,
                inverse_value_dict_var(c.enums[k].name),
            ) && export_entries(c)[k] == tree_entry(c.enums[k].name, dict_var(c.enums[k].name)),
        document_text(c) == prelude_text() + concat(enum_blocks(c)) + tree_text(
            "listTree"@,
            list_tree_entries(c),
        ) + tree_text("valueTree"@, value_tree_entries(c)) + tree_text(
            "invValueTree"@,
            inverse_tree_entries(c),
        ) + enum_name_type_text(c) + interface_text(c),
{
}

/// The start of the declaration of a variable: `local <var> = `.
pub open spec fn declaration_start(var: Seq<char>) -> Seq<char> {
    "local "@ + var + " = "@
}

/// `decl` stands in `doc` before `reference`.
pub open spec fn defined_before(doc: Seq<char>, decl: Seq<char>, reference: Seq<char>) -> bool {
    exists|p: int, q: int| p < q && #[trigger] occurs_at(doc, decl, p) && #[trigger] occurs_at(doc, reference, q)
}

proof fn lemma_occurs_lift(a: Seq<char>, s: Seq<char>, b: Seq<char>, sub: Seq<char>, p: int)
    requires
        occurs_at(s, sub, p),
    ensures
        occurs_at(a + s + b, sub, a.len() + p),
{
    assert((a + s + b).subrange(a.len() + p, a.len() + p + sub.len()) =~= s.subrange(
        p,
        p + sub.len(),
    ));
}

proof fn lemma_declared_in_table(var: Seq<char>, body: Seq<char>)
    ensures
        occurs_at(table_decl(var, body, true), declaration_start(var), 0),
{
    reveal_strlit(" = table.freeze({");
    reveal_strlit(" = ");
    let opening = " = table.freeze({"@;
    let rest = opening.subrange(3, opening.len() as int) + body + "})"@;
    assert(opening =~= " = "@ + opening.subrange(3, opening.len() as int));
    assert(table_decl(var, body, true) =~= Seq::<char>::empty() + declaration_start(var) + rest);
    lemma_occurs_in_middle(Seq::empty(), declaration_start(var), rest);
}

proof fn lemma_entry_in_concat(parts: Seq<Seq<char>>, k: int)
    requires
        0 <= k < parts.len(),
    ensures
        occurs_at(concat(parts), parts[k], concat(parts.take(k)).len() as int),
{
    lemma_join_empty_at(parts, k);
    lemma_occurs_in_middle(concat(parts.take(k)), parts[k], concat(parts.skip(k + 1)));
}

#[verifier::spinoff_prover]
#[verifier::rlimit(40)]
proof fn lemma_declarations_in_block(e: EnumModel, st: bool)
    ensures
        ({
            let n = e.name;
            let block = enum_block(e, st);
            &&& exists|p: int| #[trigger] occurs_at(block, declaration_start(list_var(n)), p)
            &&& exists|p: int| #[trigger] occurs_at(block, declaration_start(dict_var(n)), p)
            &&& exists|p: int| #[trigger] occurs_at(block, declaration_start(value_dict_var(n)), p)
            &&& exists|p: int|
                #[trigger] occurs_at(block, declaration_start(inverse_value_dict_var(n)), p)
        }),
{
    let n = e.name;
    let nl = "\n"@;
    let ta = type_alias_text(e, true);
    let lt = list_text(e, true);
    let dt = dict_text(e, true, st);
    let vt = value_dict_text(e, true);
    let it = inverse_value_dict_text(e, true, st);
    let block = enum_block(e, st);
    assert(exists|p: int| #[trigger] occurs_at(block, declaration_start(list_var(n)), p)) by {
        lemma_declared_in_table(list_var(n), join(quoted_names(e), ","@));
        let a = nl + ta + nl;
        let b = nl + dt + nl + vt + nl + it;
        assert(block =~= a + lt + b);
        lemma_occurs_lift(a, lt, b, declaration_start(list_var(n)), 0);
    }
    assert(exists|p: int| #[trigger] occurs_at(block, declaration_start(dict_var(n)), p)) by {
        lemma_declared_in_table(dict_var(n), entry_lines(dict_entries(e, st)));
        let a = nl + ta + nl + lt + nl;
        let b = nl + vt + nl + it;
        assert(block =~= a + dt + b);
        lemma_occurs_lift(a, dt, b, declaration_start(dict_var(n)), 0);
    }
    assert(exists|p: int| #[trigger] occurs_at(block, declaration_start(value_dict_var(n)), p))
        by {
        lemma_declared_in_table(value_dict_var(n), entry_lines(value_entries(e)));
        let a = nl + ta + nl + lt + nl + dt + nl;
        let b = nl + it;
        assert(block =~= a + vt + b);
        lemma_occurs_lift(a, vt, b, declaration_start(value_dict_var(n)), 0);
    }
    assert(exists|p: int|
        #[trigger] occurs_at(block, declaration_start(inverse_value_dict_var(n)), p)) by {
        lemma_declared_in_table(inverse_value_dict_var(n), entry_lines(inverse_entries(e, st)));
        let a = nl + ta + nl + lt + nl + dt + nl + vt + nl;
        assert(block =~= a + it + Seq::<char>::empty());
        lemma_occurs_lift(a, it, Seq::empty(), declaration_start(inverse_value_dict_var(n)), 0);
    }
}

proof fn lemma_lift_exists(a: Seq<char>, s: Seq<char>, b: Seq<char>, sub: Seq<char>)
    requires
        exists|p: int| #[trigger] occurs_at(s, sub, p),
    ensures
        exists|p: int| #[trigger] occurs_at(a + s + b, sub, p),
{
    let p = choose|p: int| #[trigger] occurs_at(s, sub, p);
    lemma_occurs_lift(a, s, b, sub, p);
}

/// Where the declarations of enumeration `k` stand in the header.
#[verifier::spinoff_prover]
#[verifier::rlimit(60)]
proof fn lemma_declarations_in_header(c: ConfigModel, k: int)
    requires
        0 <= k < c.enums.len(),
    ensures
        ({
            let n = c.enums[k].name;
            let h = header_text(c);
            &&& exists|p: int| #[trigger] occurs_at(h, declaration_start(list_var(n)), p)
            &&& exists|p: int| #[trigger] occurs_at(h, declaration_start(dict_var(n)), p)
            &&& exists|p: int| #[trigger] occurs_at(h, declaration_start(value_dict_var(n)), p)
            &&& exists|p: int|
                #[trigger] occurs_at(h, declaration_start(inverse_value_dict_var(n)), p)
        }),
{
    let e = c.enums[k];
    let n = e.name;
    let blocks = enum_blocks(c);
    let block = blocks[k];
    let before = concat(blocks.take(k));
    let after = concat(blocks.skip(k + 1));
    let empty = Seq::<char>::empty();
    lemma_join_empty_at(blocks, k);
    lemma_declarations_in_block(e, c.assign_static_strings);
    assert(header_text(c) =~= prelude_text() + concat(blocks) + empty);
    lemma_lift_exists(before, block, after, declaration_start(list_var(n)));
    lemma_lift_exists(prelude_text(), concat(blocks), empty, declaration_start(list_var(n)));
    lemma_lift_exists(before, block, after, declaration_start(dict_var(n)));
    lemma_lift_exists(prelude_text(), concat(blocks), empty, declaration_start(dict_var(n)));
    lemma_lift_exists(before, block, after, declaration_start(value_dict_var(n)));
    lemma_lift_exists(
        prelude_text(),
        concat(blocks),
        empty,
        declaration_start(value_dict_var(n)),
    );
    lemma_lift_exists(before, block, after, declaration_start(inverse_value_dict_var(n)));
    lemma_lift_exists(
        prelude_text(),
        concat(blocks),
        empty,
        declaration_start(inverse_value_dict_var(n)),
    );
}

proof fn lemma_entry_in_tree(tree: Seq<char>, entries: Seq<Seq<char>>, k: int)
    requires
        0 <= k < entries.len(),
    ensures
        exists|q: int| #[trigger] occurs_at(tree_text(tree, entries), entries[k], q),
{
    let a = "\nlocal "@ + tree + " = {"@;
    let b = "\n}"@ + "\ntable.freeze("@ + tree + ")"@;
    assert(tree_text(tree, entries) =~= a + concat(entries) + b);
    lemma_entry_in_concat(entries, k);
    lemma_occurs_lift(a, concat(entries), b, entries[k], concat(entries.take(k)).len() as int);
}

proof fn lemma_before(h: Seq<char>, r: Seq<char>, decl: Seq<char>, reference: Seq<char>)
    requires
        decl.len() > 0,
        exists|p: int| #[trigger] occurs_at(h, decl, p),
        exists|q: int| #[trigger] occurs_at(r, reference, q),
    ensures
        defined_before(h + r, decl, reference),
{
    let p = choose|p: int| #[trigger] occurs_at(h, decl, p);
    let q = choose|q: int| #[trigger] occurs_at(r, reference, q);
    lemma_occurs_lift(Seq::empty(), h, r, decl, p);
    lemma_occurs_lift(h, r, Seq::empty(), reference, q);
    assert(Seq::<char>::empty() + h + r =~= h + r);
    assert(h + r + Seq::<char>::empty() =~= h + r);
    assert(occurs_at(h + r, decl, p));
    assert(occurs_at(h + r, reference, h.len() + q));
}

/// The module after its header.
spec fn after_header(c: ConfigModel) -> Seq<char> {
    tree_text("listTree"@, list_tree_entries(c)) + tree_text("valueTree"@, value_tree_entries(c))
        + tree_text("invValueTree"@, inverse_tree_entries(c)) + enum_name_type_text(c)
        + interface_text(c)
}

#[verifier::spinoff_prover]
#[verifier::rlimit(60)]
proof fn lemma_references_after_header(c: ConfigModel, k: int)
    requires
        0 <= k < c.enums.len(),
    ensures
        ({
            let r = after_header(c);
            &&& exists|q: int| #[trigger] occurs_at(r, list_tree_entries(c)[k], q)
            &&& exists|q: int| #[trigger] occurs_at(r, value_tree_entries(c)[k], q)
            &&& exists|q: int| #[trigger] occurs_at(r, inverse_tree_entries(c)[k], q)
            &&& exists|q: int| #[trigger] occurs_at(r, export_entries(c)[k], q)
        }),
{
    let tl = tree_text("listTree"@, list_tree_entries(c));
    let tv = tree_text("valueTree"@, value_tree_entries(c));
    let ti = tree_text("invValueTree"@, inverse_tree_entries(c));
    let nt = enum_name_type_text(c);
    let itf = interface_text(c);
    let r = after_header(c);
    let empty = Seq::<char>::empty();
    assert(exists|q: int| #[trigger] occurs_at(r, list_tree_entries(c)[k], q)) by {
        lemma_entry_in_tree("listTree"@, list_tree_entries(c), k);
        assert(r =~= empty + tl + (tv + ti + nt + itf));
        lemma_lift_exists(empty, tl, tv + ti + nt + itf, list_tree_entries(c)[k]);
    }
    assert(exists|q: int| #[trigger] occurs_at(r, value_tree_entries(c)[k], q)) by {
        lemma_entry_in_tree("valueTree"@, value_tree_entries(c), k);
        assert(r =~= tl + tv + (ti + nt + itf));
        lemma_lift_exists(tl, tv, ti + nt + itf, value_tree_entries(c)[k]);
    }
    assert(exists|q: int| #[trigger] occurs_at(r, inverse_tree_entries(c)[k], q)) by {
        lemma_entry_in_tree("invValueTree"@, inverse_tree_entries(c), k);
        assert(r =~= (tl + tv) + ti + (nt + itf));
        lemma_lift_exists(tl + tv, ti, nt + itf, inverse_tree_entries(c)[k]);
    }
    assert(exists|q: int| #[trigger] occurs_at(r, export_entries(c)[k], q)) by {
        let ex = export_entries(c);
        lemma_entry_in_concat(ex, k);
        let a = "\nreturn {"@ + items_accessor(items_signature(c)) + from_value_accessor(
            from_value_signature(c),
        ) + to_value_accessor(to_value_signature(c));
        assert(itf =~= a + concat(ex) + "\n}"@);
        lemma_lift_exists(a, concat(ex), "\n}"@, ex[k]);
        assert(r =~= (tl + tv + ti + nt) + itf + empty);
        lemma_lift_exists(tl + tv + ti + nt, itf, empty, ex[k]);
    }
}

/// Every variable that the three trees and the returned table refer to is declared earlier in
/// the module.
#[verifier::spinoff_prover]
#[verifier::rlimit(60)]
pub proof fn lemma_defined_before_use(c: ConfigModel, k: int)
    requires
        0 <= k < c.enums.len(),
    ensures
        ({
            let n = c.enums[k].name;
            let doc = document_text(c);
            &&& list_tree_entries(c)[k] == tree_entry(n, list_var(n))
            &&& value_tree_entries(c)[k] == tree_entry(n, value_dict_var(n))
            &&& inverse_tree_entries(c)[k] == tree_entry(n, inverse_value_dict_var(n))
            &&& export_entries(c)[k] == tree_entry(n, dict_var(n))
            &&& defined_before(doc, declaration_start(list_var(n)), tree_entry(n, list_var(n)))
            &&& defined_before(
                doc,
                declaration_start(value_dict_var(n)),
                tree_entry(n, value_dict_var(n)),
            )
            &&& defined_before(
                doc,
                declaration_start(inverse_value_dict_var(n)),
                tree_entry(n, inverse_value_dict_var(n)),
            )
            &&& defined_before(doc, declaration_start(dict_var(n)), tree_entry(n, dict_var(n)))
        }),
{
    reveal_strlit("local ");
    let n = c.enums[k].name;
    let h = header_text(c);
    let r = after_header(c);
    assert(document_text(c) =~= h + r);
    lemma_declarations_in_header(c, k);
    lemma_references_after_header(c, k);
    lemma_before(h, r, declaration_start(list_var(n)), tree_entry(n, list_var(n)));
    lemma_before(h, r, declaration_start(value_dict_var(n)), tree_entry(n, value_dict_var(n)));
    lemma_before(
        h,
        r,
        declaration_start(inverse_value_dict_var(n)),
        tree_entry(n, inverse_value_dict_var(n)),
    );
    lemma_before(h, r, declaration_start(dict_var(n)), tree_entry(n, dict_var(n)));
}

/// Where the table that the module returns opens.
spec fn return_position(c: ConfigModel) -> int {
    (header_text(c) + tree_text("listTree"@, list_tree_entries(c)) + tree_text(
        "valueTree"@,
        value_tree_entries(c),
    ) + tree_text("invValueTree"@, inverse_tree_entries(c)) + enum_name_type_text(c)).len() as int
}

proof fn lemma_return_opens(c: ConfigModel)
    ensures
        occurs_at(document_text(c), "\nreturn {"@, return_position(c)),
{
    let before = header_text(c) + tree_text("listTree"@, list_tree_entries(c)) + tree_text(
        "valueTree"@,
        value_tree_entries(c),
    ) + tree_text("invValueTree"@, inverse_tree_entries(c)) + enum_name_type_text(c);
    let rest = items_accessor(items_signature(c)) + from_value_accessor(from_value_signature(c))
        + to_value_accessor(to_value_signature(c)) + concat(export_entries(c)) + "\n}"@;
    assert(document_text(c) =~= before + "\nreturn {"@ + rest);
    lemma_occurs_in_middle(before, "\nreturn {"@, rest);
}

proof fn lemma_tree_opens(a: Seq<char>, tree: Seq<char>, entries: Seq<Seq<char>>, b: Seq<char>)
    ensures
        occurs_at(a + tree_text(tree, entries) + b, "\nlocal "@ + tree, a.len() as int),
        tree_text(tree, entries).len() >= ("\nlocal "@ + tree).len(),
{
    let rest = " = {"@ + concat(entries) + "\n}"@ + "\ntable.freeze("@ + tree + ")"@;
    assert(tree_text(tree, entries) =~= ("\nlocal "@ + tree) + rest);
    assert(a + tree_text(tree, entries) + b =~= a + ("\nlocal "@ + tree) + (rest + b));
    lemma_occurs_in_middle(a, "\nlocal "@ + tree, rest + b);
}

/// The three trees and the name dictionary of every enumeration are declared before the table
/// that the module returns, which refers to them.
#[verifier::spinoff_prover]
#[verifier::rlimit(60)]
pub proof fn lemma_declared_before_interface(c: ConfigModel)
    ensures
        defined_before(document_text(c), "\nlocal "@ + "listTree"@, "\nreturn {"@),
        defined_before(document_text(c), "\nlocal "@ + "valueTree"@, "\nreturn {"@),
        defined_before(document_text(c), "\nlocal "@ + "invValueTree"@, "\nreturn {"@),
        forall|k: int|
            0 <= k < c.enums.len() ==> defined_before(
                document_text(c),
                declaration_start(dict_var(#[trigger] c.enums[k].name)),
                "\nreturn {"@,
            ),
{
    reveal_strlit("\nlocal ");
    reveal_strlit("local ");
    let doc = document_text(c);
    let h = header_text(c);
    let tl = tree_text("listTree"@, list_tree_entries(c));
    let tv = tree_text("valueTree"@, value_tree_entries(c));
    let ti = tree_text("invValueTree"@, inverse_tree_entries(c));
    let nt = enum_name_type_text(c);
    let itf = interface_text(c);
    let q = return_position(c);
    lemma_return_opens(c);
    assert(defined_before(doc, "\nlocal "@ + "listTree"@, "\nreturn {"@)) by {
        assert(doc =~= h + tl + (tv + ti + nt + itf));
        lemma_tree_opens(h, "listTree"@, list_tree_entries(c), tv + ti + nt + itf);
        assert(occurs_at(doc, "\nlocal "@ + "listTree"@, h.len() as int));
    }
    assert(defined_before(doc, "\nlocal "@ + "valueTree"@, "\nreturn {"@)) by {
        assert(doc =~= (h + tl) + tv + (ti + nt + itf));
        lemma_tree_opens(h + tl, "valueTree"@, value_tree_entries(c), ti + nt + itf);
        assert(occurs_at(doc, "\nlocal "@ + "valueTree"@, (h + tl).len() as int));
    }
    assert(defined_before(doc, "\nlocal "@ + "invValueTree"@, "\nreturn {"@)) by {
        assert(doc =~= (h + tl + tv) + ti + (nt + itf));
        lemma_tree_opens(h + tl + tv, "invValueTree"@, inverse_tree_entries(c), nt + itf);
        assert(occurs_at(doc, "\nlocal "@ + "invValueTree"@, (h + tl + tv).len() as int));
    }
    assert forall|k: int| 0 <= k < c.enums.len() implies defined_before(
        doc,
        declaration_start(dict_var(#[trigger] c.enums[k].name)),
        "\nreturn {"@,
    ) by {
        let d = declaration_start(dict_var(c.enums[k].name));
        lemma_declarations_in_header(c, k);
        let p = choose|p: int| #[trigger] occurs_at(h, d, p);
        let r = after_header(c);
        assert(doc =~= h + r);
        lemma_occurs_lift(Seq::empty(), h, r, d, p);
        assert(Seq::<char>::empty() + h + r =~= doc);
        assert(occurs_at(doc, d, p));
    }
}

proof fn lemma_identifier_free_of(n: Seq<char>, c: char)
    requires
        is_identifier(n),
        !is_name_char(c),
    ensures
        !n.contains(c),
{
    if n.contains(c) {
        let i = choose|i: int| 0 <= i < n.len() && n[i] == c;
        assert(is_name_char(n[i]));
    }
}

proof fn lemma_entries_split(entries: Seq<Seq<char>>)
    requires
        entries.len() > 0,
        forall|k: int| 0 <= k < entries.len() ==> !(#[trigger] entries[k]).contains(','),
    ensures
        split(join(entries, ",\n"@), ',') == prefixed_after_first(entries, "\n"@),
{
    reveal_strlit(",\n");
    reveal_strlit(",");
    reveal_strlit("\n");
    assert(",\n"@ =~= seq![','] + "\n"@);
    lemma_join_shift(entries, seq![','], "\n"@);
    let q = prefixed_after_first(entries, "\n"@);
    assert forall|k: int| 0 <= k < q.len() implies !(#[trigger] q[k]).contains(',') by {
        if k > 0 {
            assert(!entries[k].contains(','));
            if q[k].contains(',') {
                let i = choose|i: int| 0 <= i < q[k].len() && q[k][i] == ',';
                assert(i >= 1);
                assert(entries[k][i - 1] == ',');
            }
        }
    }
    lemma_split_join(q, ',');
}

/// The value dictionary and its inverse hold one entry per member, in member order, and nothing
/// else: the lines between their braces, split at the commas, are exactly the members' entries.
#[verifier::spinoff_prover]
#[verifier::rlimit(60)]
pub proof fn lemma_value_tables_exact(e: EnumModel, static_strings: bool)
    requires
        valid_enum(e),
        e.items.len() > 0,
    ensures
        value_entries(e).len() == e.items.len(),
        inverse_entries(e, static_strings).len() == e.items.len(),
        forall|k: int|
            0 <= k < e.items.len() ==> #[trigger] value_entries(e)[k] == value_entry(
                e.items[k].0,
                e.items[k].1,
            ) && inverse_entries(e, static_strings)[k] == inverse_entry(
                e.name,
                e.items[k].0,
                e.items[k].1,
                static_strings,
            ),
        value_dict_text(e, true) == table_decl(
            value_dict_var(e.name),
            "\n"@ + join(value_entries(e), ",\n"@) + "\n"@,
            true,
        ),
        inverse_value_dict_text(e, true, static_strings) == table_decl(
            inverse_value_dict_var(e.name),
            "\n"@ + join(inverse_entries(e, static_strings), ",\n"@) + "\n"@,
            true,
        ),
        split(join(value_entries(e), ",\n"@), ',') == prefixed_after_first(value_entries(e), "\n"@),
        split(join(inverse_entries(e, static_strings), ",\n"@), ',') == prefixed_after_first(
            inverse_entries(e, static_strings),
            "\n"@,
        ),
{
    reveal_strlit("\t");
    reveal_strlit("=");
    reveal_strlit("\t[");
    reveal_strlit("]=\"");
    reveal_strlit("\"");
    reveal_strlit(" :: ");
    let ve = value_entries(e);
    let ie = inverse_entries(e, static_strings);
    assert forall|k: int| 0 <= k < ve.len() implies !(#[trigger] ve[k]).contains(',') by {
        let n = e.items[k].0;
        let d = decimal(e.items[k].1 as nat);
        assert(is_identifier(n));
        lemma_identifier_free_of(n, ',');
        lemma_decimal_round_trip(e.items[k].1 as nat);
        let s = ve[k];
        assert(s == "\t"@ + n + "="@ + d);
        if s.contains(',') {
            let i = choose|i: int| 0 <= i < s.len() && s[i] == ',';
            if 1 <= i < n.len() + 1 {
                assert(s[i] == n[i - 1]);
            } else if i >= n.len() + 2 {
                assert(s[i] == d[i - n.len() - 2]);
            }
        }
    }
    assert forall|k: int| 0 <= k < ie.len() implies !(#[trigger] ie[k]).contains(',') by {
        let n = e.items[k].0;
        let d = decimal(e.items[k].1 as nat);
        assert(is_identifier(n));
        assert(is_identifier(e.name));
        lemma_identifier_free_of(n, ',');
        lemma_identifier_free_of(e.name, ',');
        lemma_decimal_round_trip(e.items[k].1 as nat);
        let tail: Seq<char> = if static_strings {
            Seq::empty()
        } else {
            " :: "@ + e.name
        };
        let t = ie[k];
        let ld = d.len() as int;
        let ln = n.len() as int;
        assert(t == "\t["@ + d + "]=\""@ + n + "\""@ + tail);
        if t.contains(',') {
            let i = choose|i: int| 0 <= i < t.len() && t[i] == ',';
            if 2 <= i < ld + 2 {
                assert(t[i] == d[i - 2]);
            } else if ld + 5 <= i < ld + 5 + ln {
                assert(t[i] == n[i - ld - 5]);
            } else if ld + 6 + ln <= i {
                assert(t[i] == tail[i - ld - 6 - ln]);
                if !static_strings && i >= ld + 10 + ln {
                    assert(tail[i - ld - 6 - ln] == e.name[i - ld - 10 - ln]);
                }
            }
        }
    }
    lemma_entries_split(ve);
    lemma_entries_split(ie);
}

/// With distinct member names, the value dictionary's entries are distinct: each member's entry
/// stands in it once.
#[verifier::spinoff_prover]
#[verifier::rlimit(60)]
pub proof fn lemma_value_entries_distinct(e: EnumModel, j: int, k: int)
    requires
        valid_enum(e),
        0 <= j < e.items.len(),
        0 <= k < e.items.len(),
        e.items[j].0 != e.items[k].0,
    ensures
        value_entries(e)[j] != value_entries(e)[k],
{
    lemma_value_tables_agree(e, true, j);
    lemma_value_tables_agree(e, true, k);
    let nj = e.items[j].0;
    let nk = e.items[k].0;
    let lj = nj.len() as int;
    let lk = nk.len() as int;
    let sj = value_entries(e)[j];
    let sk = value_entries(e)[k];
    if sj == sk {
        if lj < lk {
            assert(sk.subrange(1, lk + 1)[lj] == sk[lj + 1]);
            assert(nk.contains(nk[lj]));
        } else if lk < lj {
            assert(sj.subrange(1, lj + 1)[lk] == sj[lk + 1]);
            assert(nj.contains(nj[lk]));
        } else {
            assert(nj == sj.subrange(1, lj + 1));
        }
    }
}

/// With distinct member values, the inverse dictionary's entries are distinct: each value's
/// entry stands in it once.
#[verifier::spinoff_prover]
#[verifier::rlimit(60)]
pub proof fn lemma_inverse_entries_distinct(e: EnumModel, static_strings: bool, j: int, k: int)
    requires
        valid_enum(e),
        0 <= j < e.items.len(),
        0 <= k < e.items.len(),
        e.items[j].1 != e.items[k].1,
    ensures
        inverse_entries(e, static_strings)[j] != inverse_entries(e, static_strings)[k],
{
    lemma_value_tables_agree(e, static_strings, j);
    lemma_value_tables_agree(e, static_strings, k);
    let dj = decimal(e.items[j].1 as nat);
    let dk = decimal(e.items[k].1 as nat);
    let lj = dj.len() as int;
    let lk = dk.len() as int;
    let tj = inverse_entries(e, static_strings)[j];
    let tk = inverse_entries(e, static_strings)[k];
    if tj == tk {
        if lj < lk {
            assert(tk.subrange(2, lk + 2)[lj] == tk[lj + 2]);
            assert(is_digit(dk[lj]));
        } else if lk < lj {
            assert(tj.subrange(2, lj + 2)[lk] == tj[lk + 2]);
            assert(is_digit(dj[lk]));
        } else {
            assert(dj == tj.subrange(2, lj + 2));
        }
    }
}

} // verus!
