//! The enumeration model: validated names, members and enumerations.
use vstd::prelude::*;

verus! {

/// Whether `char::is_alphanumeric` holds of a character: Unicode's Alphabetic property or a
/// numeric general category (Nd, Nl, No).
pub uninterp spec fn unicode_alphanumeric(c: char) -> bool;

/// An ASCII letter or digit.
pub open spec fn is_ascii_alphanumeric(c: char) -> bool {
    ('a' <= c && c <= 'z') || ('A' <= c && c <= 'Z') || ('0' <= c && c <= '9')
}

/// A character that is alphanumeric: below 128 exactly the ASCII letters and digits, above
/// that as Unicode decides.
pub open spec fn is_alphanumeric(c: char) -> bool {
    if c <= '\x7f' {
        is_ascii_alphanumeric(c)
    } else {
        unicode_alphanumeric(c)
    }
}

/// A character that may stand in a name: alphanumeric or `_`.
pub open spec fn is_name_char(c: char) -> bool {
    is_alphanumeric(c) || c == '_'
}

/// A non-empty text made of alphanumeric characters and underscores only.
pub open spec fn is_identifier(s: Seq<char>) -> bool {
    s.len() > 0 && forall|i: int| 0 <= i < s.len() ==> is_name_char(#[trigger] s[i])
}

/// The message with which a candidate name is refused.
pub open spec fn bad_name_message(s: Seq<char>) -> Seq<char> {
    if s.len() == 0 {
        "EnumValue name is empty"@
    } else {
        "EnumValue '"@ + s + "' has bad character"@
    }
}

/// Relies on `char::is_alphanumeric`, which is `is_alphabetic() || is_numeric()`; for a
/// character below 128 both of those are decided by the ASCII ranges `a..=z`, `A..=Z` and
/// `0..=9` alone, and above it by Unicode's tables.
#[verifier::external_body]
fn char_is_alphanumeric(c: char) -> (r: bool)
    ensures
        r == unicode_alphanumeric(c),
        c <= '\x7f' ==> (r <==> is_ascii_alphanumeric(c)),
{
    c.is_alphanumeric()
}

fn name_char(c: char) -> (r: bool)
    ensures
        r == is_name_char(c),
{
    char_is_alphanumeric(c) || c == '_'
}

/// Every enumeration of the model has valid names only.
pub open spec fn valid_config(c: ConfigModel) -> bool {
    forall|k: int| 0 <= k < c.enums.len() ==> valid_enum(#[trigger] c.enums[k])
}

/// A non-empty name made of alphanumeric characters and underscores.
#[derive(Debug, PartialEq, Eq, Hash)]
pub struct LuauName(String);

impl Clone for LuauName {
    fn clone(&self) -> (r: Self)
        ensures
            r@ == self@,
    {
        proof {
            use_type_invariant(self);
        }
        LuauName(self.0.clone())
    }
}

impl View for LuauName {
    type V = Seq<char>;

    closed spec fn view(&self) -> Seq<char> {
        self.0@
    }
}

impl LuauName {
    #[verifier::type_invariant]
    closed spec fn valid(self) -> bool {
        is_identifier(self.0@)
    }

    pub fn new(input: &str) -> (r: Result<Self, String>)
        ensures
            r is Ok <==> is_identifier(input@),
            r is Ok ==> r->Ok_0@ == input@,
            r is Err ==> r->Err_0@ == bad_name_message(input@),
    {
        let n = input.unicode_len();
        if n == 0 {
            return Err(String::from_str("EnumValue name is empty"));
        }
        let mut i: usize = 0;
        while i < n
            invariant
                n == input@.len(),
                0 <= i <= n,
                forall|j: int| 0 <= j < i ==> is_name_char(#[trigger] input@[j]),
            decreases n - i,
        {
            if !name_char(input.get_char(i)) {
                let mut msg = String::from_str("EnumValue '");
                msg.append(input);
                msg.append("' has bad character");
                return Err(msg);
            }
            i = i + 1;
        }
        Ok(LuauName(String::from_str(input)))
    }

    pub fn as_str(&self) -> (r: &str)
        ensures
            r@ == self@,
            is_identifier(r@),
    {
        proof {
            use_type_invariant(self);
        }
        self.0.as_str()
    }
}

impl std::str::FromStr for LuauName {
    type Err = String;

    fn from_str(s: &str) -> Result<Self, Self::Err> {
        LuauName::new(s)
    }
}

/// One case of an enumeration and its numeric tag.
#[derive(Debug, Clone, PartialEq, Eq, Hash)]
pub struct EnumItem {
    pub name: LuauName,
    pub value: u16,
}

impl View for EnumItem {
    type V = (Seq<char>, u16);

    open spec fn view(&self) -> (Seq<char>, u16) {
        (self.name@, self.value)
    }
}

/// What an enumeration is: its name and its members, in order.
pub struct EnumModel {
    pub name: Seq<char>,
    pub items: Seq<(Seq<char>, u16)>,
}

/// Every name in the enumeration is a valid identifier.
pub open spec fn valid_enum(e: EnumModel) -> bool {
    &&& is_identifier(e.name)
    &&& forall|k: int| 0 <= k < e.items.len() ==> is_identifier(#[trigger] e.items[k].0)
}

/// A named enumeration whose member order is significant.
#[derive(Debug, Clone, PartialEq, Eq, Hash)]
pub struct Enum {
    pub name: LuauName,
    pub items: Vec<EnumItem>,
}

impl View for Enum {
    type V = EnumModel;

    open spec fn view(&self) -> EnumModel {
        EnumModel { name: self.name@, items: self.items@.map_values(|i: EnumItem| i@) }
    }
}

/// What a configuration is, as far as the generated module depends on it.
pub struct ConfigModel {
    pub assign_static_strings: bool,
    pub enums: Seq<EnumModel>,
}

/// The enumerations to generate, in the order in which they are rendered, and the options.
#[derive(Debug, Clone, PartialEq, Eq)]
pub struct EnumSetConfig {
    pub build_path: Option<String>,
    pub use_union_types_for_export: bool,
    pub use_union_types_for_parameters: bool,
    pub assign_static_strings: bool,
    pub enums: Vec<Enum>,
}

impl View for EnumSetConfig {
    type V = ConfigModel;

    open spec fn view(&self) -> ConfigModel {
        ConfigModel {
            assign_static_strings: self.assign_static_strings,
            enums: self.enums@.map_values(|e: Enum| e@),
        }
    }
}

/// The greatest number of members that the sequential form numbers from 1.
pub const MAX_SEQUENCE_ITEMS: usize = 65535;

/// A scalar of the configuration, as far as the model reads it.
#[derive(Debug, Clone, PartialEq, Eq)]
pub enum RawScalar {
    Text(String),
    Integer(i64),
    Other,
}

/// How the configuration defines an enumeration: a list of member names numbered from 1, or a
/// table from member names to values.
#[derive(Debug, Clone, PartialEq, Eq)]
pub enum RawEnumBody {
    Sequence(Vec<RawScalar>),
    Table(Vec<(String, RawScalar)>),
    Other,
}

pub open spec fn entry_text(r: RawScalar) -> Seq<char> {
    match r {
        RawScalar::Text(s) => s@,
        _ => Seq::empty(),
    }
}

/// An entry of the sequential form that names a member.
pub open spec fn sequence_entry_ok(r: RawScalar) -> bool {
    match r {
        RawScalar::Text(s) => is_identifier(s@),
        _ => false,
    }
}

/// Why an entry of the sequential form is refused.
pub open spec fn sequence_entry_error(r: RawScalar) -> Seq<char> {
    match r {
        RawScalar::Text(s) => bad_name_message(s@),
        _ => "Expected string in array"@,
    }
}

/// The members of the sequential form: the names in order, numbered from 1.
pub open spec fn sequence_items(entries: Seq<RawScalar>) -> Seq<(Seq<char>, u16)> {
    Seq::new(entries.len(), |k: int| (entry_text(entries[k]), (k + 1) as u16))
}

pub open spec fn sequence_ok(entries: Seq<RawScalar>) -> bool {
    &&& entries.len() <= MAX_SEQUENCE_ITEMS
    &&& forall|k: int| 0 <= k < entries.len() ==> sequence_entry_ok(#[trigger] entries[k])
}

/// `msg` is the error of the first refused entry of the sequential form.
pub open spec fn sequence_error(entries: Seq<RawScalar>, msg: Seq<char>) -> bool {
    if entries.len() > MAX_SEQUENCE_ITEMS {
        msg == "Too many items in array"@
    } else {
        exists|k: int|
            0 <= k < entries.len() && !sequence_entry_ok(#[trigger] entries[k]) && (forall|j: int|
                0 <= j < k ==> sequence_entry_ok(#[trigger] entries[j])) && msg
                == sequence_entry_error(entries[k])
    }
}

/// An entry of the keyed form that gives a member and its value.
pub open spec fn table_entry_ok(entry: (String, RawScalar)) -> bool {
    &&& is_identifier(entry.0@)
    &&& match entry.1 {
        RawScalar::Integer(v) => 0 <= v <= 65535,
        _ => false,
    }
}

/// Why an entry of the keyed form is refused.
pub open spec fn table_entry_error(entry: (String, RawScalar)) -> Seq<char> {
    if !is_identifier(entry.0@) {
        bad_name_message(entry.0@)
    } else {
        match entry.1 {
            RawScalar::Integer(v) => "Integer out of range in table"@,
            _ => "Expected integer in table"@,
        }
    }
}

pub open spec fn table_ok(entries: Seq<(String, RawScalar)>) -> bool {
    forall|k: int| 0 <= k < entries.len() ==> table_entry_ok(#[trigger] entries[k])
}

/// `msg` is the error of the first refused entry of the keyed form.
pub open spec fn table_error(entries: Seq<(String, RawScalar)>, msg: Seq<char>) -> bool {
    exists|k: int|
        0 <= k < entries.len() && !table_entry_ok(#[trigger] entries[k]) && (forall|j: int|
            0 <= j < k ==> table_entry_ok(#[trigger] entries[j])) && msg == table_entry_error(
            entries[k],
        )
}

pub open spec fn entry_value(r: RawScalar) -> u16 {
    match r {
        RawScalar::Integer(v) => v as u16,
        _ => 0,
    }
}

/// The members of the keyed form, in the order of the entries.
pub open spec fn table_pairs(entries: Seq<(String, RawScalar)>) -> Seq<(Seq<char>, u16)> {
    Seq::new(entries.len(), |k: int| (entries[k].0@, entry_value(entries[k].1)))
}

pub open spec fn value_is(v: u16) -> spec_fn((Seq<char>, u16)) -> bool {
    |p: (Seq<char>, u16)| p.1 == v
}

/// The members that have the value `v`, in order.
pub open spec fn with_value(s: Seq<(Seq<char>, u16)>, v: u16) -> Seq<(Seq<char>, u16)> {
    s.filter(value_is(v))
}

pub open spec fn sorted_by_value(s: Seq<(Seq<char>, u16)>) -> bool {
    forall|i: int, j: int| 0 <= i < j < s.len() ==> s[i].1 <= s[j].1
}

/// `out` is `s` sorted by value, members of equal value kept in their order.
pub open spec fn stable_sorted(s: Seq<(Seq<char>, u16)>, out: Seq<(Seq<char>, u16)>) -> bool {
    &&& sorted_by_value(out)
    &&& forall|v: u16| #[trigger] with_value(out, v) == with_value(s, v)
}

pub open spec fn item_views(s: Seq<EnumItem>) -> Seq<(Seq<char>, u16)> {
    s.map_values(|i: EnumItem| i@)
}

proof fn lemma_insert_with_value(s: Seq<(Seq<char>, u16)>, p: int, x: (Seq<char>, u16), v: u16)
    requires
        0 <= p <= s.len(),
        forall|i: int| 0 <= i < p ==> s[i].1 <= x.1,
        forall|i: int| p <= i < s.len() ==> s[i].1 > x.1,
    ensures
        with_value(s.insert(p, x), v) == if x.1 == v {
            with_value(s, v).push(x)
        } else {
            with_value(s, v)
        },
{
    let f = value_is(v);
    let a = s.take(p);
    let b = s.skip(p);
    assert(s.insert(p, x) =~= a + seq![x] + b);
    assert(s =~= a + b);
    Seq::filter_distributes_over_add(a + seq![x], b, f);
    Seq::filter_distributes_over_add(a, seq![x], f);
    Seq::filter_distributes_over_add(a, b, f);
    assert(seq![x] =~= Seq::<(Seq<char>, u16)>::empty().push(x));
    Seq::<(Seq<char>, u16)>::empty().lemma_filter_push(x, f);
    assert(Seq::<(Seq<char>, u16)>::empty().filter(f) =~= Seq::empty()) by {
        Seq::<(Seq<char>, u16)>::empty().lemma_filter_len(f);
    }
    if x.1 == v {
        assert(b.all(|q: (Seq<char>, u16)| !f(q)));
        b.lemma_all_neg_filter_empty(f);
        assert(b.filter(f) =~= Seq::empty());
        assert(a.filter(f) + seq![x] + b.filter(f) =~= (a.filter(f) + b.filter(f)).push(x));
    } else {
        assert(seq![x].filter(f) =~= Seq::empty());
        assert(a.filter(f) + seq![x].filter(f) + b.filter(f) =~= a.filter(f) + b.filter(f));
    }
}

/// The members sorted by value; members of equal value keep their order.
fn sort_by_value(items: &Vec<EnumItem>) -> (r: Vec<EnumItem>)
    ensures
        stable_sorted(item_views(items@), item_views(r@)),
{
    let mut out: Vec<EnumItem> = Vec::new();
    let n = items.len();
    let mut i: usize = 0;
    while i < n
        invariant
            n == items@.len(),
            0 <= i <= n,
            sorted_by_value(item_views(out@)),
            forall|v: u16|
                #[trigger] with_value(item_views(out@), v) == with_value(
                    item_views(items@).take(i as int),
                    v,
                ),
        decreases n - i,
    {
        let x = EnumItem { name: items[i].name.clone(), value: items[i].value };
        let mut p: usize = 0;
        while p < out.len() && out[p].value <= x.value
            invariant
                0 <= p <= out@.len(),
                forall|j: int| 0 <= j < p ==> (#[trigger] out@[j]).value <= x.value,
            decreases out@.len() - p,
        {
            p = p + 1;
        }
        let ghost before = item_views(out@);
        proof {
            assert forall|j: int| p <= j < before.len() implies before[j].1 > x.value by {
                assert(before[p as int].1 > x.value);
                assert(before[p as int].1 <= before[j].1);
            }
        }
        out.insert(p, x);
        proof {
            assert(item_views(out@) =~= before.insert(p as int, x@));
            let taken = item_views(items@).take(i as int);
            assert(item_views(items@).take(i + 1) =~= taken.push(x@));
            assert forall|v: u16|
                #[trigger] with_value(item_views(out@), v) == with_value(
                    item_views(items@).take(i + 1),
                    v,
                ) by {
                lemma_insert_with_value(before, p as int, x@, v);
                taken.lemma_filter_push(x@, value_is(v));
            }
        }
        i = i + 1;
    }
    proof {
        assert(item_views(items@).take(n as int) =~= item_views(items@));
    }
    out
}

/// The definition of an enumeration is accepted.
pub open spec fn raw_enum_ok(name: Seq<char>, body: RawEnumBody) -> bool {
    &&& is_identifier(name)
    &&& match body {
        RawEnumBody::Sequence(es) => sequence_ok(es@),
        RawEnumBody::Table(es) => table_ok(es@),
        RawEnumBody::Other => false,
    }
}

/// `e` is the enumeration that an accepted definition gives.
pub open spec fn raw_enum_model(name: Seq<char>, body: RawEnumBody, e: EnumModel) -> bool {
    &&& e.name == name
    &&& match body {
        RawEnumBody::Sequence(es) => e.items == sequence_items(es@),
        RawEnumBody::Table(es) => stable_sorted(table_pairs(es@), e.items),
        RawEnumBody::Other => false,
    }
}

/// `msg` is why a refused definition is refused.
pub open spec fn raw_enum_error(name: Seq<char>, body: RawEnumBody, msg: Seq<char>) -> bool {
    if !is_identifier(name) {
        msg == bad_name_message(name)
    } else {
        match body {
            RawEnumBody::Sequence(es) => sequence_error(es@, msg),
            RawEnumBody::Table(es) => table_error(es@, msg),
            RawEnumBody::Other => msg == "Expected array or table for enum definition"@,
        }
    }
}

impl Enum {
    /// The sequential form: the members in the order given, valued 1, 2, 3, ...
    pub fn from_sequence(name: &str, entries: &Vec<RawScalar>) -> (r: Result<Enum, String>)
        ensures
            !is_identifier(name@) ==> r is Err && r->Err_0@ == bad_name_message(name@),
            is_identifier(name@) ==> (r is Ok <==> sequence_ok(entries@)),
            is_identifier(name@) && r is Err ==> sequence_error(entries@, r->Err_0@),
            r is Ok ==> r->Ok_0@ == (EnumModel { name: name@, items: sequence_items(entries@) }),
    {
        let named = LuauName::new(name);
        let enum_name = match named {
            Ok(n) => n,
            Err(msg) => return Err(msg),
        };
        proof {
            assert(is_identifier(name@));
        }
        let n = entries.len();
        if n > MAX_SEQUENCE_ITEMS {
            return Err(String::from_str("Too many items in array"));
        }
        let mut items: Vec<EnumItem> = Vec::new();
        let mut k: usize = 0;
        while k < n
            invariant
                n == entries@.len(),
                n <= MAX_SEQUENCE_ITEMS,
                is_identifier(name@),
                0 <= k <= n,
                items@.len() == k,
                forall|j: int| 0 <= j < k ==> sequence_entry_ok(#[trigger] entries@[j]),
                forall|j: int|
                    0 <= j < k ==> (#[trigger] items@[j])@ == (
                    entry_text(entries@[j]),
                    (j + 1) as u16,
                ),
            decreases n - k,
        {
            match &entries[k] {
                RawScalar::Text(t) => match LuauName::new(t.as_str()) {
                    Ok(item_name) => {
                        items.push(EnumItem { name: item_name, value: (k + 1) as u16 });
                    },
                    Err(msg) => {
                        proof {
                            assert(!sequence_entry_ok(entries@[k as int]));
                        }
                        return Err(msg);
                    },
                },
                _ => {
                    proof {
                        assert(!sequence_entry_ok(entries@[k as int]));
                    }
                    return Err(String::from_str("Expected string in array"));
                },
            }
            k = k + 1;
        }
        let r = Enum { name: enum_name, items };
        proof {
            assert(r@.items =~= sequence_items(entries@));
        }
        Ok(r)
    }

    /// The keyed form: each member with its own value, sorted by value; members of equal value
    /// keep the order of the entries.
    pub fn from_table(name: &str, entries: &Vec<(String, RawScalar)>) -> (r: Result<Enum, String>)
        ensures
            !is_identifier(name@) ==> r is Err && r->Err_0@ == bad_name_message(name@),
            is_identifier(name@) ==> (r is Ok <==> table_ok(entries@)),
            is_identifier(name@) && r is Err ==> table_error(entries@, r->Err_0@),
            r is Ok ==> r->Ok_0@.name == name@ && stable_sorted(
                table_pairs(entries@),
                r->Ok_0@.items,
            ),
    {
        let named = LuauName::new(name);
        let enum_name = match named {
            Ok(n) => n,
            Err(msg) => return Err(msg),
        };
        proof {
            assert(is_identifier(name@));
        }
        let n = entries.len();
        let mut items: Vec<EnumItem> = Vec::new();
        let mut k: usize = 0;
        while k < n
            invariant
                n == entries@.len(),
                is_identifier(name@),
                0 <= k <= n,
                items@.len() == k,
                forall|j: int| 0 <= j < k ==> table_entry_ok(#[trigger] entries@[j]),
                forall|j: int|
                    0 <= j < k ==> (#[trigger] items@[j])@ == (
                    entries@[j].0@,
                    entry_value(entries@[j].1),
                ),
            decreases n - k,
        {
            let entry = &entries[k];
            let item_name = match LuauName::new(entry.0.as_str()) {
                Ok(item_name) => item_name,
                Err(msg) => {
                    proof {
                        assert(!table_entry_ok(entries@[k as int]));
                    }
                    return Err(msg);
                },
            };
            match &entry.1 {
                RawScalar::Integer(v) => {
                    if *v < 0 || *v > 65535 {
                        proof {
                            assert(!table_entry_ok(entries@[k as int]));
                        }
                        return Err(String::from_str("Integer out of range in table"));
                    }
                    items.push(EnumItem { name: item_name, value: *v as u16 });
                },
                _ => {
                    proof {
                        assert(!table_entry_ok(entries@[k as int]));
                    }
                    return Err(String::from_str("Expected integer in table"));
                },
            }
            k = k + 1;
        }
        proof {
            assert(item_views(items@) =~= table_pairs(entries@));
        }
        let sorted = sort_by_value(&items);
        Ok(Enum { name: enum_name, items: sorted })
    }

    /// An enumeration from its definition in the configuration.
    pub fn from_raw(name: &str, body: &RawEnumBody) -> (r: Result<Enum, String>)
        ensures
            r is Ok <==> raw_enum_ok(name@, *body),
            r is Ok ==> raw_enum_model(name@, *body, r->Ok_0@),
            r is Err ==> raw_enum_error(name@, *body, r->Err_0@),
    {
        match body {
            RawEnumBody::Sequence(es) => Enum::from_sequence(name, es),
            RawEnumBody::Table(es) => Enum::from_table(name, es),
            RawEnumBody::Other => match LuauName::new(name) {
                Ok(_) => Err(String::from_str("Expected array or table for enum definition")),
                Err(msg) => Err(msg),
            },
        }
    }
}

/// The enumerations of a configuration, in the order given; the first refused definition
/// refuses them all.
pub fn enums_from_raw(defs: &Vec<(String, RawEnumBody)>) -> (r: Result<Vec<Enum>, String>)
    ensures
        r is Ok <==> forall|k: int| 0 <= k < defs@.len() ==> raw_enum_ok(
            (#[trigger] defs@[k]).0@,
            defs@[k].1,
        ),
        r is Ok ==> r->Ok_0@.len() == defs@.len() && forall|k: int|
            0 <= k < defs@.len() ==> raw_enum_model(
                (#[trigger] defs@[k]).0@,
                defs@[k].1,
                r->Ok_0@[k]@,
            ),
        r is Err ==> exists|k: int|
            0 <= k < defs@.len() && !raw_enum_ok((#[trigger] defs@[k]).0@, defs@[k].1) && (forall|
                j: int,
            |
                0 <= j < k ==> raw_enum_ok((#[trigger] defs@[j]).0@, defs@[j].1)) && raw_enum_error(
                defs@[k].0@,
                defs@[k].1,
                r->Err_0@,
            ),
{
    let mut out: Vec<Enum> = Vec::new();
    let n = defs.len();
    let mut k: usize = 0;
    while k < n
        invariant
            n == defs@.len(),
            0 <= k <= n,
            out@.len() == k,
            forall|j: int| 0 <= j < k ==> raw_enum_ok((#[trigger] defs@[j]).0@, defs@[j].1),
            forall|j: int|
                0 <= j < k ==> raw_enum_model((#[trigger] defs@[j]).0@, defs@[j].1, out@[j]@),
        decreases n - k,
    {
        match Enum::from_raw(defs[k].0.as_str(), &defs[k].1) {
            Ok(e) => out.push(e),
            Err(msg) => {
                proof {
                    assert(!raw_enum_ok(defs@[k as int].0@, defs@[k as int].1));
                }
                return Err(msg);
            },
        }
        k = k + 1;
    }
    Ok(out)
}

} // verus!
