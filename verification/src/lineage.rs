//! The lineage model: dialects, identifiers, normalized table names and
//! column references.
//!
//! A table is known by its normalized qualified name, a sequence of name
//! parts. Two mentions of a table denote the same table exactly when their
//! normalized names are equal, so the name is the mathematical view of a
//! [`DbTableMeta`].

use crate::sets::views;
use vstd::prelude::*;
use vstd::std_specs::cmp::PartialEqSpecImpl;

verus! {

/// The SQL dialect a statement was written in. It decides which character
/// quotes an identifier and how an unquoted identifier is folded.
#[derive(Clone, Copy, Debug, PartialEq, Eq, Structural)]
pub enum Dialect {
    Generic,
    Ansi,
    Postgres,
    Snowflake,
    BigQuery,
    MySql,
}

/// A normalized qualified name: its parts, outermost first.
pub type TableName = Seq<Seq<char>>;

pub open spec fn lower_char(c: char) -> char {
    if 'A' <= c && c <= 'Z' {
        ((c as u8) + 32) as char
    } else {
        c
    }
}

pub open spec fn upper_char(c: char) -> char {
    if 'a' <= c && c <= 'z' {
        ((c as u8) - 32) as char
    } else {
        c
    }
}

/// The character that quotes an identifier in dialect `d`.
pub open spec fn quote_of(d: Dialect) -> char {
    match d {
        Dialect::BigQuery | Dialect::MySql => '`',
        _ => '"',
    }
}

/// How dialect `d` folds one character of an unquoted identifier.
pub open spec fn fold_char(d: Dialect, c: char) -> char {
    match d {
        Dialect::Postgres => lower_char(c),
        Dialect::Snowflake => upper_char(c),
        _ => c,
    }
}

/// Whether `s` still carries a pair of quotes `q` around it.
pub open spec fn is_wrapped(s: Seq<char>, q: char) -> bool {
    s.len() >= 2 && s[0] == q && s[s.len() - 1] == q
}

/// The normalized form of one name part. A quoted part keeps its text; a
/// part that still carries the dialect's quotes loses them and keeps the
/// text between; any other part is folded character by character.
pub open spec fn normalize(d: Dialect, value: Seq<char>, quoted: bool) -> Seq<char> {
    if quoted {
        value
    } else if is_wrapped(value, quote_of(d)) {
        value.subrange(1, value.len() - 1)
    } else {
        value.map_values(|c: char| fold_char(d, c))
    }
}

/// The parts of a name after the default schema has been put in front of an
/// unqualified name.
pub open spec fn qualify(parts: TableName, default_schema: Option<Seq<char>>) -> TableName {
    if parts.len() == 1 && default_schema is Some {
        seq![default_schema->0, parts[0]]
    } else {
        parts
    }
}

/// An identifier as the model sees it: its text, and whether it was
/// written between quotes.
pub struct IdentName {
    pub value: Seq<char>,
    pub quoted: bool,
}

/// The normalized parts of a sequence of identifiers.
pub open spec fn normalized_parts(d: Dialect, name: Seq<IdentName>) -> TableName {
    name.map_values(|i: IdentName| normalize(d, i.value, i.quoted))
}

/// The normalized qualified name that a sequence of identifiers denotes.
pub open spec fn table_name(
    d: Dialect,
    name: Seq<IdentName>,
    default_schema: Option<Seq<char>>,
) -> TableName {
    qualify(normalized_parts(d, name), default_schema)
}

/// The text of each identifier, untouched.
pub open spec fn verbatim_parts(name: Seq<IdentName>) -> TableName {
    name.map_values(|i: IdentName| i.value)
}

/// The views of a vector of strings.
pub open spec fn strings_view(v: Seq<String>) -> Seq<Seq<char>> {
    v.map_values(|s: String| s@)
}

/// The view of an optional string.
pub open spec fn opt_string_view(s: Option<String>) -> Option<Seq<char>> {
    match s {
        Some(s) => Some(s@),
        None => None,
    }
}

/// `String::push` of the standard library: it appends the character to the
/// end of the string.
pub assume_specification[ String::push ](s: &mut String, c: char)
    ensures
        final(s)@ == old(s)@.push(c),
;

pub fn to_lower(c: char) -> (r: char)
    ensures
        r == lower_char(c),
{
    if 'A' <= c && c <= 'Z' {
        let b: u8 = c as u8;
        (b + 32) as char
    } else {
        c
    }
}

pub fn to_upper(c: char) -> (r: char)
    ensures
        r == upper_char(c),
{
    if 'a' <= c && c <= 'z' {
        let b: u8 = c as u8;
        (b - 32) as char
    } else {
        c
    }
}

/// The dialect that a name stands for. The name is taken in lower case.
pub open spec fn dialect_named(name: Seq<char>) -> Option<Dialect> {
    if name == "generic"@ {
        Some(Dialect::Generic)
    } else if name == "ansi"@ {
        Some(Dialect::Ansi)
    } else if name == "postgres"@ || name == "postgresql"@ {
        Some(Dialect::Postgres)
    } else if name == "snowflake"@ {
        Some(Dialect::Snowflake)
    } else if name == "bigquery"@ {
        Some(Dialect::BigQuery)
    } else if name == "mysql"@ {
        Some(Dialect::MySql)
    } else {
        None
    }
}

impl Dialect {
    /// The dialect with the name `name`, if there is one.
    pub fn by_name(name: &str) -> (r: Option<Dialect>)
        ensures
            r == dialect_named(name@),
    {
        let name = name.to_owned();
        if name == "generic".to_owned() {
            Some(Dialect::Generic)
        } else if name == "ansi".to_owned() {
            Some(Dialect::Ansi)
        } else if name == "postgres".to_owned() || name == "postgresql".to_owned() {
            Some(Dialect::Postgres)
        } else if name == "snowflake".to_owned() {
            Some(Dialect::Snowflake)
        } else if name == "bigquery".to_owned() {
            Some(Dialect::BigQuery)
        } else if name == "mysql".to_owned() {
            Some(Dialect::MySql)
        } else {
            None
        }
    }

    /// The character that quotes an identifier in this dialect.
    pub fn quote(&self) -> (q: char)
        ensures
            q == quote_of(*self),
    {
        match self {
            Dialect::BigQuery | Dialect::MySql => '`',
            _ => '"',
        }
    }

    /// Folds one character of an unquoted identifier.
    pub fn fold(&self, c: char) -> (r: char)
        ensures
            r == fold_char(*self, c),
    {
        match self {
            Dialect::Postgres => to_lower(c),
            Dialect::Snowflake => to_upper(c),
            _ => c,
        }
    }

    /// Normalizes one name part.
    pub fn canonical_name(&self, value: &str, quoted: bool) -> (r: String)
        ensures
            r@ == normalize(*self, value@, quoted),
    {
        let n: usize = value.unicode_len();
        if quoted {
            return value.to_owned();
        }
        let q = self.quote();
        if n >= 2 && value.get_char(0) == q && value.get_char(n - 1) == q {
            return value.substring_char(1, n - 1).to_owned();
        }
        let mut out = String::new();
        let mut i: usize = 0;
        while i < n
            invariant
                i <= n,
                n == value@.len(),
                out@ == value@.take(i as int).map_values(|c: char| fold_char(*self, c)),
            decreases n - i,
        {
            let c = value.get_char(i);
            out.push(self.fold(c));
            assert(value@.take(i + 1) == value@.take(i as int).push(value@[i as int]));
            assert(out@ =~= value@.take(i + 1).map_values(|c: char| fold_char(*self, c)));
            i = i + 1;
        }
        assert(value@.take(n as int) == value@);
        out
    }
}

/// One part of a name as it was written: its text and, where it was quoted,
/// the quote character.
#[derive(Debug)]
pub struct Ident {
    pub value: String,
    pub quote_style: Option<char>,
}

impl View for Ident {
    type V = IdentName;

    open spec fn view(&self) -> IdentName {
        IdentName { value: self.value@, quoted: self.quote_style is Some }
    }
}

impl Ident {
    /// An unquoted identifier.
    pub fn new(value: &str) -> (r: Ident)
        ensures
            r.value@ == value@,
            r.quote_style is None,
    {
        Ident { value: value.to_owned(), quote_style: None }
    }

    /// An identifier that was written between quotes `quote`.
    pub fn with_quote(quote: char, value: &str) -> (r: Ident)
        ensures
            r.value@ == value@,
            r.quote_style == Some(quote),
    {
        Ident { value: value.to_owned(), quote_style: Some(quote) }
    }
}

impl Clone for Ident {
    fn clone(&self) -> (r: Ident)
        ensures
            r == *self,
    {
        Ident { value: self.value.clone(), quote_style: self.quote_style }
    }
}

/// Copies a vector of strings.
pub fn clone_strings(v: &Vec<String>) -> (r: Vec<String>)
    ensures
        r@ == v@,
{
    let mut out: Vec<String> = Vec::new();
    let mut i: usize = 0;
    while i < v.len()
        invariant
            i <= v.len(),
            out@ == v@.take(i as int),
        decreases v.len() - i,
    {
        out.push(v[i].clone());
        assert(v@.take(i + 1) == v@.take(i as int).push(v@[i as int]));
        i = i + 1;
    }
    assert(v@.take(v.len() as int) == v@);
    out
}

/// Whether two vectors of strings hold the same texts in the same order.
pub fn same_strings(a: &Vec<String>, b: &Vec<String>) -> (r: bool)
    ensures
        r == (strings_view(a@) == strings_view(b@)),
{
    if a.len() != b.len() {
        assert(strings_view(a@).len() != strings_view(b@).len());
        return false;
    }
    let mut i: usize = 0;
    while i < a.len()
        invariant
            i <= a.len(),
            a.len() == b.len(),
            forall|j: int| 0 <= j < i ==> a@[j]@ == b@[j]@,
        decreases a.len() - i,
    {
        if a[i] != b[i] {
            assert(strings_view(a@)[i as int] != strings_view(b@)[i as int]);
            return false;
        }
        i = i + 1;
    }
    assert(strings_view(a@) =~= strings_view(b@));
    true
}

/// A table, known by its normalized qualified name.
#[derive(Debug)]
pub struct DbTableMeta {
    parts: Vec<String>,
    dialect: Dialect,
}

impl View for DbTableMeta {
    type V = TableName;

    closed spec fn view(&self) -> TableName {
        strings_view(self.parts@)
    }
}

impl DbTableMeta {
    /// The dialect under which the name was normalized.
    pub closed spec fn spec_dialect(&self) -> Dialect {
        self.dialect
    }

    /// The table that `name` denotes in `dialect`: each part is normalized,
    /// and `default_schema` is put in front of an unqualified name.
    pub fn new(name: Vec<Ident>, dialect: Dialect, default_schema: Option<String>) -> (r:
        DbTableMeta)
        ensures
            r@ == table_name(dialect, views(name@), opt_string_view(default_schema)),
            r.spec_dialect() == dialect,
    {
        let mut parts: Vec<String> = Vec::new();
        let mut i: usize = 0;
        while i < name.len()
            invariant
                i <= name.len(),
                parts.len() == i,
                strings_view(parts@) == normalized_parts(dialect, views(name@.take(i as int))),
            decreases name.len() - i,
        {
            let quoted = name[i].quote_style.is_some();
            let part = dialect.canonical_name(name[i].value.as_str(), quoted);
            let ghost before = strings_view(parts@);
            parts.push(part);
            proof {
                let after = normalized_parts(dialect, views(name@.take(i + 1)));
                assert(strings_view(parts@).len() == after.len());
                assert forall|j: int| 0 <= j < after.len() implies strings_view(parts@)[j]
                    == after[j] by {
                    if j < i {
                        assert(strings_view(parts@)[j] == before[j]);
                        assert(name@.take(i as int)[j] == name@.take(i + 1)[j]);
                    }
                }
                assert(strings_view(parts@) =~= after);
            }
            i = i + 1;
        }
        assert(name@.take(name.len() as int) == name@);
        if parts.len() == 1 {
            if let Some(schema) = default_schema {
                let only = parts[0].clone();
                let mut qualified: Vec<String> = Vec::new();
                qualified.push(schema);
                qualified.push(only);
                assert(strings_view(qualified@) =~= seq![schema@, only@]);
                return DbTableMeta { parts: qualified, dialect };
            }
        }
        DbTableMeta { parts, dialect }
    }

    /// The table with the single name part `name`, under the generic
    /// dialect and without a default schema.
    pub fn new_default_dialect(name: String) -> (r: DbTableMeta)
        ensures
            r@ == seq![normalize(Dialect::Generic, name@, false)],
            r.spec_dialect() == Dialect::Generic,
    {
        let mut idents: Vec<Ident> = Vec::new();
        idents.push(Ident { value: name, quote_style: None });
        let r = DbTableMeta::new(idents, Dialect::Generic, None);
        assert(r@ =~= seq![normalize(Dialect::Generic, name@, false)]);
        r
    }

    /// A resource that is no relation, such as a storage location: its
    /// parts are taken as they stand, without folding and without a schema.
    pub fn verbatim(name: Vec<Ident>, dialect: Dialect) -> (r: DbTableMeta)
        ensures
            r@ == verbatim_parts(views(name@)),
            r.spec_dialect() == dialect,
    {
        let mut parts: Vec<String> = Vec::new();
        let mut i: usize = 0;
        while i < name.len()
            invariant
                i <= name.len(),
                parts.len() == i,
                strings_view(parts@) == verbatim_parts(views(name@.take(i as int))),
            decreases name.len() - i,
        {
            let ghost before = strings_view(parts@);
            parts.push(name[i].value.clone());
            proof {
                let after = verbatim_parts(views(name@.take(i + 1)));
                assert(strings_view(parts@).len() == after.len());
                assert forall|j: int| 0 <= j < after.len() implies strings_view(parts@)[j]
                    == after[j] by {
                    if j < i {
                        assert(strings_view(parts@)[j] == before[j]);
                        assert(name@.take(i as int)[j] == name@.take(i + 1)[j]);
                    }
                }
                assert(strings_view(parts@) =~= after);
            }
            i = i + 1;
        }
        assert(name@.take(name.len() as int) == name@);
        DbTableMeta { parts, dialect }
    }

    /// The dialect under which the name was normalized.
    pub fn dialect(&self) -> (d: Dialect)
        ensures
            d == self.spec_dialect(),
    {
        self.dialect
    }

    /// The normalized parts of the name, outermost first.
    pub fn parts(&self) -> (p: &Vec<String>)
        ensures
            strings_view(p@) == self@,
    {
        &self.parts
    }

    /// The qualified name as text, its parts joined by a dot.
    pub fn qualified_name(&self) -> (s: String)
        ensures
            s@ == joined(self@),
    {
        let mut out = String::new();
        let mut i: usize = 0;
        while i < self.parts.len()
            invariant
                i <= self.parts.len(),
                out@ == joined(strings_view(self.parts@).take(i as int)),
            decreases self.parts.len() - i,
        {
            if i > 0 {
                out.push('.');
            }
            out.append(self.parts[i].as_str());
            proof {
                let all = strings_view(self.parts@);
                assert(all.take(i + 1).drop_last() == all.take(i as int));
                assert(all.take(i + 1).last() == self.parts@[i as int]@);
            }
            i = i + 1;
        }
        assert(strings_view(self.parts@).take(self.parts.len() as int) == strings_view(
            self.parts@,
        ));
        out
    }

    /// Whether the two tables are the same table.
    pub fn same_as(&self, other: &DbTableMeta) -> (r: bool)
        ensures
            r == (self@ == other@),
    {
        same_strings(&self.parts, &other.parts)
    }
}

/// The parts of a name joined by a dot.
pub open spec fn joined(parts: Seq<Seq<char>>) -> Seq<char>
    decreases parts.len(),
{
    if parts.len() == 0 {
        Seq::empty()
    } else if parts.len() == 1 {
        parts[0]
    } else {
        joined(parts.drop_last()).push('.') + parts.last()
    }
}

impl Clone for DbTableMeta {
    fn clone(&self) -> (r: DbTableMeta)
        ensures
            r@ == self@,
            r.spec_dialect() == self.spec_dialect(),
    {
        DbTableMeta { parts: clone_strings(&self.parts), dialect: self.dialect }
    }
}

impl PartialEq for DbTableMeta {
    fn eq(&self, other: &DbTableMeta) -> (r: bool) {
        self.same_as(other)
    }
}

impl PartialEqSpecImpl for DbTableMeta {
    open spec fn obeys_eq_spec() -> bool {
        true
    }

    open spec fn eq_spec(&self, other: &DbTableMeta) -> bool {
        self@ == other@
    }
}

/// The view of an optional table.
pub open spec fn opt_table_view(t: Option<DbTableMeta>) -> Option<TableName> {
    match t {
        Some(t) => Some(t@),
        None => None,
    }
}

/// Copies an optional table.
pub fn clone_opt_table(t: &Option<DbTableMeta>) -> (r: Option<DbTableMeta>)
    ensures
        opt_table_view(r) == opt_table_view(*t),
{
    match t {
        Some(t) => Some(t.clone()),
        None => None,
    }
}

/// A column as the model sees it: its name and the table that owns it, if
/// that table is known.
pub struct ColumnName {
    pub name: Seq<char>,
    pub origin: Option<TableName>,
}

/// A column reference: a name and the table that owns it. The owner is
/// `None` while it is not resolved.
#[derive(Debug)]
pub struct ColumnMeta {
    pub name: String,
    pub origin: Option<DbTableMeta>,
}

impl View for ColumnMeta {
    type V = ColumnName;

    open spec fn view(&self) -> ColumnName {
        ColumnName { name: self.name@, origin: opt_table_view(self.origin) }
    }
}

impl ColumnMeta {
    pub fn new(name: String, origin: Option<DbTableMeta>) -> (r: ColumnMeta)
        ensures
            r.name == name,
            r.origin == origin,
    {
        ColumnMeta { name, origin }
    }

    /// Whether the two references name the same column of the same table.
    pub fn same_as(&self, other: &ColumnMeta) -> (r: bool)
        ensures
            r == (self@ == other@),
    {
        if self.name != other.name {
            return false;
        }
        match (&self.origin, &other.origin) {
            (Some(a), Some(b)) => a.same_as(b),
            (None, None) => true,
            _ => false,
        }
    }
}

impl Clone for ColumnMeta {
    fn clone(&self) -> (r: ColumnMeta)
        ensures
            r@ == self@,
    {
        ColumnMeta { name: self.name.clone(), origin: clone_opt_table(&self.origin) }
    }
}

impl PartialEq for ColumnMeta {
    fn eq(&self, other: &ColumnMeta) -> (r: bool) {
        self.same_as(other)
    }
}

impl PartialEqSpecImpl for ColumnMeta {
    open spec fn obeys_eq_spec() -> bool {
        true
    }

    open spec fn eq_spec(&self, other: &ColumnMeta) -> bool {
        self@ == other@
    }
}

} // verus!
