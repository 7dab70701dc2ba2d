//! The database-level schema model the driver reads: tables, columns,
//! primary keys and secondary indices, with Toasty's column types and the
//! database storage types.

use vstd::prelude::*;

verus! {

/// Identifies a column: the table it belongs to and its position there.
#[derive(Clone, Copy, PartialEq, Eq, Structural, Debug)]
pub struct ColumnId {
    pub table: usize,
    pub index: usize,
}

/// Identifies a field of a model (used by foreign-key column types).
#[derive(Clone, Copy, PartialEq, Eq, Structural, Debug)]
pub struct FieldId {
    pub model: usize,
    pub index: usize,
}

/// The payload-free Toasty value types.
#[derive(Clone, Copy, PartialEq, Eq, Structural, Debug)]
pub enum Scalar {
    Bool,
    String,
    I8,
    I16,
    I32,
    I64,
    U8,
    U16,
    U32,
    U64,
    F32,
    F64,
    Uuid,
    Object,
    Bytes,
    Decimal,
    BigDecimal,
    Timestamp,
    Zoned,
    Date,
    Time,
    DateTime,
    Cidr,
    Inet,
    MacAddr,
    MacAddr8,
    Null,
    Unit,
    Unknown,
    /// A record, sparse record or union type; columns never carry one.
    Composite,
}

/// Toasty's type of a column value.
#[derive(PartialEq, Eq, Debug)]
pub enum Type {
    Scalar(Scalar),
    Key(usize),
    Model(usize),
    ForeignKey(FieldId),
    List(Box<Type>),
}

impl Type {
    /// A copy of this type.
    pub fn duplicate(&self) -> (r: Type)
        ensures
            r == *self,
        decreases self,
    {
        match self {
            Type::Scalar(s) => Type::Scalar(*s),
            Type::Key(m) => Type::Key(*m),
            Type::Model(m) => Type::Model(*m),
            Type::ForeignKey(f) => Type::ForeignKey(*f),
            Type::List(inner) => Type::List(Box::new((**inner).duplicate())),
        }
    }

    /// Whether two types are equal.
    pub fn same(&self, other: &Type) -> (r: bool)
        ensures
            r == (*self == *other),
        decreases self,
    {
        match (self, other) {
            (Type::Scalar(a), Type::Scalar(b)) => *a == *b,
            (Type::Key(a), Type::Key(b)) => *a == *b,
            (Type::Model(a), Type::Model(b)) => *a == *b,
            (Type::ForeignKey(a), Type::ForeignKey(b)) => *a == *b,
            (Type::List(a), Type::List(b)) => (**a).same(&**b),
            _ => false,
        }
    }
}

/// A database enum type: an optional name and the variant names.
#[derive(Debug)]
pub struct EnumType {
    pub name: Option<String>,
    pub variants: Vec<String>,
}

/// The database storage type of a column.
#[derive(Debug)]
pub enum StorageType {
    Boolean,
    Integer(u8),
    UnsignedInteger(u8),
    Float(u8),
    Text,
    VarChar(u64),
    Uuid,
    Numeric(Option<(u32, u32)>),
    Blob,
    Binary(u8),
    Timestamp(u8),
    Date,
    Time(u8),
    DateTime(u8),
    Cidr,
    Inet,
    MacAddr,
    MacAddr8,
    Enum(EnumType),
    List(Box<StorageType>),
    Document { binary: bool },
    Json,
    Jsonb,
    Custom(String),
}

/// Two optional names are equal as character sequences.
pub open spec fn same_name(a: Option<String>, b: Option<String>) -> bool {
    match (a, b) {
        (Some(x), Some(y)) => x@ == y@,
        (None, None) => true,
        _ => false,
    }
}

/// Two name lists are equal as character sequences.
pub open spec fn same_names(a: Seq<String>, b: Seq<String>) -> bool {
    a.len() == b.len() && forall|i: int| 0 <= i < a.len() ==> #[trigger] a[i]@ == b[i]@
}

impl StorageType {
    /// Equality of storage types (names compared by their characters).
    pub open spec fn equals(self, other: StorageType) -> bool
        decreases self,
    {
        match (self, other) {
            (StorageType::Boolean, StorageType::Boolean) => true,
            (StorageType::Integer(a), StorageType::Integer(b)) => a == b,
            (StorageType::UnsignedInteger(a), StorageType::UnsignedInteger(b)) => a == b,
            (StorageType::Float(a), StorageType::Float(b)) => a == b,
            (StorageType::Text, StorageType::Text) => true,
            (StorageType::VarChar(a), StorageType::VarChar(b)) => a == b,
            (StorageType::Uuid, StorageType::Uuid) => true,
            (StorageType::Numeric(a), StorageType::Numeric(b)) => a == b,
            (StorageType::Blob, StorageType::Blob) => true,
            (StorageType::Binary(a), StorageType::Binary(b)) => a == b,
            (StorageType::Timestamp(a), StorageType::Timestamp(b)) => a == b,
            (StorageType::Date, StorageType::Date) => true,
            (StorageType::Time(a), StorageType::Time(b)) => a == b,
            (StorageType::DateTime(a), StorageType::DateTime(b)) => a == b,
            (StorageType::Cidr, StorageType::Cidr) => true,
            (StorageType::Inet, StorageType::Inet) => true,
            (StorageType::MacAddr, StorageType::MacAddr) => true,
            (StorageType::MacAddr8, StorageType::MacAddr8) => true,
            (StorageType::Enum(a), StorageType::Enum(b)) => same_name(a.name, b.name)
                && same_names(a.variants@, b.variants@),
            (StorageType::List(a), StorageType::List(b)) => (*a).equals(*b),
            (StorageType::Document { binary: a }, StorageType::Document { binary: b }) => a == b,
            (StorageType::Json, StorageType::Json) => true,
            (StorageType::Jsonb, StorageType::Jsonb) => true,
            (StorageType::Custom(a), StorageType::Custom(b)) => a@ == b@,
            _ => false,
        }
    }

    /// Whether two storage types are equal.
    pub fn same(&self, other: &StorageType) -> (r: bool)
        ensures
            r == self.equals(*other),
        decreases self,
    {
        match (self, other) {
            (StorageType::Boolean, StorageType::Boolean) => true,
            (StorageType::Integer(a), StorageType::Integer(b)) => *a == *b,
            (StorageType::UnsignedInteger(a), StorageType::UnsignedInteger(b)) => *a == *b,
            (StorageType::Float(a), StorageType::Float(b)) => *a == *b,
            (StorageType::Text, StorageType::Text) => true,
            (StorageType::VarChar(a), StorageType::VarChar(b)) => *a == *b,
            (StorageType::Uuid, StorageType::Uuid) => true,
            (StorageType::Numeric(a), StorageType::Numeric(b)) => match (a, b) {
                (Some((p1, s1)), Some((p2, s2))) => *p1 == *p2 && *s1 == *s2,
                (None, None) => true,
                _ => false,
            },
            (StorageType::Blob, StorageType::Blob) => true,
            (StorageType::Binary(a), StorageType::Binary(b)) => *a == *b,
            (StorageType::Timestamp(a), StorageType::Timestamp(b)) => *a == *b,
            (StorageType::Date, StorageType::Date) => true,
            (StorageType::Time(a), StorageType::Time(b)) => *a == *b,
            (StorageType::DateTime(a), StorageType::DateTime(b)) => *a == *b,
            (StorageType::Cidr, StorageType::Cidr) => true,
            (StorageType::Inet, StorageType::Inet) => true,
            (StorageType::MacAddr, StorageType::MacAddr) => true,
            (StorageType::MacAddr8, StorageType::MacAddr8) => true,
            (StorageType::Enum(a), StorageType::Enum(b)) => {
                let names_equal = match (&a.name, &b.name) {
                    (Some(x), Some(y)) => *x == *y,
                    (None, None) => true,
                    _ => false,
                };
                names_equal && same_string_lists(&a.variants, &b.variants)
            },
            (StorageType::List(a), StorageType::List(b)) => (**a).same(&**b),
            (StorageType::Document { binary: a }, StorageType::Document { binary: b }) => *a == *b,
            (StorageType::Json, StorageType::Json) => true,
            (StorageType::Jsonb, StorageType::Jsonb) => true,
            (StorageType::Custom(a), StorageType::Custom(b)) => *a == *b,
            _ => false,
        }
    }

    /// Whether this is the native JSON storage type.
    pub fn is_json(&self) -> (r: bool)
        ensures
            r == (*self is Json),
    {
        match self {
            StorageType::Json => true,
            _ => false,
        }
    }
}

/// A table column.
#[derive(Debug)]
pub struct Column {
    pub id: ColumnId,
    pub name: String,
    pub ty: Type,
    pub storage_ty: StorageType,
}

/// A table index over some of its columns.
#[derive(Debug)]
pub struct Index {
    pub name: String,
    pub columns: Vec<ColumnId>,
    pub unique: bool,
    pub primary_key: bool,
}

/// A database table.
#[derive(Debug)]
pub struct Table {
    pub id: usize,
    pub name: String,
    pub columns: Vec<Column>,
    /// The primary-key columns, in key order.
    pub primary_key: Vec<ColumnId>,
    pub indices: Vec<Index>,
}

/// Every column an index refers to is a column of `table`.
pub open spec fn index_in(table: Table, index: Index) -> bool {
    forall|k: int| 0 <= k < index.columns@.len() ==> (#[trigger] index.columns@[k]).index
        < table.columns@.len()
}

/// Whether every column of the index is a column of the table.
pub fn index_ok(table: &Table, index: &Index) -> (r: bool)
    ensures
        r == index_in(*table, *index),
{
    let n = index.columns.len();
    let mut i: usize = 0;
    while i < n
        invariant
            n == index.columns@.len(),
            i <= n,
            forall|k: int| 0 <= k < i ==> (#[trigger] index.columns@[k]).index < table.columns@.len(),
        decreases n - i,
    {
        if index.columns[i].index >= table.columns.len() {
            return false;
        }
        i = i + 1;
    }
    true
}

/// Whether the table is well formed (see [`Table::wf`]).
pub fn table_ok(table: &Table) -> (r: bool)
    ensures
        r == table.wf(),
{
    let n = table.primary_key.len();
    let mut i: usize = 0;
    while i < n
        invariant
            n == table.primary_key@.len(),
            i <= n,
            forall|k: int| 0 <= k < i ==> (#[trigger] table.primary_key@[k]).index < table.columns@.len(),
        decreases n - i,
    {
        if table.primary_key[i].index >= table.columns.len() {
            return false;
        }
        i = i + 1;
    }
    let m = table.indices.len();
    let mut j: usize = 0;
    while j < m
        invariant
            m == table.indices@.len(),
            j <= m,
            forall|k: int| 0 <= k < n ==> (#[trigger] table.primary_key@[k]).index < table.columns@.len(),
            n == table.primary_key@.len(),
            forall|k: int| 0 <= k < j ==> index_in(*table, #[trigger] table.indices@[k]),
        decreases m - j,
    {
        if !index_ok(table, &table.indices[j]) {
            return false;
        }
        j = j + 1;
    }
    true
}

impl Table {
    /// The column a column id designates (its position in the table).
    pub open spec fn col(self, id: ColumnId) -> Column {
        self.columns@[id.index as int]
    }

    /// Primary-key and index column ids all designate columns of the table.
    pub open spec fn wf(self) -> bool {
        &&& forall|k: int| 0 <= k < self.primary_key@.len() ==> (#[trigger] self.primary_key@[k]).index
            < self.columns@.len()
        &&& forall|k: int| 0 <= k < self.indices@.len() ==> index_in(self, #[trigger] self.indices@[k])
    }

    /// Whether `id` is one of the primary-key columns.
    pub open spec fn spec_is_primary_key(self, id: ColumnId) -> bool {
        self.primary_key@.contains(id)
    }

    /// Whether the column `id` is part of the table's primary key.
    ///
    /// Primary-key membership is recorded only in the table's primary-key
    /// column list, so that list is the authoritative source.
    pub fn is_primary_key(&self, id: ColumnId) -> (r: bool)
        ensures
            r == self.spec_is_primary_key(id),
    {
        let n = self.primary_key.len();
        let mut i: usize = 0;
        while i < n
            invariant
                n == self.primary_key@.len(),
                i <= n,
                forall|k: int| 0 <= k < i ==> self.primary_key@[k] != id,
            decreases n - i,
        {
            if self.primary_key[i] == id {
                return true;
            }
            i = i + 1;
        }
        false
    }

    /// The position of `id` among the primary-key columns, if it is one.
    pub fn primary_key_position(&self, id: ColumnId) -> (r: Option<usize>)
        ensures
            match r {
                Some(p) => p < self.primary_key@.len() && self.primary_key@[p as int] == id
                    && forall|k: int| 0 <= k < p ==> self.primary_key@[k] != id,
                None => !self.spec_is_primary_key(id),
            },
    {
        let n = self.primary_key.len();
        let mut i: usize = 0;
        while i < n
            invariant
                n == self.primary_key@.len(),
                i <= n,
                forall|k: int| 0 <= k < i ==> self.primary_key@[k] != id,
            decreases n - i,
        {
            if self.primary_key[i] == id {
                return Some(i);
            }
            i = i + 1;
        }
        None
    }
}

/// Whether two string lists hold the same names in the same order.
pub fn same_string_lists(a: &Vec<String>, b: &Vec<String>) -> (r: bool)
    ensures
        r == same_names(a@, b@),
{
    if a.len() != b.len() {
        return false;
    }
    let n = a.len();
    let mut i: usize = 0;
    while i < n
        invariant
            n == a@.len(),
            n == b@.len(),
            i <= n,
            forall|k: int| 0 <= k < i ==> #[trigger] a@[k]@ == b@[k]@,
        decreases n - i,
    {
        if a[i] != b[i] {
            return false;
        }
        i = i + 1;
    }
    true
}

} // verus!
