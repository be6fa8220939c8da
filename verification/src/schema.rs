//! Typed columns: which data types a table may hold, and schemas made of
//! supported columns only.

use vstd::prelude::*;
use vstd::std_specs::convert::{FromSpecImpl, IntoSpec, TryFromSpecImpl};
use vstd::string::StringExecFns;

use crate::scalars::same_text;

verus! {

/// Name of the column that holds the time of a row.
pub const TIME_COL_NAME: &'static str = "time";

/// The type of a field, as tables know it.
#[derive(Debug, Clone, Copy, PartialEq, Eq, Structural)]
pub enum FieldType {
    Int,
    Str,
    Time,
}

/// The data type of a column, as the columnar store names it. Of a type that
/// no field can have, only the name is kept.
#[derive(Debug, Clone, PartialEq, Eq)]
pub enum DataType {
    Int32,
    Utf8,
    Other(String),
}

/// A `DataType` with a name as a sequence.
pub enum DataTypeView {
    Int32,
    Utf8,
    Other(Seq<char>),
}

impl View for DataType {
    type V = DataTypeView;

    open spec fn view(&self) -> DataTypeView {
        match self {
            DataType::Int32 => DataTypeView::Int32,
            DataType::Utf8 => DataTypeView::Utf8,
            DataType::Other(name) => DataTypeView::Other(name@),
        }
    }
}

/// Why a schema or a field type could not be made.
#[derive(Debug, Clone, PartialEq, Eq)]
pub enum SchemaError {
    /// No field type has this name, or stands for this data type.
    UnknownType,
    /// A column has a data type that no field can have.
    UnsupportedDataType { data_type: String, column: String },
}

/// The field type that a data type stands for, if any.
pub open spec fn field_type_of(data_type: DataTypeView) -> Option<FieldType> {
    match data_type {
        DataTypeView::Utf8 => Some(FieldType::Str),
        DataTypeView::Int32 => Some(FieldType::Int),
        DataTypeView::Other(_) => None,
    }
}

/// The data type in which a field of the given type is stored.
pub open spec fn data_type_of(field_type: FieldType) -> DataTypeView {
    match field_type {
        FieldType::Int => DataTypeView::Int32,
        FieldType::Str => DataTypeView::Utf8,
        FieldType::Time => DataTypeView::Int32,
    }
}

/// The field type with the given name, if any.
pub open spec fn field_data_type_named(name: Seq<char>) -> Option<FieldType> {
    if name == "string"@ {
        Some(FieldType::Str)
    } else if name == "int"@ {
        Some(FieldType::Int)
    } else if name == "time"@ {
        Some(FieldType::Time)
    } else {
        None
    }
}

impl FieldType {
    /// The field type with the given name: `string`, `int` or `time`.
    pub fn from_name(name: &str) -> (r: Result<FieldType, SchemaError>)
        ensures
            r is Ok <==> field_data_type_named(name@) is Some,
            r matches Ok(t) ==> field_data_type_named(name@) == Some(t),
            r matches Err(e) ==> e == SchemaError::UnknownType,
    {
        if same_text(name, "string") {
            Ok(FieldType::Str)
        } else if same_text(name, "int") {
            Ok(FieldType::Int)
        } else if same_text(name, "time") {
            Ok(FieldType::Time)
        } else {
            Err(SchemaError::UnknownType)
        }
    }

    /// The field type that `data_type` stands for: text for strings and `Int`
    /// for 32-bit integers.
    pub fn from_data_type(data_type: &DataType) -> (r: Result<FieldType, SchemaError>)
        ensures
            r is Ok <==> field_type_of(data_type@) is Some,
            r matches Ok(t) ==> field_type_of(data_type@) == Some(t),
            r matches Err(e) ==> e == SchemaError::UnknownType,
    {
        match data_type {
            DataType::Utf8 => Ok(FieldType::Str),
            DataType::Int32 => Ok(FieldType::Int),
            _ => Err(SchemaError::UnknownType),
        }
    }
}

impl<'a> TryFrom<&'a str> for FieldType {
    type Error = SchemaError;

    fn try_from(name: &'a str) -> (r: Result<FieldType, SchemaError>) {
        FieldType::from_name(name)
    }
}

impl<'a> TryFromSpecImpl<&'a str> for FieldType {
    open spec fn obeys_try_from_spec() -> bool {
        true
    }

    open spec fn try_from_spec(name: &'a str) -> Result<FieldType, SchemaError> {
        match field_data_type_named(name@) {
            Some(t) => Ok(t),
            None => Err(SchemaError::UnknownType),
        }
    }
}

impl<'a> TryFrom<&'a DataType> for FieldType {
    type Error = SchemaError;

    fn try_from(data_type: &'a DataType) -> (r: Result<FieldType, SchemaError>) {
        FieldType::from_data_type(data_type)
    }
}

impl<'a> TryFromSpecImpl<&'a DataType> for FieldType {
    open spec fn obeys_try_from_spec() -> bool {
        true
    }

    open spec fn try_from_spec(data_type: &'a DataType) -> Result<FieldType, SchemaError> {
        match field_type_of(data_type@) {
            Some(t) => Ok(t),
            None => Err(SchemaError::UnknownType),
        }
    }
}

impl From<FieldType> for DataType {
    fn from(field_type: FieldType) -> (r: DataType) {
        match field_type {
            FieldType::Int => DataType::Int32,
            FieldType::Str => DataType::Utf8,
            FieldType::Time => DataType::Int32,
        }
    }
}

impl FromSpecImpl<FieldType> for DataType {
    open spec fn obeys_from_spec() -> bool {
        true
    }

    open spec fn from_spec(field_type: FieldType) -> DataType {
        match field_type {
            FieldType::Int => DataType::Int32,
            FieldType::Str => DataType::Utf8,
            FieldType::Time => DataType::Int32,
        }
    }
}

/// A named column with its data type.
#[derive(Debug, Clone, PartialEq, Eq)]
pub struct Field {
    name: String,
    data_type: DataType,
    nullable: bool,
}

/// A `Field` with its name as a sequence.
pub struct FieldView {
    pub name: Seq<char>,
    pub data_type: DataTypeView,
    pub nullable: bool,
}

impl View for Field {
    type V = FieldView;

    closed spec fn view(&self) -> FieldView {
        FieldView { name: self.name@, data_type: self.data_type@, nullable: self.nullable }
    }
}

impl Field {
    /// A column called `name` that holds `data_type`.
    pub fn new(name: &str, data_type: DataType, nullable: bool) -> (r: Field)
        ensures
            r@ == (FieldView { name: name@, data_type: data_type@, nullable }),
    {
        Field { name: name.to_owned(), data_type, nullable }
    }

    /// The name of the column.
    pub fn name(&self) -> (r: &str)
        ensures
            r@ == self@.name,
    {
        self.name.as_str()
    }

    /// The data type of the column.
    pub fn data_type(&self) -> (r: &DataType)
        ensures
            r@ == self@.data_type,
    {
        &self.data_type
    }

    /// Whether the column may hold rows without a value.
    pub fn is_nullable(&self) -> (r: bool)
        ensures
            r == self@.nullable,
    {
        self.nullable
    }
}

/// The views of the fields of `fields`.
pub open spec fn fields_view(fields: Seq<Field>) -> Seq<FieldView> {
    Seq::new(fields.len(), |i: int| fields[i]@)
}

/// Whether a field of every one of the columns can be had.
pub open spec fn all_supported(fields: Seq<FieldView>) -> bool {
    forall|i: int| 0 <= i < fields.len() ==> field_type_of(#[trigger] fields[i].data_type) is Some
}

/// Whether `i` is the place of the first column that no field can be had of.
pub open spec fn first_unsupported(fields: Seq<FieldView>, i: int) -> bool {
    &&& 0 <= i < fields.len()
    &&& field_type_of(fields[i].data_type) is None
    &&& all_supported(fields.subrange(0, i))
}

/// The name under which a data type is reported.
pub open spec fn data_type_name(data_type: DataTypeView) -> Seq<char> {
    match data_type {
        DataTypeView::Int32 => "Int32"@,
        DataTypeView::Utf8 => "Utf8"@,
        DataTypeView::Other(name) => name,
    }
}

impl DataType {
    /// The name under which the data type is reported.
    pub fn name(&self) -> (r: String)
        ensures
            r@ == data_type_name(self@),
    {
        match self {
            DataType::Int32 => "Int32".to_owned(),
            DataType::Utf8 => "Utf8".to_owned(),
            DataType::Other(name) => name.clone(),
        }
    }
}

impl SchemaError {
    /// What went wrong, in words.
    pub fn message(&self) -> (r: String)
        ensures
            r@ == match *self {
                SchemaError::UnknownType => "Unknown type"@,
                SchemaError::UnsupportedDataType { data_type, column } => "Unsupported data type("@
                    + data_type@ + ") used for column: "@ + column@,
            },
    {
        match self {
            SchemaError::UnknownType => "Unknown type".to_owned(),
            SchemaError::UnsupportedDataType { data_type, column } => {
                let mut text = "Unsupported data type(".to_owned();
                text.append(data_type.as_str());
                text.append(") used for column: ");
                text.append(column.as_str());
                text
            },
        }
    }
}

/// The columns of a table.
#[derive(Debug)]
pub struct Schema {
    inner: Vec<Field>,
}

impl View for Schema {
    type V = Seq<FieldView>;

    closed spec fn view(&self) -> Seq<FieldView> {
        fields_view(self.inner@)
    }
}

impl Schema {
    /// A schema of the given columns, taken as they are.
    pub fn new(inner: Vec<Field>) -> (r: Schema)
        ensures
            r@ == fields_view(inner@),
    {
        Schema { inner }
    }

    /// The columns, one at a time.
    pub fn iter(&self) -> (r: SchemaIterator<'_>)
        ensures
            r.fields() == self@,
            r.position() == 0,
    {
        SchemaIterator::new(self)
    }

    /// Whether a field can have the data type.
    pub fn is_supported_type(data_type: &DataType) -> (r: bool)
        ensures
            r == field_type_of(data_type@) is Some,
    {
        FieldType::from_data_type(data_type).is_ok()
    }

    /// A schema of the given columns, if a field can be had of each.
    pub fn new_with_fields(domain: Option<String>, fields: Vec<Field>) -> (r: Result<
        Schema,
        SchemaError,
    >)
        ensures
            r is Ok <==> all_supported(fields_view(fields@)),
            r matches Ok(schema) ==> schema@ == fields_view(fields@),
            r matches Err(e) ==> exists|i: int|
                first_unsupported(fields_view(fields@), i) && unsupported_at(
                    e,
                    fields_view(fields@),
                    i,
                ),
    {
        Schema::try_from(fields)
    }

    /// The columns of the schema.
    pub fn inner(self) -> (r: Vec<Field>)
        ensures
            fields_view(r@) == self@,
    {
        self.inner
    }

    /// A schema of the given columns, if a field can be had of each; else
    /// the error names the first column of which none can be had.
    pub fn try_from(fields: Vec<Field>) -> (r: Result<Schema, SchemaError>)
        ensures
            r is Ok <==> all_supported(fields_view(fields@)),
            r matches Ok(schema) ==> schema@ == fields_view(fields@),
            r matches Err(e) ==> exists|i: int|
                first_unsupported(fields_view(fields@), i) && unsupported_at(
                    e,
                    fields_view(fields@),
                    i,
                ),
    {
        let ghost views = fields_view(fields@);
        let mut i: usize = 0;
        while i < fields.len()
            invariant
                i <= fields@.len(),
                views == fields_view(fields@),
                all_supported(views.subrange(0, i as int)),
            decreases fields@.len() - i,
        {
            let field = &fields[i];
            assert(views[i as int] == field@);
            if !Schema::is_supported_type(field.data_type()) {
                let e = SchemaError::UnsupportedDataType {
                    data_type: field.data_type().name(),
                    column: field.name().to_owned(),
                };
                assert(first_unsupported(views, i as int));
                assert(unsupported_at(e, views, i as int));
                assert(!all_supported(views));
                return Err(e);
            }
            assert forall|k: int| 0 <= k < i + 1 implies field_type_of(
                #[trigger] views.subrange(0, i + 1)[k].data_type,
            ) is Some by {
                if k < i {
                    assert(views.subrange(0, i as int)[k] == views[k]);
                }
            }
            i = i + 1;
        }
        assert(views.subrange(0, i as int) =~= views);
        Ok(Schema { inner: fields })
    }
}

/// Whether `e` reports the column at place `i` of `fields` as unsupported:
/// it names the data type and the column.
pub open spec fn unsupported_at(e: SchemaError, fields: Seq<FieldView>, i: int) -> bool {
    e matches SchemaError::UnsupportedDataType { data_type, column } && data_type@ == data_type_name(
        fields[i].data_type,
    ) && column@ == fields[i].name
}

/// The columns of a schema that are still to come.
#[derive(Debug)]
pub struct SchemaIterator<'a> {
    schema: &'a Schema,
    index: usize,
}

impl<'a> SchemaIterator<'a> {
    /// The columns that the iterator walks.
    pub closed spec fn fields(&self) -> Seq<FieldView> {
        self.schema@
    }

    /// Number of columns that have been handed out.
    pub closed spec fn position(&self) -> nat {
        self.index as nat
    }

    /// An iterator over the columns of `schema`, from the first.
    pub fn new(schema: &'a Schema) -> (r: SchemaIterator<'a>)
        ensures
            r.fields() == schema@,
            r.position() == 0,
    {
        Self { schema, index: 0 }
    }

    /// The next column, or `None` after the last.
    pub fn next(&mut self) -> (r: Option<&'a Field>)
        ensures
            final(self).fields() == old(self).fields(),
            match r {
                Some(field) => old(self).position() < old(self).fields().len() && field@ == old(
                    self,
                ).fields()[old(self).position() as int] && final(self).position() == old(
                    self,
                ).position() + 1,
                None => old(self).position() >= old(self).fields().len() && final(self).position()
                    == old(self).position(),
            },
    {
        let schema: &'a Schema = self.schema;
        if self.index < schema.inner.len() {
            let field = &schema.inner[self.index];
            self.index = self.index + 1;
            Some(field)
        } else {
            None
        }
    }
}

/// Collects the columns of a schema one by one.
#[derive(Debug)]
pub struct SchemaBuilder {
    domain: Option<String>,
    fields: Vec<Field>,
}

impl Default for SchemaBuilder {
    fn default() -> (r: SchemaBuilder)
        ensures
            r.columns() == Seq::<FieldView>::empty(),
            r.domain_name() == None::<Seq<char>>,
    {
        let r = SchemaBuilder { domain: None, fields: Vec::new() };
        assert(r.columns() =~= Seq::<FieldView>::empty());
        r
    }
}

impl SchemaBuilder {
    /// The columns added so far, in order.
    pub closed spec fn columns(&self) -> Seq<FieldView> {
        fields_view(self.fields@)
    }

    /// The domain that was set, if any.
    pub closed spec fn domain_name(&self) -> Option<Seq<char>> {
        match self.domain {
            Some(d) => Some(d@),
            None => None,
        }
    }

    /// A builder with no columns and no domain.
    pub fn new() -> (r: SchemaBuilder)
        ensures
            r.columns() == Seq::<FieldView>::empty(),
            r.domain_name() == None::<Seq<char>>,
    {
        Self::default()
    }

    /// Sets the domain.
    pub fn domain(self, domain: &str) -> (r: SchemaBuilder)
        ensures
            r.columns() == self.columns(),
            r.domain_name() == Some(domain@),
    {
        let mut b = self;
        b.domain = Some(domain.to_owned());
        b
    }

    /// Adds a column called `name` for a field of the given type, or for
    /// anything else that converts into a data type.
    pub fn field<T: Into<DataType>>(self, name: &str, field_type: T) -> (r: SchemaBuilder)
        ensures
            T::obeys_into_spec() ==> r.columns() == self.columns().push(
                FieldView { name: name@, data_type: field_type.into_spec()@, nullable: false },
            ),
            r.columns().len() == self.columns().len() + 1,
            r.domain_name() == self.domain_name(),
    {
        self.add_column(name, field_type.into(), false)
    }

    /// Adds a column called `name` that holds `data_type`, whether a field
    /// can have that type or not.
    pub fn column(self, name: &str, data_type: DataType) -> (r: SchemaBuilder)
        ensures
            r.columns() == self.columns().push(
                FieldView { name: name@, data_type: data_type@, nullable: false },
            ),
            r.domain_name() == self.domain_name(),
    {
        self.add_column(name, data_type, false)
    }

    /// Adds the column that holds the time of a row.
    pub fn timestamp(self) -> (r: SchemaBuilder)
        ensures
            r.columns() == self.columns().push(
                FieldView {
                    name: TIME_COL_NAME@,
                    data_type: data_type_of(FieldType::Time),
                    nullable: false,
                },
            ),
            r.domain_name() == self.domain_name(),
    {
        self.add_column(TIME_COL_NAME, DataType::from(FieldType::Time), false)
    }

    /// The schema of the columns added, if a field can be had of each.
    pub fn build(self) -> (r: Result<Schema, SchemaError>)
        ensures
            r is Ok <==> all_supported(self.columns()),
            r matches Ok(schema) ==> schema@ == self.columns(),
            r matches Err(e) ==> exists|i: int|
                first_unsupported(self.columns(), i) && unsupported_at(e, self.columns(), i),
    {
        Schema::new_with_fields(self.domain, self.fields)
    }

    fn add_column(self, name: &str, data_type: DataType, nullable: bool) -> (r: SchemaBuilder)
        ensures
            r.columns() == self.columns().push(
                FieldView { name: name@, data_type: data_type@, nullable },
            ),
            r.domain_name() == self.domain_name(),
    {
        let mut b = self;
        b.fields.push(Field::new(name, data_type, nullable));
        assert(b.columns() =~= self.columns().push(
            FieldView { name: name@, data_type: data_type@, nullable },
        ));
        b
    }
}

} // verus!
