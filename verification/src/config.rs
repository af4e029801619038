//! The schema of a run: one entry per input column, an optional sort column
//! and the sources of the run's filters.

use vstd::prelude::*;

verus! {

/// A column whose text is converted to a typed value.
#[derive(Debug)]
pub enum TypedField {
    /// A calendar date, read with `format`.
    Date { name: String, format: String },
    /// A decimal number.
    Number { name: String },
}

/// One column of the schema.
#[derive(Debug)]
pub enum ConfigField {
    Typed(TypedField),
    /// A column that keeps its text; the string is the column's name.
    Basic(String),
}

/// The schema of a run.
#[derive(Debug)]
pub struct Config {
    /// The columns, in input order.
    pub fields: Vec<ConfigField>,
    /// The name of the column to sort by, if any.
    pub sort: Option<String>,
    /// The sources of the filters, if any.
    pub filter: Option<Vec<String>>,
}

/// The mathematical value of a `ConfigField`.
pub ghost enum Column {
    Date { name: Seq<char>, format: Seq<char> },
    Number { name: Seq<char> },
    Basic { name: Seq<char> },
}

impl Column {
    pub open spec fn name(self) -> Seq<char> {
        match self {
            Column::Date { name, .. } => name,
            Column::Number { name } => name,
            Column::Basic { name } => name,
        }
    }
}

/// The mathematical value of a `Config`, without its filter sources.
pub ghost struct Schema {
    pub columns: Seq<Column>,
    pub sort: Option<Seq<char>>,
}

/// The index of the last of `columns` that is called `name`.
pub open spec fn last_named(columns: Seq<Column>, name: Seq<char>) -> Option<int>
    decreases columns.len(),
{
    if columns.len() == 0 {
        None
    } else if columns.last().name() == name {
        Some(columns.len() - 1)
    } else {
        last_named(columns.drop_last(), name)
    }
}

impl Schema {
    /// The position of the sort column: the rightmost column that bears the
    /// sort name. A schema without a sort name has none, and so has one whose
    /// sort name no column bears.
    pub open spec fn sort_index(self) -> Option<int> {
        match self.sort {
            Some(name) => last_named(self.columns, name),
            None => None,
        }
    }
}

impl View for TypedField {
    type V = Column;

    open spec fn view(&self) -> Column {
        match self {
            TypedField::Date { name, format } => Column::Date { name: name@, format: format@ },
            TypedField::Number { name } => Column::Number { name: name@ },
        }
    }
}

impl View for ConfigField {
    type V = Column;

    open spec fn view(&self) -> Column {
        match self {
            ConfigField::Typed(typed) => typed@,
            ConfigField::Basic(name) => Column::Basic { name: name@ },
        }
    }
}

impl View for Config {
    type V = Schema;

    open spec fn view(&self) -> Schema {
        Schema {
            columns: self.fields@.map_values(|field: ConfigField| field@),
            sort: match self.sort {
                Some(name) => Some(name@),
                None => None,
            },
        }
    }
}

impl TypedField {
    /// The column's name.
    pub fn name(&self) -> (name: &str)
        ensures
            name@ == self@.name(),
    {
        match self {
            TypedField::Date { name, .. } => name.as_str(),
            TypedField::Number { name } => name.as_str(),
        }
    }
}

impl ConfigField {
    /// The column's name.
    pub fn name(&self) -> (name: &str)
        ensures
            name@ == self@.name(),
    {
        match self {
            ConfigField::Typed(typed) => typed.name(),
            ConfigField::Basic(name) => name.as_str(),
        }
    }

    /// Whether the column is called `name`.
    fn is_named(&self, name: &String) -> (r: bool)
        ensures
            r == (self@.name() == name@),
    {
        match self {
            ConfigField::Typed(TypedField::Date { name: own, .. }) => *own == *name,
            ConfigField::Typed(TypedField::Number { name: own }) => *own == *name,
            ConfigField::Basic(own) => *own == *name,
        }
    }
}

/// `last_named` gives the rightmost match: the column at the index bears the
/// name and none after it does; and it gives none only where no column bears
/// the name.
pub proof fn lemma_last_named_is_rightmost(columns: Seq<Column>, name: Seq<char>)
    ensures
        match last_named(columns, name) {
            Some(index) => {
                &&& 0 <= index < columns.len()
                &&& columns[index].name() == name
                &&& forall|j: int| index < j < columns.len() ==> columns[j].name() != name
            },
            None => forall|j: int| 0 <= j < columns.len() ==> columns[j].name() != name,
        },
    decreases columns.len(),
{
    if columns.len() > 0 && columns.last().name() != name {
        let rest = columns.drop_last();
        lemma_last_named_is_rightmost(rest, name);
        assert forall|j: int| 0 <= j < rest.len() implies rest[j] == columns[j] by {}
    }
}

impl Config {
    /// Resolves the sort column to a position: that of the rightmost column
    /// that bears the sort name, or none where the schema names no sort
    /// column or names one that no column bears.
    pub fn get_sort_index(&self) -> (index: Option<usize>)
        ensures
            match index {
                Some(i) => self@.sort_index() == Some(i as int),
                None => self@.sort_index() is None,
            },
    {
        match &self.sort {
            None => None,
            Some(name) => {
                let ghost columns = self@.columns;
                let mut i: usize = self.fields.len();
                assert(columns.take(i as int) =~= columns);
                while i > 0
                    invariant
                        i <= self.fields@.len(),
                        columns == self.fields@.map_values(|field: ConfigField| field@),
                        self@.sort_index() == last_named(columns, name@),
                        last_named(columns, name@) == last_named(columns.take(i as int), name@),
                    decreases i,
                {
                    proof {
                        let upto = columns.take(i as int);
                        assert(upto.last() == self.fields@[i - 1]@);
                        assert(upto.drop_last() =~= columns.take(i - 1));
                    }
                    if self.fields[i - 1].is_named(name) {
                        return Some(i - 1);
                    }
                    i -= 1;
                }
                None
            },
        }
    }
}

} // verus!
